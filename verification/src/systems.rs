//! The steps of the engine that work on plain values: creating and updating
//! containers from their definitions, advancing and retiring tweens, and
//! combining the order tweens of a container.

use vstd::prelude::*;
use crate::components::Layer;
use crate::ids::{ContainerId, EntityId};
use crate::resources::{
    ContainerMapping, FrameTime, QuadTreeLayer, SceneGraph, graph_after_add, graph_after_reparent,
};
use crate::tween::{PropertyTween, PropertyTweenView, tween_after, elapsed_can_advance, elapsed_complete};

verus! {

/// The tween `t` is still running.
pub open spec fn tween_running<D>(t: PropertyTweenView<D>) -> bool {
    !elapsed_complete(t.elapsed)
}

/// The tweens of `s` after an update by `frame_time`, without those that completed.
pub open spec fn tweens_after_update<D>(s: Seq<PropertyTweenView<D>>, frame_time: FrameTime) -> Seq<
    PropertyTweenView<D>,
> {
    s.map_values(
        |t: PropertyTweenView<D>| tween_after(t, frame_time.delta_frame, frame_time.delta_time),
    ).filter(|t: PropertyTweenView<D>| tween_running(t))
}

/// The views of the tweens of a list.
pub open spec fn tween_views<D>(s: Seq<PropertyTween<D>>) -> Seq<PropertyTweenView<D>> {
    s.map_values(|t: PropertyTween<D>| t@)
}

/// Advances every tween of a container by the frame time, then drops the tweens that completed.
pub struct UpdateTweens;

impl UpdateTweens {
    /// Advances each of `tweens` by `frame_time` and keeps, in order, those that are still running.
    pub fn run<D>(tweens: &mut Vec<PropertyTween<D>>, frame_time: &FrameTime)
        requires
            forall|i: int|
                0 <= i < old(tweens)@.len() ==> elapsed_can_advance(
                    #[trigger] old(tweens)@[i]@.elapsed,
                    frame_time.delta_frame,
                ),
        ensures
            tween_views(final(tweens)@) == tweens_after_update(tween_views(old(tweens)@), *frame_time),
    {
        let ghost original = tween_views(tweens@);
        let ghost updated = original.map_values(
            |t: PropertyTweenView<D>| tween_after(t, frame_time.delta_frame, frame_time.delta_time),
        );
        let ghost keep = |t: PropertyTweenView<D>| tween_running(t);
        let mut pending: Vec<PropertyTween<D>> = Vec::new();
        std::mem::swap(tweens, &mut pending);
        let ghost total = pending@.len();
        assert(pending@.len() == pending.len());
        let mut done: usize = 0;
        assert(tween_views(tweens@) =~= updated.take(0).filter(keep)) by {
            reveal(Seq::filter);
        }
        while pending.len() > 0
            invariant
                total == original.len(),
                total <= usize::MAX,
                original == tween_views(old(tweens)@),
                updated == original.map_values(
                    |t: PropertyTweenView<D>| tween_after(t, frame_time.delta_frame, frame_time.delta_time),
                ),
                keep == (|t: PropertyTweenView<D>| tween_running(t)),
                done <= total,
                pending@.len() == total - done,
                forall|i: int| 0 <= i < pending@.len() ==> #[trigger] pending@[i]@ == original[done + i],
                forall|i: int|
                    0 <= i < old(tweens)@.len() ==> elapsed_can_advance(
                        #[trigger] old(tweens)@[i]@.elapsed,
                        frame_time.delta_frame,
                    ),
                tween_views(tweens@) == updated.take(done as int).filter(keep),
            decreases pending@.len(),
        {
            let mut t = pending.remove(0);
            assert(t@ == original[done as int]);
            assert(elapsed_can_advance(old(tweens)@[done as int]@.elapsed, frame_time.delta_frame));
            t.update(frame_time.delta_frame, frame_time.delta_time);
            assert(t@ == updated[done as int]);
            let ghost before = tweens@;
            if !t.is_complete() {
                tweens.push(t);
            }
            proof {
                assert(updated.take(done + 1) =~= updated.take(done as int).push(updated[done as int]));
                updated.take(done as int).lemma_filter_push(updated[done as int], keep);
                assert(tween_views(tweens@) =~= updated.take(done + 1).filter(keep)) by {
                    if tween_running(updated[done as int]) {
                        assert(tween_views(tweens@) =~= tween_views(before).push(updated[done as int]));
                    } else {
                        assert(tweens@ == before);
                    }
                }
            }
            done = done + 1;
        }
        assert(updated.take(total as int) =~= updated);
    }
}

/// Why a container definition cannot be applied.
#[derive(Clone, Copy, Debug, PartialEq, Eq, Structural)]
pub enum ContainerError {
    /// A container of that id exists already.
    AlreadyExists(ContainerId),
    /// No container of that id exists.
    UnknownContainer(ContainerId),
}

/// The entity of the container `id` under `mapping`, or the error that names it.
pub open spec fn entity_of(mapping: Map<u128, EntityId>, id: ContainerId) -> Result<EntityId, ContainerError> {
    if mapping.contains_key(id.0) {
        Ok(mapping[id.0])
    } else {
        Err(ContainerError::UnknownContainer(id))
    }
}

/// Creates the entities of queued container definitions and hangs them in the scene graph.
pub struct ContainerCreation;

impl ContainerCreation {
    /// The entity under which a new container `id` is created as a child of
    /// the container `parent`: an error when `id` exists already, or else when
    /// `parent` does not exist.
    pub fn parent_entity(mapping: &ContainerMapping, id: &ContainerId, parent: &ContainerId) -> (r: Result<
        EntityId,
        ContainerError,
    >)
        ensures
            mapping@.container_to_entity.contains_key(id.0) ==> r == Err::<EntityId, ContainerError>(
                ContainerError::AlreadyExists(*id),
            ),
            !mapping@.container_to_entity.contains_key(id.0) ==> r == entity_of(
                mapping@.container_to_entity,
                *parent,
            ),
    {
        if mapping.contains_container(id) {
            Err(ContainerError::AlreadyExists(*id))
        } else {
            match mapping.get_entity(parent) {
                Some(entity) => Ok(*entity),
                None => Err(ContainerError::UnknownContainer(*parent)),
            }
        }
    }

    /// Records `entity` as the entity of the new container `id` and adds it as
    /// the last child of `parent_entity` in the scene graph.
    pub fn register(
        mapping: &mut ContainerMapping,
        scene_graph: &mut SceneGraph,
        id: ContainerId,
        parent_entity: EntityId,
        entity: EntityId,
    )
        ensures
            final(mapping)@.container_to_entity == old(mapping)@.container_to_entity.insert(id.0, entity),
            final(mapping)@.entity_to_container == old(mapping)@.entity_to_container.insert(entity, id),
            final(scene_graph)@ == graph_after_add(old(scene_graph)@, parent_entity, entity),
    {
        mapping.add_container(id, entity);
        scene_graph.add_entity(&parent_entity, &entity);
    }
}

/// Applies queued container updates: property changes become tweens or new
/// components, and parents change in the scene graph.
pub struct ContainerUpdate;

/// Where a tween starts: the value and whether it must first be stored as the
/// container's component.
#[derive(Debug)]
pub struct TweenStart<T> {
    pub value: T,
    pub store: bool,
}

/// The start of a tween from the container's current component and the
/// library's value for it: the component wins; the library's value is
/// stored as the component first.
pub open spec fn tween_start_of<T>(component: Option<T>, from_library: Option<T>) -> Option<TweenStart<T>> {
    match component {
        Some(c) => Some(TweenStart { value: c, store: false }),
        None => match from_library {
            Some(l) => Some(TweenStart { value: l, store: true }),
            None => None,
        },
    }
}

impl ContainerUpdate {
    /// The entity of the container `id` that an update names.
    pub fn target(mapping: &ContainerMapping, id: &ContainerId) -> (r: Result<EntityId, ContainerError>)
        ensures
            r == entity_of(mapping@.container_to_entity, *id),
    {
        match mapping.get_entity(id) {
            Some(entity) => Ok(*entity),
            None => Err(ContainerError::UnknownContainer(*id)),
        }
    }

    /// Moves `entity` to the end of the children of the container
    /// `new_parent`'s entity; an error, with the graph unchanged, when that
    /// container does not exist.
    pub fn reparent(
        mapping: &ContainerMapping,
        scene_graph: &mut SceneGraph,
        entity: EntityId,
        new_parent: &ContainerId,
    ) -> (r: Result<(), ContainerError>)
        ensures
            !mapping@.container_to_entity.contains_key(new_parent.0) ==> {
                &&& r == Err::<(), ContainerError>(ContainerError::UnknownContainer(*new_parent))
                &&& final(scene_graph)@ == old(scene_graph)@
            },
            mapping@.container_to_entity.contains_key(new_parent.0) ==> {
                &&& r is Ok
                &&& final(scene_graph)@ == graph_after_reparent(
                    old(scene_graph)@,
                    mapping@.container_to_entity[new_parent.0],
                    entity,
                )
            },
    {
        match mapping.get_entity(new_parent) {
            Some(parent_entity) => {
                scene_graph.reparent(parent_entity, entity);
                Ok(())
            },
            None => Err(ContainerError::UnknownContainer(*new_parent)),
        }
    }

    /// Registers the container in `layer`, creating its layer component if
    /// needed; only a container with bounds can be registered, otherwise
    /// nothing changes.
    pub fn add_to_layer(layers: &mut Option<Layer>, has_bounds: bool, layer: QuadTreeLayer)
        ensures
            !has_bounds ==> *final(layers) == *old(layers),
            has_bounds ==> *final(layers) is Some && (*final(layers))->0@ == (match *old(layers) {
                Some(l) => l@,
                None => Set::<u32>::empty(),
            }).insert(layer.0),
    {
        if has_bounds {
            match layers {
                Some(l) => l.add(layer),
                None => {
                    let mut l = Layer::new();
                    l.add(layer);
                    *layers = Some(l);
                },
            }
        }
    }

    /// Takes the container out of `layer`; whether it was registered there,
    /// in which case the quad tree of that layer must drop it too.
    pub fn remove_from_layer(layers: &mut Option<Layer>, layer: &QuadTreeLayer) -> (r: bool)
        ensures
            r == (*old(layers) is Some && (*old(layers))->0@.contains(layer.0)),
            *old(layers) is None ==> *final(layers) is None,
            *old(layers) is Some ==> *final(layers) is Some && (*final(layers))->0@ == (*old(
                layers,
            ))->0@.remove(layer.0),
    {
        match layers {
            Some(l) => l.remove(layer),
            None => false,
        }
    }

    /// Where a tween of a coloring or a view rectangle starts: the
    /// container's component when it has one, else the library item's value,
    /// which is then stored as the component; `None` when there is neither.
    pub fn tween_start<T>(component: Option<T>, from_library: Option<T>) -> (r: Option<TweenStart<T>>)
        ensures
            r == tween_start_of(component, from_library),
    {
        match component {
            Some(c) => Some(TweenStart { value: c, store: false }),
            None => match from_library {
                Some(l) => Some(TweenStart { value: l, store: true }),
                None => None,
            },
        }
    }

    /// Where a tween of the drawing order of `entity` starts: its order when
    /// it has one, else 0, which is then stored as its order.
    pub fn order_start(orders: &mut std::collections::HashMap<EntityId, i8>, entity: EntityId) -> (r: i8)
        ensures
            r == (if old(orders)@.contains_key(entity) {
                old(orders)@[entity]
            } else {
                0i8
            }),
            final(orders)@ == old(orders)@.insert(entity, r),
    {
        match orders.get(&entity) {
            Some(order) => {
                let order = *order;
                orders.insert(entity, order);
                order
            },
            None => {
                orders.insert(entity, 0);
                0
            },
        }
    }
}

/// The largest of the orders in `s`, `None` for no orders.
pub open spec fn max_order(s: Seq<i8>) -> Option<i8>
    decreases s.len(),
{
    if s.len() == 0 {
        None
    } else {
        match max_order(s.drop_last()) {
            None => Some(s.last()),
            Some(m) => Some(if s.last() > m { s.last() } else { m }),
        }
    }
}

/// Sets the drawing order of a container from its running order tweens.
pub struct ApplyOrderTweens;

impl ApplyOrderTweens {
    /// The order that the running order tweens agree on: the largest of the
    /// orders they compute, `None` when there are none.
    pub fn combine(orders: &Vec<i8>) -> (r: Option<i8>)
        ensures
            r == max_order(orders@),
            r is None <==> orders@.len() == 0,
            r matches Some(m) ==> orders@.contains(m) && forall|i: int|
                0 <= i < orders@.len() ==> #[trigger] orders@[i] <= m,
    {
        let mut best: Option<i8> = None;
        let mut i: usize = 0;
        while i < orders.len()
            invariant
                0 <= i <= orders@.len(),
                best == max_order(orders@.take(i as int)),
                best is None <==> i == 0,
                best matches Some(m) ==> orders@.take(i as int).contains(m) && forall|k: int|
                    0 <= k < i ==> #[trigger] orders@[k] <= m,
            decreases orders@.len() - i,
        {
            let o = orders[i];
            proof {
                assert(orders@.take(i + 1).drop_last() =~= orders@.take(i as int));
                assert(orders@.take(i + 1).last() == o);
                if let Some(m) = best {
                    let j = choose|j: int| 0 <= j < orders@.take(i as int).len() && orders@.take(i as int)[j] == m;
                    assert(orders@.take(i + 1)[j] == m);
                }
                assert(orders@.take(i + 1)[i as int] == o);
            }
            best = match best {
                None => Some(o),
                Some(m) => Some(if o > m { o } else { m }),
            };
            i = i + 1;
        }
        assert(orders@.take(orders@.len() as int) =~= orders@);
        best
    }
}

} // verus!
