//! Resources of the engine: quad-tree layers, frame timing, the mapping
//! between containers and entities, the scene graph, the library and the
//! queues of pending container definitions.

use vstd::prelude::*;
use std::collections::{HashMap, VecDeque};
use std::sync::Arc;
use crate::ids::{ContainerId, EntityId, LibraryId};
use crate::tween::TimeSpan;

verus! {

/// Names one of the quad trees that containers can be registered in for spatial queries.
#[derive(Clone, Copy, Debug, Default, PartialEq, Eq, Hash, PartialOrd, Ord, Structural)]
pub struct QuadTreeLayer(pub u32);

impl QuadTreeLayer {
    /// The layer numbered `layer`.
    pub fn new(layer: u32) -> (r: QuadTreeLayer)
        ensures
            r.0 == layer,
    {
        QuadTreeLayer(layer)
    }
}

/// The time and the number of frames that passed since the previous update.
#[derive(Clone, Copy, Debug)]
pub struct FrameTime {
    pub delta_time: TimeSpan,
    pub delta_frame: u32,
}

impl FrameTime {
    /// A frame time of `delta_time` and `delta_frame` frames.
    pub fn new(delta_time: TimeSpan, delta_frame: u32) -> (r: FrameTime)
        ensures
            r.delta_time == delta_time,
            r.delta_frame == delta_frame,
    {
        FrameTime { delta_time, delta_frame }
    }
}

broadcast use vstd::std_specs::hash::group_hash_axioms;

/// The shapes and textures that containers display, by library id.
#[derive(Debug)]
pub struct Library<S, P> {
    shapes: HashMap<u128, Arc<S>>,
    textures: HashMap<u128, Arc<P>>,
}

/// The abstract state of a library: its shapes and its textures by id.
pub struct LibraryView<S, P> {
    pub shapes: Map<u128, S>,
    pub textures: Map<u128, P>,
}

impl<S, P> View for Library<S, P> {
    type V = LibraryView<S, P>;

    closed spec fn view(&self) -> LibraryView<S, P> {
        LibraryView {
            shapes: self.shapes@.map_values(|a: Arc<S>| *a),
            textures: self.textures@.map_values(|a: Arc<P>| *a),
        }
    }
}

impl<S, P> Library<S, P> {
    /// An empty library.
    pub fn new() -> (r: Library<S, P>)
        ensures
            r@.shapes == Map::<u128, S>::empty(),
            r@.textures == Map::<u128, P>::empty(),
    {
        let r = Library { shapes: HashMap::new(), textures: HashMap::new() };
        assert(r@.shapes =~= Map::<u128, S>::empty());
        assert(r@.textures =~= Map::<u128, P>::empty());
        r
    }

    /// Stores `shape` under `id`, replacing any shape stored there.
    pub fn add_shape(&mut self, id: LibraryId, shape: S)
        ensures
            final(self)@.shapes == old(self)@.shapes.insert(id.0, shape),
            final(self)@.textures == old(self)@.textures,
    {
        self.shapes.insert(id.0, Arc::new(shape));
        assert(self@.shapes =~= old(self)@.shapes.insert(id.0, shape));
    }

    /// Stores `pattern` under `id`, replacing any texture stored there.
    pub fn add_texture(&mut self, id: LibraryId, pattern: P)
        ensures
            final(self)@.textures == old(self)@.textures.insert(id.0, pattern),
            final(self)@.shapes == old(self)@.shapes,
    {
        self.textures.insert(id.0, Arc::new(pattern));
        assert(self@.textures =~= old(self)@.textures.insert(id.0, pattern));
    }

    /// The shape stored under `id`, shared.
    pub fn get_shape(&self, id: &LibraryId) -> (r: Option<Arc<S>>)
        ensures
            match r {
                Some(a) => self@.shapes.contains_key(id.0) && *a == self@.shapes[id.0],
                None => !self@.shapes.contains_key(id.0),
            },
    {
        match self.shapes.get(&id.0) {
            Some(a) => Some(a.clone()),
            None => None,
        }
    }

    /// The texture stored under `id`, shared.
    pub fn get_texture(&self, id: &LibraryId) -> (r: Option<Arc<P>>)
        ensures
            match r {
                Some(a) => self@.textures.contains_key(id.0) && *a == self@.textures[id.0],
                None => !self@.textures.contains_key(id.0),
            },
    {
        match self.textures.get(&id.0) {
            Some(a) => Some(a.clone()),
            None => None,
        }
    }

    /// Drops the shape stored under `id`, if any.
    pub fn remove_shape(&mut self, id: &LibraryId)
        ensures
            final(self)@.shapes == old(self)@.shapes.remove(id.0),
            final(self)@.textures == old(self)@.textures,
    {
        self.shapes.remove(&id.0);
        assert(self@.shapes =~= old(self)@.shapes.remove(id.0));
    }

    /// Drops the texture stored under `id`, if any.
    pub fn remove_texture(&mut self, id: &LibraryId)
        ensures
            final(self)@.textures == old(self)@.textures.remove(id.0),
            final(self)@.shapes == old(self)@.shapes,
    {
        self.textures.remove(&id.0);
        assert(self@.textures =~= old(self)@.textures.remove(id.0));
    }

    /// Whether a shape is stored under `id`.
    pub fn contains_shape(&self, id: &LibraryId) -> (r: bool)
        ensures
            r == self@.shapes.contains_key(id.0),
    {
        self.shapes.contains_key(&id.0)
    }

    /// Whether a texture is stored under `id`.
    pub fn contains_texture(&self, id: &LibraryId) -> (r: bool)
        ensures
            r == self@.textures.contains_key(id.0),
    {
        self.textures.contains_key(&id.0)
    }
}

impl<S, P> Default for Library<S, P> {
    fn default() -> (r: Library<S, P>)
        ensures
            r@.shapes == Map::<u128, S>::empty(),
            r@.textures == Map::<u128, P>::empty(),
    {
        Library::new()
    }
}

/// The abstract state of a container mapping: containers to entities, and entities to containers.
pub struct ContainerMappingView {
    pub container_to_entity: Map<u128, EntityId>,
    pub entity_to_container: Map<EntityId, ContainerId>,
}

/// Which engine entity stands for each container, and which container for each entity.
#[derive(Debug)]
pub struct ContainerMapping {
    container_to_entity: HashMap<u128, EntityId>,
    entity_to_container: HashMap<EntityId, ContainerId>,
}

impl View for ContainerMapping {
    type V = ContainerMappingView;

    closed spec fn view(&self) -> ContainerMappingView {
        ContainerMappingView {
            container_to_entity: self.container_to_entity@,
            entity_to_container: self.entity_to_container@,
        }
    }
}

impl ContainerMapping {
    /// An empty mapping.
    pub fn new() -> (r: ContainerMapping)
        ensures
            r@.container_to_entity == Map::<u128, EntityId>::empty(),
            r@.entity_to_container == Map::<EntityId, ContainerId>::empty(),
    {
        ContainerMapping { container_to_entity: HashMap::new(), entity_to_container: HashMap::new() }
    }

    /// Records that `entity` stands for `container_id`, in both directions.
    pub fn add_container(&mut self, container_id: ContainerId, entity: EntityId)
        ensures
            final(self)@.container_to_entity == old(self)@.container_to_entity.insert(
                container_id.0,
                entity,
            ),
            final(self)@.entity_to_container == old(self)@.entity_to_container.insert(
                entity,
                container_id,
            ),
    {
        self.container_to_entity.insert(container_id.0, entity);
        self.entity_to_container.insert(entity, container_id);
    }

    /// Forgets the container `container_id` and the entity that stands for it.
    pub fn remove_container(&mut self, container_id: &ContainerId)
        ensures
            final(self)@.container_to_entity == old(self)@.container_to_entity.remove(
                container_id.0,
            ),
            final(self)@.entity_to_container == (if old(
                self,
            )@.container_to_entity.contains_key(container_id.0) {
                old(self)@.entity_to_container.remove(
                    old(self)@.container_to_entity[container_id.0],
                )
            } else {
                old(self)@.entity_to_container
            }),
    {
        if let Some(removed_entity) = self.container_to_entity.remove(&container_id.0) {
            self.entity_to_container.remove(&removed_entity);
        }
    }

    /// Forgets the entity `entity` and the container it stands for.
    pub fn remove_entity(&mut self, entity: &EntityId)
        ensures
            final(self)@.entity_to_container == old(self)@.entity_to_container.remove(*entity),
            final(self)@.container_to_entity == (if old(
                self,
            )@.entity_to_container.contains_key(*entity) {
                old(self)@.container_to_entity.remove(old(self)@.entity_to_container[*entity].0)
            } else {
                old(self)@.container_to_entity
            }),
    {
        if let Some(removed_container) = self.entity_to_container.remove(entity) {
            self.container_to_entity.remove(&removed_container.0);
        }
    }

    /// The container that `entity` stands for.
    pub fn get_container(&self, entity: &EntityId) -> (r: Option<&ContainerId>)
        ensures
            match r {
                Some(c) => self@.entity_to_container.contains_key(*entity)
                    && *c == self@.entity_to_container[*entity],
                None => !self@.entity_to_container.contains_key(*entity),
            },
    {
        self.entity_to_container.get(entity)
    }

    /// The entity that stands for `container_id`.
    pub fn get_entity(&self, container_id: &ContainerId) -> (r: Option<&EntityId>)
        ensures
            match r {
                Some(e) => self@.container_to_entity.contains_key(container_id.0)
                    && *e == self@.container_to_entity[container_id.0],
                None => !self@.container_to_entity.contains_key(container_id.0),
            },
    {
        self.container_to_entity.get(&container_id.0)
    }

    /// Whether some entity stands for `container_id`.
    pub fn contains_container(&self, container_id: &ContainerId) -> (r: bool)
        ensures
            r == self@.container_to_entity.contains_key(container_id.0),
    {
        self.container_to_entity.contains_key(&container_id.0)
    }

    /// Whether `entity` stands for some container.
    pub fn contains_entity(&self, entity: &EntityId) -> (r: bool)
        ensures
            r == self@.entity_to_container.contains_key(*entity),
    {
        self.entity_to_container.contains_key(entity)
    }
}

impl Default for ContainerMapping {
    fn default() -> (r: ContainerMapping)
        ensures
            r@.container_to_entity == Map::<u128, EntityId>::empty(),
            r@.entity_to_container == Map::<EntityId, ContainerId>::empty(),
    {
        ContainerMapping::new()
    }
}

/// Container definitions waiting to be created, first in first out.
#[derive(Debug)]
pub struct ContainerCreationQueue<D> {
    container_data: VecDeque<D>,
}

impl<D> View for ContainerCreationQueue<D> {
    type V = Seq<D>;

    closed spec fn view(&self) -> Seq<D> {
        self.container_data@
    }
}

impl<D> ContainerCreationQueue<D> {
    /// An empty queue.
    pub fn new() -> (r: ContainerCreationQueue<D>)
        ensures
            r@ == Seq::<D>::empty(),
    {
        ContainerCreationQueue { container_data: VecDeque::new() }
    }

    /// Puts `definition` at the back of the queue.
    pub fn enqueue(&mut self, definition: D)
        ensures
            final(self)@ == old(self)@.push(definition),
    {
        self.container_data.push_back(definition);
    }

    /// Takes the definition at the front of the queue, if any.
    pub fn dequeue(&mut self) -> (r: Option<D>)
        ensures
            match r {
                Some(d) => old(self)@.len() > 0 && d == old(self)@[0] && final(self)@ == old(
                    self,
                )@.subrange(1, old(self)@.len() as int),
                None => old(self)@.len() == 0 && final(self)@ == old(self)@,
            },
    {
        self.container_data.pop_front()
    }
}

impl<D> Default for ContainerCreationQueue<D> {
    fn default() -> (r: ContainerCreationQueue<D>)
        ensures
            r@ == Seq::<D>::empty(),
    {
        ContainerCreationQueue::new()
    }
}

/// Container updates waiting to be applied, first in first out.
#[derive(Debug)]
pub struct ContainerUpdateQueue<D> {
    container_data: VecDeque<D>,
}

impl<D> View for ContainerUpdateQueue<D> {
    type V = Seq<D>;

    closed spec fn view(&self) -> Seq<D> {
        self.container_data@
    }
}

impl<D> ContainerUpdateQueue<D> {
    /// An empty queue.
    pub fn new() -> (r: ContainerUpdateQueue<D>)
        ensures
            r@ == Seq::<D>::empty(),
    {
        ContainerUpdateQueue { container_data: VecDeque::new() }
    }

    /// Puts `definition` at the back of the queue.
    pub fn enqueue(&mut self, definition: D)
        ensures
            final(self)@ == old(self)@.push(definition),
    {
        self.container_data.push_back(definition);
    }

    /// Takes the definition at the front of the queue, if any.
    pub fn dequeue(&mut self) -> (r: Option<D>)
        ensures
            match r {
                Some(d) => old(self)@.len() > 0 && d == old(self)@[0] && final(self)@ == old(
                    self,
                )@.subrange(1, old(self)@.len() as int),
                None => old(self)@.len() == 0 && final(self)@ == old(self)@,
            },
    {
        self.container_data.pop_front()
    }
}

impl<D> Default for ContainerUpdateQueue<D> {
    fn default() -> (r: ContainerUpdateQueue<D>)
        ensures
            r@ == Seq::<D>::empty(),
    {
        ContainerUpdateQueue::new()
    }
}

/// The abstract state of a scene graph: its root, the children of each entity
/// in order, and the parent of each entity.
#[verifier::ext_equal]
pub struct SceneGraphView {
    pub root: EntityId,
    pub tree: Map<EntityId, Seq<EntityId>>,
    pub parents: Map<EntityId, EntityId>,
}

/// The tree of entities of the scene: each entity's children in drawing
/// order, and each entity's parent. The root is its own parent.
#[derive(Debug)]
pub struct SceneGraph {
    root: EntityId,
    tree: HashMap<EntityId, Vec<EntityId>>,
    parents: HashMap<EntityId, EntityId>,
}

impl View for SceneGraph {
    type V = SceneGraphView;

    closed spec fn view(&self) -> SceneGraphView {
        SceneGraphView {
            root: self.root,
            tree: self.tree@.map_values(|v: Vec<EntityId>| v@),
            parents: self.parents@,
        }
    }
}

/// The children list `s` without the entity `x`.
pub open spec fn without_entity(s: Seq<EntityId>, x: EntityId) -> Seq<EntityId> {
    s.filter(other_than(x))
}

/// The test that an entity is not `x`.
pub open spec fn other_than(x: EntityId) -> spec_fn(EntityId) -> bool {
    |c: EntityId| c != x
}

/// The parent map `m` after giving each of `children` the parent `p`.
pub open spec fn with_parent(m: Map<EntityId, EntityId>, children: Seq<EntityId>, p: EntityId) -> Map<
    EntityId,
    EntityId,
> {
    Map::new(
        |k: EntityId| m.contains_key(k) || children.contains(k),
        |k: EntityId|
            if children.contains(k) {
                p
            } else {
                m[k]
            },
    )
}

/// The entity at position `i` of `s` is a child, in `tree`, of an entity
/// earlier in `s`.
pub open spec fn child_of_earlier(tree: Map<EntityId, Seq<EntityId>>, s: Seq<EntityId>, i: int) -> bool {
    exists|j: int| 0 <= j < i && tree.contains_key(s[j]) && tree[s[j]].contains(s[i])
}

/// The entities that a breadth-first removal takes after those in `queue` were
/// put in line, in the order it takes them: the first in line that still has
/// a children list leaves the tree, and its children are taken and put at the
/// end of the line; one with no children list is passed over.
pub open spec fn bfs_removal(tree: Map<EntityId, Seq<EntityId>>, queue: Seq<EntityId>) -> Seq<EntityId>
    decreases tree.dom().len(), queue.len(),
    when tree.dom().finite()
{
    if queue.len() == 0 {
        Seq::empty()
    } else if tree.contains_key(queue[0]) {
        proof {
            assert(tree.remove(queue[0]).dom() =~= tree.dom().remove(queue[0]));
        }
        tree[queue[0]] + bfs_removal(tree.remove(queue[0]), queue.skip(1) + tree[queue[0]])
    } else {
        bfs_removal(tree, queue.skip(1))
    }
}

/// The graph `v` after adding `entity` as the last child of `parent` (when
/// `parent` is in the tree), with no children of its own.
pub open spec fn graph_after_add(v: SceneGraphView, parent: EntityId, entity: EntityId) -> SceneGraphView {
    SceneGraphView {
        root: v.root,
        tree: (if v.tree.contains_key(parent) {
            v.tree.insert(parent, v.tree[parent].push(entity))
        } else {
            v.tree
        }).insert(entity, Seq::empty()),
        parents: v.parents.insert(entity, parent),
    }
}

/// The tree of `v` once `entity` has left the children of its parent (when it has one).
pub open spec fn tree_without_child(v: SceneGraphView, entity: EntityId) -> Map<EntityId, Seq<EntityId>> {
    if v.parents.contains_key(entity) && v.tree.contains_key(v.parents[entity]) {
        v.tree.insert(v.parents[entity], without_entity(v.tree[v.parents[entity]], entity))
    } else {
        v.tree
    }
}

/// The graph `v` after moving `entity` to the end of the children of
/// `new_parent` (which gets a children list if it had none).
pub open spec fn graph_after_reparent(v: SceneGraphView, new_parent: EntityId, entity: EntityId) -> SceneGraphView {
    let t1 = tree_without_child(v, entity);
    SceneGraphView {
        root: v.root,
        tree: t1.insert(
            new_parent,
            (if t1.contains_key(new_parent) {
                t1[new_parent]
            } else {
                Seq::empty()
            }).push(entity),
        ),
        parents: v.parents.insert(entity, new_parent),
    }
}

/// The graph `v` after removing `entity`: its children, if it had any, become
/// children of its parent, after the parent's other children.
pub open spec fn graph_after_remove(v: SceneGraphView, entity: EntityId) -> SceneGraphView {
    if v.tree.contains_key(entity) {
        let p = v.parents[entity];
        let children = v.tree[entity];
        let t1 = v.tree.remove(entity);
        SceneGraphView {
            root: v.root,
            tree: if t1.contains_key(p) {
                t1.insert(p, without_entity(t1[p], entity) + children)
            } else {
                t1
            },
            parents: with_parent(v.parents.remove(entity), children, p),
        }
    } else {
        SceneGraphView { root: v.root, tree: v.tree, parents: v.parents.remove(entity) }
    }
}

/// The ancestors of `e` met in at most `n` steps up the graph `v`: each step
/// goes to the parent, and the climb stops at an entity with no parent or
/// whose parent is the root (the root is not listed).
pub open spec fn climb(v: SceneGraphView, e: EntityId, n: nat) -> Seq<EntityId>
    decreases n,
{
    if n > 0 && v.parents.contains_key(e) && v.parents[e] != v.root {
        seq![v.parents[e]] + climb(v, v.parents[e], (n - 1) as nat)
    } else {
        Seq::empty()
    }
}

/// The climb up from `e` stops within `n` steps.
pub open spec fn climb_stops(v: SceneGraphView, e: EntityId, n: nat) -> bool
    decreases n,
{
    if v.parents.contains_key(e) && v.parents[e] != v.root {
        n > 0 && climb_stops(v, v.parents[e], (n - 1) as nat)
    } else {
        true
    }
}

/// Once the climb has stopped, more steps add nothing.
pub proof fn lemma_climb_settles(v: SceneGraphView, e: EntityId, n: nat, m: nat)
    requires
        climb_stops(v, e, n),
        n <= m,
    ensures
        climb_stops(v, e, m),
        climb(v, e, m) == climb(v, e, n),
    decreases n,
{
    if v.parents.contains_key(e) && v.parents[e] != v.root {
        lemma_climb_settles(v, v.parents[e], (n - 1) as nat, (m - 1) as nat);
    }
}

/// A copy of `v` without the entity `x`, in order.
fn copy_without(v: &Vec<EntityId>, x: EntityId) -> (r: Vec<EntityId>)
    ensures
        r@ == without_entity(v@, x),
{
    let mut r: Vec<EntityId> = Vec::new();
    let mut i: usize = 0;
    while i < v.len()
        invariant
            0 <= i <= v@.len(),
            r@ == without_entity(v@.take(i as int), x),
        decreases v@.len() - i,
    {
        proof {
            assert(v@.take(i + 1) =~= v@.take(i as int).push(v@[i as int]));
            v@.take(i as int).lemma_filter_push(v@[i as int], other_than(x));
        }
        if v[i] != x {
            r.push(v[i]);
        }
        i = i + 1;
    }
    assert(v@.take(v@.len() as int) =~= v@);
    r
}

impl SceneGraph {
    /// A graph holding only `root`, with no children, as its own parent.
    pub fn new(root: EntityId) -> (r: SceneGraph)
        ensures
            r@.root == root,
            r@.tree == Map::<EntityId, Seq<EntityId>>::empty().insert(root, Seq::empty()),
            r@.parents == Map::<EntityId, EntityId>::empty().insert(root, root),
    {
        let mut tree = HashMap::new();
        tree.insert(root, Vec::new());
        let mut parents = HashMap::new();
        parents.insert(root, root);
        let r = SceneGraph { root, tree, parents };
        assert(r@.tree =~= Map::<EntityId, Seq<EntityId>>::empty().insert(root, Seq::empty()));
        r
    }

    /// Adds `entity` as the last child of `parent` (when `parent` is in the
    /// tree), with no children of its own.
    pub fn add_entity(&mut self, parent: &EntityId, entity: &EntityId)
        ensures
            final(self)@ == graph_after_add(old(self)@, *parent, *entity),
    {
        let ghost t0 = self@.tree;
        if let Some(mut children) = self.tree.remove(parent) {
            children.push(*entity);
            self.tree.insert(*parent, children);
        }
        assert(self@.tree =~= (if t0.contains_key(*parent) {
            t0.insert(*parent, t0[*parent].push(*entity))
        } else {
            t0
        }));
        self.parents.insert(*entity, *parent);
        self.tree.insert(*entity, Vec::new());
        assert(self@.tree =~= (if t0.contains_key(*parent) {
            t0.insert(*parent, t0[*parent].push(*entity))
        } else {
            t0
        }).insert(*entity, Seq::empty()));
    }

    /// Moves `entity` to the end of the children of `new_parent`: it leaves its
    /// old parent's children (when it has a parent) and `new_parent` gets a
    /// children list if it had none.
    pub fn reparent(&mut self, new_parent: &EntityId, entity: EntityId)
        ensures
            final(self)@ == graph_after_reparent(old(self)@, *new_parent, entity),
    {
        let ghost t0 = self@.tree;
        if let Some(old_parent) = self.parents.get(&entity) {
            let old_parent = *old_parent;
            if let Some(children) = self.tree.remove(&old_parent) {
                let kept = copy_without(&children, entity);
                self.tree.insert(old_parent, kept);
            }
        }
        let ghost t1 = self@.tree;
        assert(t1 =~= (if old(self)@.parents.contains_key(entity) && t0.contains_key(
            old(self)@.parents[entity],
        ) {
            t0.insert(old(self)@.parents[entity], without_entity(t0[old(self)@.parents[entity]], entity))
        } else {
            t0
        }));
        self.parents.insert(entity, *new_parent);
        let mut list = match self.tree.remove(new_parent) {
            Some(v) => v,
            None => Vec::new(),
        };
        list.push(entity);
        self.tree.insert(*new_parent, list);
        assert(self@.tree =~= t1.insert(
            *new_parent,
            (if t1.contains_key(*new_parent) {
                t1[*new_parent]
            } else {
                Seq::empty()
            }).push(entity),
        ));
    }

    /// Removes `entity` from the graph. When it had children, they become
    /// children of its parent, after the parent's other children.
    pub fn remove_entity(&mut self, entity: &EntityId)
        requires
            old(self)@.tree.contains_key(*entity) ==> old(self)@.parents.contains_key(*entity),
        ensures
            final(self)@ == graph_after_remove(old(self)@, *entity),
    {
        let parent = self.parents.remove(entity);
        let ghost p0 = self@.parents;
        if let Some(mut children) = self.tree.remove(entity) {
            let parent = match parent {
                Some(p) => p,
                None => {
                    assert(false);
                    return;
                },
            };
            let ghost t_removed = self@.tree;
            let mut i: usize = 0;
            #[verifier::loop_isolation(false)]
            while i < children.len()
                invariant
                    0 <= i <= children@.len(),
                    self.root == old(self).root,
                    self@.tree == t_removed,
                    self@.parents == with_parent(p0, children@.take(i as int), parent),
                decreases children@.len() - i,
            {
                self.parents.insert(children[i], parent);
                proof {
                    let prefix = children@.take(i as int);
                    let longer = children@.take(i + 1);
                    assert(longer =~= prefix.push(children@[i as int]));
                    assert forall|k: EntityId| #[trigger] longer.contains(k) <==> (prefix.contains(k) || k
                        == children@[i as int]) by {
                        if longer.contains(k) {
                            let j = choose|j: int| 0 <= j < longer.len() && longer[j] == k;
                            if j < i {
                                assert(prefix[j] == k);
                            }
                        }
                        if prefix.contains(k) {
                            let j = choose|j: int| 0 <= j < prefix.len() && prefix[j] == k;
                            assert(longer[j] == k);
                        }
                        if k == children@[i as int] {
                            assert(longer[i as int] == k);
                        }
                    }
                    assert(self@.parents =~= with_parent(p0, longer, parent));
                }
                i = i + 1;
            }
            assert(children@.take(children@.len() as int) =~= children@);
            let ghost t1 = self@.tree;
            let ghost moved = children@;
            if let Some(existing) = self.tree.remove(&parent) {
                let mut kept = copy_without(&existing, *entity);
                kept.append(&mut children);
                self.tree.insert(parent, kept);
            }
            assert(self@.tree =~= (if t1.contains_key(parent) {
                t1.insert(parent, without_entity(t1[parent], *entity) + moved)
            } else {
                t1
            }));
        }
    }

    /// Removes `entity` and, breadth first, every entity below it. Returns the
    /// removed entities in the order of removal (`bfs_removal`): `entity`
    /// first, then each entity after one of whose children it is, every child
    /// of a removed entity among them. In a well-formed graph whose lists have
    /// no duplicates, no entity after the first is returned twice.
    pub fn remove_entity_and_children(&mut self, entity: &EntityId) -> (removed: Vec<EntityId>)
        ensures
            removed@ == seq![*entity] + bfs_removal(old(self)@.tree, seq![*entity]),
            graph_wf(old(self)@) && children_unique(old(self)@) ==> removed@.skip(1).no_duplicates(),
            removed@.len() >= 1,
            removed@[0] == *entity,
            final(self)@.root == old(self)@.root,
            final(self)@.tree == old(self)@.tree.remove_keys(removed@.to_set()),
            final(self)@.parents == old(self)@.parents.remove_keys(removed@.to_set()),
            forall|i: int, c: EntityId|
                0 <= i < removed@.len() && old(self)@.tree.contains_key(#[trigger] removed@[i])
                    && #[trigger] old(self)@.tree[removed@[i]].contains(c) ==> removed@.contains(c),
            forall|i: int|
                0 < i < removed@.len() ==> #[trigger] child_of_earlier(old(self)@.tree, removed@, i),
    {
        let ghost t0 = self@.tree;
        let ghost p0 = self@.parents;
        let ghost good = graph_wf(old(self)@) && children_unique(old(self)@);
        let ghost order = seq![*entity] + bfs_removal(t0, seq![*entity]);
        let mut queue: VecDeque<EntityId> = VecDeque::new();
        let mut removed: Vec<EntityId> = Vec::new();
        queue.push_back(*entity);
        removed.push(*entity);
        let ghost mut popped: int = 0;
        proof {
            assert(removed@.take(0).to_set() =~= Set::<EntityId>::empty());
            assert(self@.tree =~= t0.remove_keys(Set::<EntityId>::empty()));
            assert(self@.parents =~= p0.remove_keys(Set::<EntityId>::empty()));
            assert(queue@ =~= removed@.subrange(0, 1));
            assert(removed@ + bfs_removal(self@.tree, queue@) =~= order);
            assert(removed@.skip(1) =~= Seq::<EntityId>::empty());
        }
        loop
            invariant
                removed@ + bfs_removal(self@.tree, queue@) == order,
                good == (graph_wf(old(self)@) && children_unique(old(self)@)),
                good ==> removed@.skip(1).no_duplicates(),
                good ==> forall|k: int|
                    1 <= k < removed@.len() ==> p0.contains_key(#[trigger] removed@[k])
                        && removed@.take(popped).contains(p0[removed@[k]]),
                removed@.len() >= 1,
                removed@[0] == *entity,
                0 <= popped <= removed@.len(),
                queue@ == removed@.subrange(popped, removed@.len() as int),
                self.root == old(self).root,
                t0 == old(self)@.tree,
                p0 == old(self)@.parents,
                self@.tree == t0.remove_keys(removed@.take(popped).to_set()),
                self@.parents == p0.remove_keys(removed@.take(popped).to_set()),
                forall|j: int, c: EntityId|
                    0 <= j < popped && t0.contains_key(#[trigger] removed@[j])
                        && #[trigger] t0[removed@[j]].contains(c) ==> removed@.contains(c),
                forall|i: int|
                    0 < i < removed@.len() ==> #[trigger] child_of_earlier(t0, removed@, i),
            ensures
                removed@ == order,
                good ==> removed@.skip(1).no_duplicates(),
                popped == removed@.len(),
                removed@.len() >= 1,
                removed@[0] == *entity,
                self.root == old(self).root,
                self@.tree == t0.remove_keys(removed@.take(popped).to_set()),
                self@.parents == p0.remove_keys(removed@.take(popped).to_set()),
                forall|j: int, c: EntityId|
                    0 <= j < popped && t0.contains_key(#[trigger] removed@[j])
                        && #[trigger] t0[removed@[j]].contains(c) ==> removed@.contains(c),
                forall|i: int|
                    0 < i < removed@.len() ==> #[trigger] child_of_earlier(t0, removed@, i),
            decreases self@.tree.dom().len(), queue@.len(),
        {
            let ghost q_start = queue@;
            proof {
                assert(self.tree@.dom().finite());
                assert(self@.tree.dom() =~= self.tree@.dom());
            }
            let next = match queue.pop_front() {
                Some(n) => n,
                None => {
                    assert(removed@ + Seq::<EntityId>::empty() =~= removed@);
                    break;
                },
            };
            let ghost done_before = removed@.take(popped).to_set();
            let ghost tree_before = self@.tree;
            let ghost queue_len_before = queue@.len() + 1;
            assert(next == removed@[popped]);
            let was_present = self.tree.contains_key(&next);
            let ghost raw_before = self.tree@;
            proof {
                assert(self.tree@.dom().finite());
                assert(tree_before.dom() =~= raw_before.dom());
                if was_present {
                    assert(self.tree@.contains_key(next));
                    assert(tree_before.contains_key(next));
                    assert(t0.remove_keys(done_before).contains_key(next));
                    assert(tree_before[next] == raw_before[next]@);
                }
            }
            let children = match self.tree.remove(&next) {
                Some(v) => v,
                None => Vec::new(),
            };
            proof {
                assert(self.tree@ == raw_before.remove(next));
                assert(self@.tree =~= tree_before.remove(next));
                if was_present {
                    assert(!done_before.contains(next));
                    assert(children == raw_before[next]);
                    assert(children@ == t0[next]);
                    assert(tree_before.dom().finite());
                    assert(self@.tree.dom() =~= tree_before.dom().remove(next));
                    assert(self@.tree.dom().len() == tree_before.dom().len() - 1);
                } else {
                    assert(children@.len() == 0);
                    assert(self@.tree =~= tree_before);
                }
            }
            let ghost tree_after = self@.tree;
            let ghost removed_before = removed@;
            let ghost queue_before = queue@;
            let mut i: usize = 0;
            while i < children.len()
                invariant
                    0 <= i <= children@.len(),
                    removed@ == removed_before + children@.take(i as int),
                    queue@ == queue_before + children@.take(i as int),
                decreases children@.len() - i,
            {
                removed.push(children[i]);
                queue.push_back(children[i]);
                proof {
                    assert(children@.take(i + 1) =~= children@.take(i as int).push(children@[i as int]));
                    assert(removed@ =~= removed_before + children@.take(i + 1));
                    assert(queue@ =~= queue_before + children@.take(i + 1));
                }
                i = i + 1;
            }
            proof {
                assert(children@.take(children@.len() as int) =~= children@);
            }
            self.parents.remove(&next);
            proof {
                let old_popped = popped;
                popped = popped + 1;
                assert(removed@.take(popped).to_set() =~= done_before.insert(next)) by {
                    assert(removed@.take(popped) =~= removed_before.take(old_popped).push(next));
                    removed_before.take(old_popped).lemma_push_to_set_commute(next);
                }
                assert(self@.tree == tree_after);
                assert(self@.tree =~= t0.remove_keys(removed@.take(popped).to_set()));
                if was_present {
                    assert(self@.tree.dom().len() < tree_before.dom().len());
                } else {
                    assert(self@.tree.dom().len() == tree_before.dom().len());
                    assert(queue@.len() < queue_len_before);
                }
                assert(self@.parents =~= p0.remove_keys(removed@.take(popped).to_set()));
                assert(queue@ =~= removed@.subrange(popped, removed@.len() as int));
                assert(q_start[0] == next);
                assert(queue_before =~= q_start.skip(1));
                if was_present {
                    assert(tree_before[next] == children@);
                    assert(bfs_removal(tree_before, q_start) == children@ + bfs_removal(
                        tree_after,
                        queue@,
                    ));
                    assert(removed@ + bfs_removal(self@.tree, queue@) =~= removed_before + (children@
                        + bfs_removal(tree_after, queue@)));
                } else {
                    assert(bfs_removal(tree_before, q_start) == bfs_removal(tree_before, queue@));
                    assert(removed@ =~= removed_before);
                }
                if good {
                    assert(removed@.take(old_popped) =~= removed_before.take(old_popped));
                    assert(removed@.take(popped).contains(next)) by {
                        assert(removed@.take(popped)[old_popped] == next);
                    }
                    assert forall|k: int| 1 <= k < removed@.len() implies p0.contains_key(
                        #[trigger] removed@[k],
                    ) && removed@.take(popped).contains(p0[removed@[k]]) by {
                        if k < removed_before.len() {
                            assert(removed@[k] == removed_before[k]);
                            let m = choose|m: int|
                                0 <= m < old_popped && removed_before.take(old_popped)[m]
                                    == p0[removed_before[k]];
                            assert(removed@.take(popped)[m] == p0[removed@[k]]);
                        } else {
                            let c = children@[k - removed_before.len()];
                            assert(removed@[k] == c);
                            assert(t0[next].contains(c));
                        }
                    }
                    assert forall|a: int, b: int|
                        0 <= a < removed@.skip(1).len() && 0 <= b < removed@.skip(1).len() && a
                            != b implies removed@.skip(1)[a] != removed@.skip(1)[b] by {
                        let ka = a + 1;
                        let kb = b + 1;
                        if ka < removed_before.len() && kb < removed_before.len() {
                            assert(removed_before.skip(1)[a] == removed@.skip(1)[a]);
                            assert(removed_before.skip(1)[b] == removed@.skip(1)[b]);
                        } else if ka >= removed_before.len() && kb >= removed_before.len() {
                            assert(t0[next].no_duplicates());
                            assert(removed@[ka] == children@[ka - removed_before.len()]);
                            assert(removed@[kb] == children@[kb - removed_before.len()]);
                        } else {
                            let (old_k, new_k) = if ka < removed_before.len() {
                                (ka, kb)
                            } else {
                                (kb, ka)
                            };
                            let c = children@[new_k - removed_before.len()];
                            assert(removed@[new_k] == c);
                            assert(t0[next].contains(c));
                            assert(p0[c] == next);
                            let y = removed_before[old_k];
                            assert(removed@[old_k] == y);
                            let m = choose|m: int|
                                0 <= m < old_popped && removed_before.take(old_popped)[m] == p0[y];
                            if y == c {
                                assert(removed_before[m] == next);
                                assert(done_before.contains(next));
                            }
                        }
                    }
                }
                assert forall|j: int, c: EntityId|
                    0 <= j < popped && t0.contains_key(#[trigger] removed@[j])
                        && #[trigger] t0[removed@[j]].contains(c) implies removed@.contains(c) by {
                    if j < old_popped {
                        assert(removed_before[j] == removed@[j]);
                        assert(removed_before.contains(c));
                        let k = choose|k: int| 0 <= k < removed_before.len() && removed_before[k] == c;
                        assert(removed@[k] == c);
                    } else {
                        assert(removed@[j] == next);
                        if was_present {
                            let k = choose|k: int| 0 <= k < children@.len() && children@[k] == c;
                            assert(removed@[removed_before.len() + k] == c);
                        } else {
                            assert(done_before.contains(next));
                            let k = choose|k: int| 0 <= k < old_popped && removed_before.take(old_popped)[k] == next;
                            assert(removed_before[k] == next);
                            assert(removed_before.contains(c));
                            let m = choose|m: int| 0 <= m < removed_before.len() && removed_before[m] == c;
                            assert(removed@[m] == c);
                        }
                    }
                }
                assert forall|i: int| 0 < i < removed@.len() implies #[trigger] child_of_earlier(
                    t0,
                    removed@,
                    i,
                ) by {
                    if i < removed_before.len() {
                        assert(removed_before[i] == removed@[i]);
                        assert(child_of_earlier(t0, removed_before, i));
                        let j = choose|j: int|
                            0 <= j < i && t0.contains_key(removed_before[j])
                                && t0[removed_before[j]].contains(removed_before[i]);
                        assert(removed@[j] == removed_before[j]);
                    } else {
                        let k = i - removed_before.len();
                        assert(removed@[i] == children@[k]);
                        assert(was_present);
                        assert(removed@[old_popped] == next);
                        assert(t0[next].contains(children@[k]));
                    }
                }
            }
        }
        proof {
            assert(removed@.take(popped) =~= removed@);
        }
        removed
    }

    /// The ancestors of `entity`, nearest first: its parent, that one's
    /// parent, and so on, up to (not including) the root or up to an entity
    /// with no parent.
    pub fn ancestors(&self, entity: &EntityId) -> (r: Vec<EntityId>)
        requires
            exists|n: nat| climb_stops(self@, *entity, n),
        ensures
            forall|n: nat| #[trigger] climb_stops(self@, *entity, n) ==> r@ == climb(self@, *entity, n),
    {
        let ghost v = self@;
        let ghost n0: nat = choose|n: nat| climb_stops(self@, *entity, n);
        let mut r: Vec<EntityId> = Vec::new();
        let mut current = *entity;
        let ghost mut left: nat = n0;
        loop
            invariant
                v == self@,
                climb_stops(v, current, left),
                r@ + climb(v, current, left) == climb(v, *entity, n0),
            ensures
                r@ == climb(v, *entity, n0),
            decreases left,
        {
            match self.parents.get(&current) {
                Some(parent) => {
                    if *parent == self.root {
                        assert(climb(v, current, left) =~= Seq::<EntityId>::empty());
                        assert(r@ =~= climb(v, *entity, n0));
                        break;
                    }
                    let parent = *parent;
                    proof {
                        assert(climb(v, current, left) =~= seq![parent] + climb(
                            v,
                            parent,
                            (left - 1) as nat,
                        ));
                        assert(r@.push(parent) + climb(v, parent, (left - 1) as nat) =~= r@ + climb(
                            v,
                            current,
                            left,
                        ));
                        left = (left - 1) as nat;
                    }
                    r.push(parent);
                    current = parent;
                },
                None => {
                    assert(climb(v, current, left) =~= Seq::<EntityId>::empty());
                    assert(r@ =~= climb(v, *entity, n0));
                    break;
                },
            }
        }
        proof {
            assert forall|n: nat| #[trigger] climb_stops(v, *entity, n) implies r@ == climb(
                v,
                *entity,
                n,
            ) by {
                if n <= n0 {
                    lemma_climb_settles(v, *entity, n, n0);
                } else {
                    lemma_climb_settles(v, *entity, n0, n);
                }
            }
        }
        r
    }

    /// The parent of `entity`.
    pub fn get_parent(&self, entity: &EntityId) -> (r: Option<&EntityId>)
        ensures
            match r {
                Some(p) => self@.parents.contains_key(*entity) && *p == self@.parents[*entity],
                None => !self@.parents.contains_key(*entity),
            },
    {
        self.parents.get(entity)
    }

    /// The children of `entity`, in order.
    pub fn get_children(&self, entity: &EntityId) -> (r: Option<&Vec<EntityId>>)
        ensures
            match r {
                Some(c) => self@.tree.contains_key(*entity) && c@ == self@.tree[*entity],
                None => !self@.tree.contains_key(*entity),
            },
    {
        self.tree.get(entity)
    }

    /// The root entity.
    pub fn root(&self) -> (r: &EntityId)
        ensures
            *r == self@.root,
    {
        &self.root
    }
}

/// The links of a scene graph agree: every entity with a parent has a children
/// list and the other way round; the root is its own parent; every other
/// entity is among the children of its parent; and every child names its
/// list's owner as parent and is not the root.
pub open spec fn graph_wf(v: SceneGraphView) -> bool {
    &&& v.tree.dom() == v.parents.dom()
    &&& v.tree.contains_key(v.root)
    &&& v.parents[v.root] == v.root
    &&& forall|e: EntityId|
        #[trigger] v.parents.contains_key(e) && e != v.root ==> v.tree.contains_key(v.parents[e])
            && v.tree[v.parents[e]].contains(e)
    &&& forall|p: EntityId, c: EntityId|
        #![trigger v.tree[p].contains(c)]
        v.tree.contains_key(p) && v.tree[p].contains(c) ==> v.parents.contains_key(c)
            && v.parents[c] == p && c != v.root
}

/// An entity is among the children of `s` without `x` exactly when it is among
/// those of `s` and is not `x`.
pub proof fn lemma_without_entity_contains(s: Seq<EntityId>, x: EntityId, c: EntityId)
    ensures
        without_entity(s, x).contains(c) <==> (s.contains(c) && c != x),
{
    let f = other_than(x);
    if without_entity(s, x).contains(c) {
        s.lemma_filter_contains_rev(f, c);
        let i = choose|i: int| 0 <= i < s.filter(f).len() && s.filter(f)[i] == c;
        s.lemma_filter_pred(f, i);
    }
    if s.contains(c) && c != x {
        let i = choose|i: int| 0 <= i < s.len() && s[i] == c;
        s.lemma_filter_contains(f, i);
    }
}

/// A new scene graph is well formed.
pub proof fn law_new_graph_wf(root: EntityId)
    ensures
        graph_wf(
            SceneGraphView {
                root,
                tree: Map::<EntityId, Seq<EntityId>>::empty().insert(root, Seq::empty()),
                parents: Map::<EntityId, EntityId>::empty().insert(root, root),
            },
        ),
{
    let v = SceneGraphView {
        root,
        tree: Map::<EntityId, Seq<EntityId>>::empty().insert(root, Seq::empty()),
        parents: Map::<EntityId, EntityId>::empty().insert(root, root),
    };
    assert(v.tree.dom() =~= v.parents.dom());
}

/// Adding a new entity under an entity of a well-formed graph keeps it well
/// formed: the new entity's parent is `parent`, and it is the last of
/// `parent`'s children.
pub proof fn law_add_entity_keeps_graph_wf(v: SceneGraphView, parent: EntityId, entity: EntityId)
    requires
        graph_wf(v),
        v.tree.contains_key(parent),
        !v.tree.contains_key(entity),
    ensures
        graph_wf(graph_after_add(v, parent, entity)),
        graph_after_add(v, parent, entity).parents[entity] == parent,
        graph_after_add(v, parent, entity).tree[parent].last() == entity,
{
    let w = graph_after_add(v, parent, entity);
    assert(w.tree.dom() =~= w.parents.dom());
    assert forall|e: EntityId| #[trigger] w.parents.contains_key(e) && e != w.root implies w.tree.contains_key(
        w.parents[e],
    ) && w.tree[w.parents[e]].contains(e) by {
        if e != entity {
            let q = v.parents[e];
            assert(v.tree[q].contains(e));
            if q == parent {
                let i = choose|i: int| 0 <= i < v.tree[q].len() && v.tree[q][i] == e;
                assert(w.tree[q][i] == e);
            }
        } else {
            assert(w.tree[parent][v.tree[parent].len() as int] == entity);
        }
    }
    assert forall|p: EntityId, c: EntityId|
        #![trigger w.tree[p].contains(c)]
        w.tree.contains_key(p) && w.tree[p].contains(c) implies w.parents.contains_key(c)
            && w.parents[c] == p && c != w.root by {
        if p == entity {
            assert(w.tree[p] =~= Seq::<EntityId>::empty());
        } else if p == parent {
            let i = choose|i: int| 0 <= i < w.tree[p].len() && w.tree[p][i] == c;
            if i < v.tree[p].len() {
                assert(v.tree[p][i] == c);
                assert(v.tree[p].contains(c));
            }
        } else {
            assert(v.tree[p].contains(c));
        }
    }
}

/// Moving an entity (other than the root) of a well-formed graph under an
/// entity of the graph keeps it well formed: its parent is `new_parent`, and
/// it is the last of `new_parent`'s children.
pub proof fn law_reparent_keeps_graph_wf(v: SceneGraphView, new_parent: EntityId, entity: EntityId)
    requires
        graph_wf(v),
        v.parents.contains_key(entity),
        entity != v.root,
        v.tree.contains_key(new_parent),
    ensures
        graph_wf(graph_after_reparent(v, new_parent, entity)),
        graph_after_reparent(v, new_parent, entity).parents[entity] == new_parent,
        graph_after_reparent(v, new_parent, entity).tree[new_parent].last() == entity,
{
    let w = graph_after_reparent(v, new_parent, entity);
    let t1 = tree_without_child(v, entity);
    let op = v.parents[entity];
    assert(t1.dom() =~= v.tree.dom());
    assert(w.tree.dom() =~= w.parents.dom());
    // Membership in the lists of `t1`: the old lists, without `entity` in its old parent's.
    assert forall|q: EntityId, c: EntityId| #[trigger] t1[q].contains(c) && t1.contains_key(q) <==> (
    v.tree.contains_key(q) && v.tree[q].contains(c) && c != entity) by {
        if v.tree.contains_key(q) {
            if q == op {
                lemma_without_entity_contains(v.tree[q], entity, c);
            } else if v.tree[q].contains(c) && c == entity {
                assert(v.parents[c] == q);
            }
        }
    }
    assert forall|e: EntityId| #[trigger] w.parents.contains_key(e) && e != w.root implies w.tree.contains_key(
        w.parents[e],
    ) && w.tree[w.parents[e]].contains(e) by {
        if e == entity {
            assert(w.tree[new_parent][t1[new_parent].len() as int] == entity);
        } else {
            let q = v.parents[e];
            assert(v.tree[q].contains(e));
            assert(t1[q].contains(e));
            if q == new_parent {
                let i = choose|i: int| 0 <= i < t1[q].len() && t1[q][i] == e;
                assert(w.tree[q][i] == e);
            }
        }
    }
    assert forall|p: EntityId, c: EntityId|
        #![trigger w.tree[p].contains(c)]
        w.tree.contains_key(p) && w.tree[p].contains(c) implies w.parents.contains_key(c)
            && w.parents[c] == p && c != w.root by {
        if p == new_parent {
            let i = choose|i: int| 0 <= i < w.tree[p].len() && w.tree[p][i] == c;
            if i < t1[p].len() {
                assert(t1[p][i] == c);
                assert(t1[p].contains(c));
            }
        } else {
            assert(t1[p].contains(c));
        }
    }
}

/// Removing an entity (other than the root, and not its own parent) from a
/// well-formed graph keeps it well formed: the entity is gone, and its
/// children now hang under its parent.
pub proof fn law_remove_entity_keeps_graph_wf(v: SceneGraphView, entity: EntityId)
    requires
        graph_wf(v),
        v.tree.contains_key(entity),
        entity != v.root,
        v.parents[entity] != entity,
    ensures
        graph_wf(graph_after_remove(v, entity)),
        !graph_after_remove(v, entity).tree.contains_key(entity),
        forall|c: EntityId|
            #[trigger] v.tree[entity].contains(c) ==> graph_after_remove(v, entity).parents[c]
                == v.parents[entity],
{
    let w = graph_after_remove(v, entity);
    let p = v.parents[entity];
    let children = v.tree[entity];
    let t1 = v.tree.remove(entity);
    assert(t1.contains_key(p));
    let kept = without_entity(t1[p], entity);
    assert forall|c: EntityId| #[trigger] kept.contains(c) <==> (v.tree[p].contains(c) && c != entity) by {
        lemma_without_entity_contains(t1[p], entity, c);
    }
    assert forall|c: EntityId| #[trigger] (kept + children).contains(c) <==> (kept.contains(c)
        || children.contains(c)) by {
        if (kept + children).contains(c) {
            let i = choose|i: int| 0 <= i < (kept + children).len() && (kept + children)[i] == c;
            if i >= kept.len() {
                assert(children[i - kept.len()] == c);
            }
        }
        if kept.contains(c) {
            let i = choose|i: int| 0 <= i < kept.len() && kept[i] == c;
            assert((kept + children)[i] == c);
        }
        if children.contains(c) {
            let i = choose|i: int| 0 <= i < children.len() && children[i] == c;
            assert((kept + children)[kept.len() + i] == c);
        }
    }
    assert forall|c: EntityId| children.contains(c) implies v.parents.contains_key(c) && v.parents[c]
        == entity && c != v.root && c != entity by {
        assert(v.tree[entity].contains(c));
    }
    assert(w.tree.dom() =~= w.parents.dom());
    assert forall|e: EntityId| #[trigger] w.parents.contains_key(e) && e != w.root implies w.tree.contains_key(
        w.parents[e],
    ) && w.tree[w.parents[e]].contains(e) by {
        if children.contains(e) {
            assert((kept + children).contains(e));
        } else {
            let q = v.parents[e];
            assert(v.tree[q].contains(e));
            if q == entity {
                assert(children.contains(e));
            }
            if q == p {
                assert(kept.contains(e));
                assert((kept + children).contains(e));
            }
        }
    }
    assert forall|y: EntityId, c: EntityId|
        #![trigger w.tree[y].contains(c)]
        w.tree.contains_key(y) && w.tree[y].contains(c) implies w.parents.contains_key(c)
            && w.parents[c] == y && c != w.root by {
        if y == p {
            if kept.contains(c) {
                assert(v.tree[p].contains(c));
                if children.contains(c) {
                    assert(v.parents[c] == entity);
                }
            }
        } else {
            assert(v.tree[y].contains(c));
            if children.contains(c) {
                assert(v.parents[c] == entity);
            }
            if c == entity {
                assert(v.parents[entity] == y);
            }
        }
    }
}

/// No children list of `v` names an entity twice.
pub open spec fn children_unique(v: SceneGraphView) -> bool {
    forall|p: EntityId| #[trigger] v.tree.contains_key(p) ==> v.tree[p].no_duplicates()
}

/// Every entity other than the root that has a parent is listed exactly once
/// among all the children lists: once in its parent's list, and in no other.
pub open spec fn listed_exactly_once(v: SceneGraphView) -> bool {
    forall|y: EntityId|
        #[trigger] v.parents.contains_key(y) && y != v.root ==> {
            let q = v.parents[y];
            &&& v.tree.contains_key(q)
            &&& v.tree[q].contains(y)
            &&& forall|i: int, j: int|
                0 <= i < v.tree[q].len() && 0 <= j < v.tree[q].len() && #[trigger] v.tree[q][i] == y
                    && #[trigger] v.tree[q][j] == y ==> i == j
            &&& forall|p: EntityId|
                #![trigger v.tree[p].contains(y)]
                v.tree.contains_key(p) && p != q ==> !v.tree[p].contains(y)
        }
}

/// A list without duplicates keeps none when an entity it lacks is pushed.
proof fn lemma_push_unique(s: Seq<EntityId>, e: EntityId)
    requires
        s.no_duplicates(),
        !s.contains(e),
    ensures
        s.push(e).no_duplicates(),
{
    let t = s.push(e);
    assert forall|i: int, j: int| 0 <= i < t.len() && 0 <= j < t.len() && i != j implies t[i] != t[j] by {
        if i == s.len() {
            assert(t[j] == s[j]);
        } else if j == s.len() {
            assert(t[i] == s[i]);
        } else {
            assert(t[i] == s[i] && t[j] == s[j]);
        }
    }
}

/// Leaving an entity out of a list without duplicates leaves none.
proof fn lemma_without_entity_unique(s: Seq<EntityId>, x: EntityId)
    requires
        s.no_duplicates(),
    ensures
        without_entity(s, x).no_duplicates(),
    decreases s.len(),
{
    if s.len() > 0 {
        let init = s.drop_last();
        let e = s.last();
        assert(init.push(e) =~= s);
        assert(init.no_duplicates());
        lemma_without_entity_unique(init, x);
        init.lemma_filter_push(e, other_than(x));
        if e != x {
            if init.contains(e) {
                let k = choose|k: int| 0 <= k < init.len() && init[k] == e;
                assert(s[k] == s[s.len() - 1]);
            }
            lemma_without_entity_contains(init, x, e);
            lemma_push_unique(without_entity(init, x), e);
        }
    }
}

/// In a well-formed graph whose children lists have no duplicates, every
/// entity other than the root that has a parent is listed exactly once.
pub proof fn law_unique_lists_list_each_entity_once(v: SceneGraphView)
    requires
        graph_wf(v),
        children_unique(v),
    ensures
        listed_exactly_once(v),
{
    assert forall|y: EntityId| #[trigger] v.parents.contains_key(y) && y != v.root implies {
        let q = v.parents[y];
        &&& v.tree.contains_key(q)
        &&& v.tree[q].contains(y)
        &&& forall|i: int, j: int|
            0 <= i < v.tree[q].len() && 0 <= j < v.tree[q].len() && #[trigger] v.tree[q][i] == y
                && #[trigger] v.tree[q][j] == y ==> i == j
        &&& forall|p: EntityId|
            #![trigger v.tree[p].contains(y)]
            v.tree.contains_key(p) && p != q ==> !v.tree[p].contains(y)
    } by {
        let q = v.parents[y];
        assert(v.tree[q].no_duplicates());
    }
}

/// A new scene graph lists no child twice.
pub proof fn law_new_graph_children_unique(root: EntityId)
    ensures
        children_unique(
            SceneGraphView {
                root,
                tree: Map::<EntityId, Seq<EntityId>>::empty().insert(root, Seq::empty()),
                parents: Map::<EntityId, EntityId>::empty().insert(root, root),
            },
        ),
{
}

/// Adding a new entity under an entity of a well-formed graph whose lists have
/// no duplicates keeps every entity other than the root listed exactly once.
pub proof fn law_add_entity_keeps_children_unique(v: SceneGraphView, parent: EntityId, entity: EntityId)
    requires
        graph_wf(v),
        children_unique(v),
        v.tree.contains_key(parent),
        !v.tree.contains_key(entity),
    ensures
        children_unique(graph_after_add(v, parent, entity)),
        listed_exactly_once(graph_after_add(v, parent, entity)),
{
    let w = graph_after_add(v, parent, entity);
    if v.tree[parent].contains(entity) {
        assert(v.parents.contains_key(entity));
    }
    lemma_push_unique(v.tree[parent], entity);
    assert forall|p: EntityId| #[trigger] w.tree.contains_key(p) implies w.tree[p].no_duplicates() by {
        if p != entity && p != parent {
            assert(v.tree[p].no_duplicates());
        }
    }
    law_add_entity_keeps_graph_wf(v, parent, entity);
    law_unique_lists_list_each_entity_once(w);
}

/// Moving an entity (other than the root) of a well-formed graph whose lists
/// have no duplicates under an entity of the graph keeps every entity other
/// than the root listed exactly once: the moved entity is the last child of
/// `new_parent` and is gone from its old parent's list (when that is another
/// entity), and every other entity keeps its parent.
pub proof fn law_reparent_keeps_children_unique(v: SceneGraphView, new_parent: EntityId, entity: EntityId)
    requires
        graph_wf(v),
        children_unique(v),
        v.parents.contains_key(entity),
        entity != v.root,
        v.tree.contains_key(new_parent),
    ensures
        ({
            let w = graph_after_reparent(v, new_parent, entity);
            &&& children_unique(w)
            &&& listed_exactly_once(w)
            &&& w.parents[entity] == new_parent
            &&& w.tree[new_parent].last() == entity
            &&& v.parents[entity] != new_parent ==> !w.tree[v.parents[entity]].contains(entity)
            &&& forall|y: EntityId| #[trigger] v.parents.contains_key(y) && y != entity ==> w.parents[y] == v.parents[y]
        }),
{
    let w = graph_after_reparent(v, new_parent, entity);
    let t1 = tree_without_child(v, entity);
    let op = v.parents[entity];
    assert(t1.dom() =~= v.tree.dom());
    assert forall|q: EntityId| #[trigger] t1.contains_key(q) implies t1[q].no_duplicates() && !t1[q].contains(entity) by {
        assert(v.tree[q].no_duplicates());
        if q == op {
            lemma_without_entity_unique(v.tree[q], entity);
            lemma_without_entity_contains(v.tree[q], entity, entity);
        } else if v.tree[q].contains(entity) {
            assert(v.parents[entity] == q);
        }
    }
    lemma_push_unique(
        if t1.contains_key(new_parent) {
            t1[new_parent]
        } else {
            Seq::empty()
        },
        entity,
    );
    assert forall|p: EntityId| #[trigger] w.tree.contains_key(p) implies w.tree[p].no_duplicates() by {
        if p != new_parent {
            assert(t1.contains_key(p));
        }
    }
    law_reparent_keeps_graph_wf(v, new_parent, entity);
    law_unique_lists_list_each_entity_once(w);
    if op != new_parent {
        assert(t1.contains_key(op));
        assert(w.tree[op] == t1[op]);
    }
}

/// Removing an entity (other than the root, and not its own parent) from a
/// well-formed graph whose lists have no duplicates keeps every entity other
/// than the root listed exactly once. The entity has neither parent nor
/// children list afterwards, its children have its parent as theirs, and the
/// parent's list is its old list without the entity, followed by the
/// entity's children in order.
pub proof fn law_remove_entity_keeps_children_unique(v: SceneGraphView, entity: EntityId)
    requires
        graph_wf(v),
        children_unique(v),
        v.tree.contains_key(entity),
        entity != v.root,
        v.parents[entity] != entity,
    ensures
        ({
            let w = graph_after_remove(v, entity);
            let p = v.parents[entity];
            &&& children_unique(w)
            &&& listed_exactly_once(w)
            &&& !w.parents.contains_key(entity)
            &&& !w.tree.contains_key(entity)
            &&& forall|c: EntityId| #[trigger] v.tree[entity].contains(c) ==> w.parents[c] == p
            &&& w.tree[p] == without_entity(v.tree[p], entity) + v.tree[entity]
        }),
{
    let w = graph_after_remove(v, entity);
    let p = v.parents[entity];
    let children = v.tree[entity];
    let t1 = v.tree.remove(entity);
    assert(t1.contains_key(p));
    let kept = without_entity(t1[p], entity);
    assert(v.tree[p].no_duplicates());
    assert(children.no_duplicates());
    lemma_without_entity_unique(v.tree[p], entity);
    assert forall|i: int, j: int| 0 <= i < kept.len() && 0 <= j < children.len() implies kept[i] != children[j] by {
        assert(kept.contains(kept[i]));
        lemma_without_entity_contains(v.tree[p], entity, kept[i]);
        assert(v.tree[p].contains(kept[i]));
        assert(v.tree[entity].contains(children[j]));
    }
    vstd::seq_lib::lemma_no_dup_in_concat(kept, children);
    assert forall|q: EntityId| #[trigger] w.tree.contains_key(q) implies w.tree[q].no_duplicates() by {
        if q != p {
            assert(v.tree[q].no_duplicates());
        }
    }
    law_remove_entity_keeps_graph_wf(v, entity);
    law_unique_lists_list_each_entity_once(w);
}

/// After a container is added to the mapping, each of the container and its
/// entity leads to the other; after it is removed, the container leads nowhere.
pub proof fn law_mapping_read_after_write(m: ContainerMappingView, id: ContainerId, entity: EntityId)
    ensures
        m.container_to_entity.insert(id.0, entity)[id.0] == entity,
        m.entity_to_container.insert(entity, id)[entity] == id,
        !m.container_to_entity.remove(id.0).contains_key(id.0),
{
}

/// A library gives back the shape or texture added under an id, and no longer
/// holds it once it is removed.
pub proof fn law_library_read_after_write<S, P>(v: LibraryView<S, P>, id: LibraryId, shape: S, texture: P)
    ensures
        v.shapes.insert(id.0, shape)[id.0] == shape,
        v.textures.insert(id.0, texture)[id.0] == texture,
        !v.shapes.remove(id.0).contains_key(id.0),
        !v.textures.remove(id.0).contains_key(id.0),
{
}

/// Definitions leave a queue in the order they entered it: after `d` is put
/// at the back, the front is the old front (or `d` when the queue was empty),
/// and what remains keeps `d` last.
pub proof fn law_queue_first_in_first_out<D>(q: Seq<D>, d: D)
    ensures
        q.len() == 0 ==> q.push(d)[0] == d && q.push(d).subrange(1, 1) == Seq::<D>::empty(),
        q.len() > 0 ==> q.push(d)[0] == q[0] && q.push(d).subrange(1, q.len() + 1int) == q.subrange(
            1,
            q.len() as int,
        ).push(d),
{
    if q.len() > 0 {
        assert(q.push(d).subrange(1, q.len() + 1int) =~= q.subrange(1, q.len() as int).push(d));
    } else {
        assert(q.push(d).subrange(1, 1) =~= Seq::<D>::empty());
    }
}

/// In a well-formed graph the root has no ancestors, and an entity whose
/// parent is the root has none either.
pub proof fn law_root_has_no_ancestors(v: SceneGraphView, e: EntityId, n: nat)
    requires
        graph_wf(v),
        v.parents.contains_key(e),
        v.parents[e] == v.root,
    ensures
        climb_stops(v, v.root, 0),
        climb(v, v.root, n) == Seq::<EntityId>::empty(),
        climb_stops(v, e, 0),
        climb(v, e, n) == Seq::<EntityId>::empty(),
{
}

} // verus!
