//! Removing containers from the engine: the container mapping and the scene
//! graph forget them, and the entities that stood for them are handed back
//! so that the world and the quad trees can drop them too. And the order in
//! which the engine draws the containers that display something.

use vstd::prelude::*;
use std::collections::{HashMap, VecDeque};
use crate::ids::{ContainerId, EntityId};
use crate::resources::{
    ContainerMapping, ContainerMappingView, SceneGraph, SceneGraphView, graph_after_remove,
    child_of_earlier, bfs_removal, graph_wf, children_unique,
};

verus! {

/// The mapping `m` after forgetting, in order, each of the entities `es` and
/// the containers they stand for.
pub open spec fn mapping_without_entities(m: ContainerMappingView, es: Seq<EntityId>) -> ContainerMappingView
    decreases es.len(),
{
    if es.len() == 0 {
        m
    } else {
        let before = mapping_without_entities(m, es.drop_last());
        let e = es.last();
        ContainerMappingView {
            entity_to_container: before.entity_to_container.remove(e),
            container_to_entity: if before.entity_to_container.contains_key(e) {
                before.container_to_entity.remove(before.entity_to_container[e].0)
            } else {
                before.container_to_entity
            },
        }
    }
}

/// Removes the container `container_id`: the mapping forgets it and the scene
/// graph removes its entity, whose children move up to its parent. Returns
/// that entity, for the world and the quad trees to drop; `None`, with
/// nothing changed, when no such container exists.
pub fn remove_container(
    mapping: &mut ContainerMapping,
    scene_graph: &mut SceneGraph,
    container_id: &ContainerId,
) -> (r: Option<EntityId>)
    requires
        old(mapping)@.container_to_entity.contains_key(container_id.0) ==> {
            let e = old(mapping)@.container_to_entity[container_id.0];
            old(scene_graph)@.tree.contains_key(e) ==> old(scene_graph)@.parents.contains_key(e)
        },
    ensures
        !old(mapping)@.container_to_entity.contains_key(container_id.0) ==> {
            &&& r is None
            &&& final(mapping)@ == old(mapping)@
            &&& final(scene_graph)@ == old(scene_graph)@
        },
        old(mapping)@.container_to_entity.contains_key(container_id.0) ==> {
            let e = old(mapping)@.container_to_entity[container_id.0];
            &&& r == Some(e)
            &&& final(mapping)@.container_to_entity == old(mapping)@.container_to_entity.remove(
                container_id.0,
            )
            &&& final(mapping)@.entity_to_container == old(mapping)@.entity_to_container.remove(e)
            &&& final(scene_graph)@ == graph_after_remove(old(scene_graph)@, e)
        },
{
    let entity = match mapping.get_entity(container_id) {
        Some(e) => *e,
        None => return None,
    };
    mapping.remove_container(container_id);
    scene_graph.remove_entity(&entity);
    Some(entity)
}

/// Removes the container `container_id` and, breadth first, every container
/// below it: the scene graph removes their entities and the mapping forgets
/// each of them. Returns the removed entities, the container's own first, for
/// the world and the quad trees to drop, in the order of removal
/// (`bfs_removal`); none when no such container exists.
/// The parent keeps the removed entity among its children, as the scene
/// graph's removal leaves it.
pub fn remove_container_and_children(
    mapping: &mut ContainerMapping,
    scene_graph: &mut SceneGraph,
    container_id: &ContainerId,
) -> (removed: Vec<EntityId>)
    ensures
        !old(mapping)@.container_to_entity.contains_key(container_id.0) ==> {
            &&& removed@.len() == 0
            &&& final(mapping)@ == old(mapping)@
            &&& final(scene_graph)@ == old(scene_graph)@
        },
        old(mapping)@.container_to_entity.contains_key(container_id.0) ==> {
            let e = old(mapping)@.container_to_entity[container_id.0];
            let t0 = old(scene_graph)@.tree;
            &&& removed@ == seq![e] + bfs_removal(t0, seq![e])
            &&& graph_wf(old(scene_graph)@) && children_unique(old(scene_graph)@)
                ==> removed@.skip(1).no_duplicates()
            &&& removed@.len() >= 1
            &&& removed@[0] == e
            &&& final(scene_graph)@.root == old(scene_graph)@.root
            &&& final(scene_graph)@.tree == t0.remove_keys(removed@.to_set())
            &&& final(scene_graph)@.parents == old(scene_graph)@.parents.remove_keys(
                removed@.to_set(),
            )
            &&& forall|i: int, c: EntityId|
                0 <= i < removed@.len() && t0.contains_key(#[trigger] removed@[i])
                    && #[trigger] t0[removed@[i]].contains(c) ==> removed@.contains(c)
            &&& forall|i: int| 0 < i < removed@.len() ==> #[trigger] child_of_earlier(t0, removed@, i)
            &&& final(mapping)@ == mapping_without_entities(old(mapping)@, removed@)
        },
{
    let entity = match mapping.get_entity(container_id) {
        Some(e) => *e,
        None => return Vec::new(),
    };
    let removed = scene_graph.remove_entity_and_children(&entity);
    let mut i: usize = 0;
    while i < removed.len()
        invariant
            0 <= i <= removed@.len(),
            mapping@ == mapping_without_entities(old(mapping)@, removed@.take(i as int)),
        decreases removed@.len() - i,
    {
        proof {
            assert(removed@.take(i + 1).drop_last() =~= removed@.take(i as int));
        }
        mapping.remove_entity(&removed[i]);
        i = i + 1;
    }
    assert(removed@.take(removed@.len() as int) =~= removed@);
    removed
}

broadcast use vstd::std_specs::hash::group_hash_axioms;

/// The key by which a child is placed among its siblings for drawing: its
/// drawing order while it is still to be drawn (`pending`), 0 otherwise.
pub open spec fn sort_key(pending: Map<EntityId, i8>, c: EntityId) -> i8 {
    if pending.contains_key(c) {
        pending[c]
    } else {
        0
    }
}

/// The test that an entity has the sort key `k`.
pub open spec fn keyed(pending: Map<EntityId, i8>, k: int) -> spec_fn(EntityId) -> bool {
    |c: EntityId| sort_key(pending, c) == k
}

/// The entities of `s` whose key is below `hi`, ordered by key, those of one
/// key in their order in `s`.
pub open spec fn keyed_below(s: Seq<EntityId>, pending: Map<EntityId, i8>, hi: int) -> Seq<EntityId>
    decreases hi + 128,
{
    if hi <= -128 {
        Seq::empty()
    } else {
        keyed_below(s, pending, hi - 1) + s.filter(keyed(pending, hi - 1))
    }
}

/// `s` sorted by key, back to front; siblings of one key keep their order.
pub open spec fn sorted_by_key(s: Seq<EntityId>, pending: Map<EntityId, i8>) -> Seq<EntityId> {
    keyed_below(s, pending, 128)
}

/// The children `s` sorted by their keys, siblings of one key in their order.
fn sort_by_key(s: &Vec<EntityId>, pending: &HashMap<EntityId, i8>) -> (r: Vec<EntityId>)
    ensures
        r@ == sorted_by_key(s@, pending@),
{
    let mut r: Vec<EntityId> = Vec::new();
    let mut k: i16 = -128;
    while k < 128
        invariant
            -128 <= k <= 128,
            r@ == keyed_below(s@, pending@, k as int),
        decreases 128 - k,
    {
        let ghost before = r@;
        let mut i: usize = 0;
        while i < s.len()
            invariant
                0 <= i <= s@.len(),
                -128 <= k < 128,
                r@ == before + s@.take(i as int).filter(keyed(pending@, k as int)),
            decreases s@.len() - i,
        {
            let c = s[i];
            let key: i8 = match pending.get(&c) {
                Some(order) => *order,
                None => 0,
            };
            proof {
                assert(s@.take(i + 1) =~= s@.take(i as int).push(c));
                s@.take(i as int).lemma_filter_push(c, keyed(pending@, k as int));
            }
            if key as i16 == k {
                r.push(c);
            }
            assert(r@ =~= before + s@.take(i + 1).filter(keyed(pending@, k as int)));
            i = i + 1;
        }
        assert(s@.take(s@.len() as int) =~= s@);
        k = k + 1;
    }
    r
}

/// Drawing the children `kids` in order: each child still pending is drawn
/// and is then no longer pending. The drawn children, and what stays pending.
pub open spec fn emit(kids: Seq<EntityId>, pending: Map<EntityId, i8>) -> (Seq<EntityId>, Map<EntityId, i8>)
    decreases kids.len(),
{
    if kids.len() == 0 {
        (Seq::empty(), pending)
    } else {
        let c = kids[0];
        let rest = emit(kids.drop_first(), pending.remove(c));
        if pending.contains_key(c) {
            (seq![c] + rest.0, rest.1)
        } else {
            rest
        }
    }
}

/// The entities drawn, in order, by a breadth-first walk of the graph `v`
/// that has `queue` still to visit and `pending` still to draw, in at most
/// `fuel` visits: visiting an entity sorts its children by key, queues them
/// and draws those still pending.
pub open spec fn draw_from(v: SceneGraphView, queue: Seq<EntityId>, pending: Map<EntityId, i8>, fuel: nat) -> Seq<
    EntityId,
>
    decreases fuel,
{
    if fuel == 0 || queue.len() == 0 {
        Seq::empty()
    } else {
        let kids = sorted_by_key(v.tree[queue[0]], pending);
        let drawn = emit(kids, pending);
        drawn.0 + draw_from(v, queue.drop_first() + kids, drawn.1, (fuel - 1) as nat)
    }
}

/// The walk of `draw_from` empties its queue within `fuel` visits, and every
/// entity it visits has a children list.
pub open spec fn draw_ends(v: SceneGraphView, queue: Seq<EntityId>, pending: Map<EntityId, i8>, fuel: nat) -> bool
    decreases fuel,
{
    if queue.len() == 0 {
        true
    } else {
        &&& fuel > 0
        &&& v.tree.contains_key(queue[0])
        &&& draw_ends(
            v,
            queue.drop_first() + sorted_by_key(v.tree[queue[0]], pending),
            emit(sorted_by_key(v.tree[queue[0]], pending), pending).1,
            (fuel - 1) as nat,
        )
    }
}

/// Once the walk has ended, more visits draw nothing more.
pub proof fn lemma_draw_settles(
    v: SceneGraphView,
    queue: Seq<EntityId>,
    pending: Map<EntityId, i8>,
    n: nat,
    m: nat,
)
    requires
        draw_ends(v, queue, pending, n),
        n <= m,
    ensures
        draw_ends(v, queue, pending, m),
        draw_from(v, queue, pending, m) == draw_from(v, queue, pending, n),
    decreases n,
{
    if queue.len() > 0 {
        let kids = sorted_by_key(v.tree[queue[0]], pending);
        lemma_draw_settles(
            v,
            queue.drop_first() + kids,
            emit(kids, pending).1,
            (n - 1) as nat,
            (m - 1) as nat,
        );
    }
}

/// The order in which the engine draws: a breadth-first walk of the scene
/// graph from its root in which each entity's children are sorted by their
/// drawing order (back to front; siblings of one order keep theirs), and an
/// entity is drawn when the walk first meets it while it is `pending` (the
/// entities that display something, with their drawing orders). A child that
/// is not, or no longer, pending sorts as order 0.
pub fn draw_order(scene_graph: &SceneGraph, pending: HashMap<EntityId, i8>) -> (r: Vec<EntityId>)
    requires
        exists|n: nat| draw_ends(scene_graph@, seq![scene_graph@.root], pending@, n),
    ensures
        forall|n: nat|
            #[trigger] draw_ends(scene_graph@, seq![scene_graph@.root], pending@, n) ==> r@
                == draw_from(scene_graph@, seq![scene_graph@.root], pending@, n),
{
    let ghost v = scene_graph@;
    let ghost p0 = pending@;
    let ghost start = seq![v.root];
    let ghost n0: nat = choose|n: nat| draw_ends(v, start, p0, n);
    let mut pending = pending;
    let mut queue: VecDeque<EntityId> = VecDeque::new();
    queue.push_back(*scene_graph.root());
    assert(queue@ =~= start);
    let mut sorted: Vec<EntityId> = Vec::new();
    let ghost mut left: nat = n0;
    while queue.len() > 0
        invariant
            v == scene_graph@,
            draw_ends(v, queue@, pending@, left),
            sorted@ + draw_from(v, queue@, pending@, left) == draw_from(v, start, p0, n0),
        decreases left,
    {
        let ghost q = queue@;
        let ghost p = pending@;
        let next = queue.pop_front().unwrap();
        assert(next == q[0]);
        let children = scene_graph.get_children(&next).unwrap();
        let kids = sort_by_key(children, &pending);
        let ghost drawn = emit(kids@, p);
        let ghost before = sorted@;
        assert(kids@.skip(0) =~= kids@);
        let mut i: usize = 0;
        while i < kids.len()
            invariant
                0 <= i <= kids@.len(),
                queue@ == q.drop_first() + kids@.take(i as int),
                sorted@ + emit(kids@.skip(i as int), pending@).0 == before + drawn.0,
                emit(kids@.skip(i as int), pending@).1 == drawn.1,
            decreases kids@.len() - i,
        {
            let child = kids[i];
            proof {
                assert(kids@.skip(i as int).drop_first() =~= kids@.skip(i + 1));
                assert(kids@.skip(i as int)[0] == child);
                assert(kids@.take(i + 1) =~= kids@.take(i as int).push(child));
            }
            queue.push_back(child);
            let ghost was_pending = pending@.contains_key(child);
            let ghost p_before = pending@;
            let removed = pending.remove(&child);
            assert(pending@ == p_before.remove(child));
            if removed.is_some() {
                assert(was_pending);
                sorted.push(child);
                assert(sorted@ + emit(kids@.skip(i + 1), pending@).0 =~= before + drawn.0) by {
                    assert(emit(kids@.skip(i as int), p_before).0 =~= seq![child] + emit(
                        kids@.skip(i + 1),
                        pending@,
                    ).0);
                }
            } else {
                assert(!was_pending);
            }
            i = i + 1;
        }
        proof {
            assert(kids@.take(kids@.len() as int) =~= kids@);
            assert(kids@.skip(kids@.len() as int) =~= Seq::<EntityId>::empty());
            assert(sorted@ =~= before + drawn.0);
            left = (left - 1) as nat;
            assert(sorted@ + draw_from(v, queue@, pending@, left) =~= before + draw_from(
                v,
                q,
                p,
                left + 1,
            ));
        }
    }
    proof {
        assert(draw_from(v, queue@, pending@, left) =~= Seq::<EntityId>::empty());
        assert(sorted@ =~= draw_from(v, start, p0, n0));
        assert forall|n: nat| #[trigger] draw_ends(v, start, p0, n) implies sorted@ == draw_from(
            v,
            start,
            p0,
            n,
        ) by {
            if n <= n0 {
                lemma_draw_settles(v, start, p0, n, n0);
            } else {
                lemma_draw_settles(v, start, p0, n0, n);
            }
        }
    }
    sorted
}

/// The children drawn from `kids` were pending, each once; what stays
/// pending is what was pending and was not drawn.
proof fn lemma_emit_draws_pending_once(kids: Seq<EntityId>, pending: Map<EntityId, i8>)
    ensures
        forall|x: EntityId| #[trigger] emit(kids, pending).0.contains(x) ==> pending.contains_key(x),
        emit(kids, pending).0.no_duplicates(),
        forall|x: EntityId|
            #[trigger] emit(kids, pending).1.contains_key(x) <==> (pending.contains_key(x) && !emit(
                kids,
                pending,
            ).0.contains(x)),
    decreases kids.len(),
{
    if kids.len() > 0 {
        let c = kids[0];
        let rest_pending = pending.remove(c);
        lemma_emit_draws_pending_once(kids.drop_first(), rest_pending);
        let rest = emit(kids.drop_first(), rest_pending);
        if pending.contains_key(c) {
            assert(!rest.0.contains(c));
            vstd::seq_lib::lemma_no_dup_in_concat(seq![c], rest.0);
            assert forall|x: EntityId| #[trigger] (seq![c] + rest.0).contains(x) implies pending.contains_key(
                x,
            ) by {
                let i = choose|i: int| 0 <= i < (seq![c] + rest.0).len() && (seq![c] + rest.0)[i] == x;
                if i > 0 {
                    assert(rest.0[i - 1] == x);
                    assert(rest.0.contains(x));
                    assert(rest_pending.contains_key(x));
                }
            }
            assert forall|x: EntityId| #[trigger] rest.1.contains_key(x) <==> (pending.contains_key(x)
                && !(seq![c] + rest.0).contains(x)) by {
                if (seq![c] + rest.0).contains(x) {
                    let i = choose|i: int| 0 <= i < (seq![c] + rest.0).len() && (seq![c] + rest.0)[i] == x;
                    if i > 0 {
                        assert(rest.0[i - 1] == x);
                    }
                }
                if x != c && rest.0.contains(x) {
                    let i = choose|i: int| 0 <= i < rest.0.len() && rest.0[i] == x;
                    assert((seq![c] + rest.0)[i + 1] == x);
                }
                if x == c {
                    assert((seq![c] + rest.0)[0] == x);
                }
            }
        } else {
            assert(rest_pending =~= pending);
        }
    }
}

/// The engine draws each entity at most once, and only entities that were
/// pending, however the scene graph is linked.
pub proof fn law_each_entity_drawn_once(
    v: SceneGraphView,
    queue: Seq<EntityId>,
    pending: Map<EntityId, i8>,
    fuel: nat,
)
    ensures
        draw_from(v, queue, pending, fuel).no_duplicates(),
        forall|x: EntityId| #[trigger] draw_from(v, queue, pending, fuel).contains(x) ==> pending.contains_key(x),
    decreases fuel,
{
    if fuel > 0 && queue.len() > 0 {
        let kids = sorted_by_key(v.tree[queue[0]], pending);
        let drawn = emit(kids, pending);
        lemma_emit_draws_pending_once(kids, pending);
        law_each_entity_drawn_once(v, queue.drop_first() + kids, drawn.1, (fuel - 1) as nat);
        let rest = draw_from(v, queue.drop_first() + kids, drawn.1, (fuel - 1) as nat);
        assert forall|x: EntityId| rest.contains(x) implies !drawn.0.contains(x) by {
            assert(drawn.1.contains_key(x));
        }
        assert forall|i: int, j: int| 0 <= i < drawn.0.len() && 0 <= j < rest.len() implies drawn.0[i]
            != rest[j] by {
            assert(rest.contains(rest[j]));
            assert(drawn.0.contains(drawn.0[i]));
        }
        vstd::seq_lib::lemma_no_dup_in_concat(drawn.0, rest);
        assert forall|x: EntityId| #[trigger] (drawn.0 + rest).contains(x) implies pending.contains_key(
            x,
        ) by {
            let i = choose|i: int| 0 <= i < (drawn.0 + rest).len() && (drawn.0 + rest)[i] == x;
            if i < drawn.0.len() {
                assert(drawn.0[i] == x);
                assert(drawn.0.contains(x));
            } else {
                assert(rest[i - drawn.0.len()] == x);
                assert(rest.contains(x));
                assert(drawn.1.contains_key(x));
            }
        }
    }
}

/// Whether the entity `ida` with the depth key `a` is drawn in front of the
/// entity `idb` with the key `b`: at the first position where the keys differ
/// (within the shorter one) the higher order is in front; keys that agree that
/// far leave the lower id in front.
pub open spec fn depth_before(a: Seq<i8>, b: Seq<i8>, ida: EntityId, idb: EntityId) -> bool
    decreases a.len(),
{
    if a.len() == 0 || b.len() == 0 {
        ida < idb
    } else if a[0] != b[0] {
        a[0] > b[0]
    } else {
        depth_before(a.skip(1), b.skip(1), ida, idb)
    }
}

/// The entry at `i` of `entries` is drawn in front of the one at `j`.
pub open spec fn entry_before(entries: Seq<(EntityId, Seq<i8>)>, i: int, j: int) -> bool {
    depth_before(entries[i].1, entries[j].1, entries[i].0, entries[j].0)
}

/// Drawing in front orders `entries` strictly and totally: no entry is in
/// front of itself or of one in front of it, being in front carries over, and
/// of two entries at different positions one is in front.
pub open spec fn depth_order_total(entries: Seq<(EntityId, Seq<i8>)>) -> bool {
    &&& forall|i: int, j: int|
        0 <= i < entries.len() && 0 <= j < entries.len() && #[trigger] entry_before(entries, i, j)
            ==> !entry_before(entries, j, i)
    &&& forall|i: int, j: int, k: int|
        0 <= i < entries.len() && 0 <= j < entries.len() && 0 <= k < entries.len()
            && #[trigger] entry_before(entries, i, j) && #[trigger] entry_before(entries, j, k)
            ==> entry_before(entries, i, k)
    &&& forall|i: int, j: int|
        0 <= i < entries.len() && 0 <= j < entries.len() && i != j ==> #[trigger] entry_before(
            entries,
            i,
            j,
        ) || entry_before(entries, j, i)
}

/// The depth key of an entity: the orders of its ancestors from the topmost
/// down (each 0 when it has none), then its own.
pub open spec fn depth_key(ancestors: Seq<EntityId>, orders: Map<EntityId, i8>, entity: EntityId) -> Seq<i8> {
    Seq::new(ancestors.len(), |k: int| sort_key(orders, ancestors[ancestors.len() - 1 - k])).push(
        sort_key(orders, entity),
    )
}

/// The depth key of `entity`, whose ancestors are `ancestors`, nearest first.
pub fn depth_key_of(ancestors: &Vec<EntityId>, orders: &HashMap<EntityId, i8>, entity: EntityId) -> (r: Vec<i8>)
    ensures
        r@ == depth_key(ancestors@, orders@, entity),
{
    let mut r: Vec<i8> = Vec::new();
    let mut k: usize = ancestors.len();
    while k > 0
        invariant
            0 <= k <= ancestors@.len(),
            r@ == Seq::new(
                (ancestors@.len() - k) as nat,
                |m: int| sort_key(orders@, ancestors@[ancestors@.len() - 1 - m]),
            ),
        decreases k,
    {
        k = k - 1;
        let order = match orders.get(&ancestors[k]) {
            Some(o) => *o,
            None => 0,
        };
        r.push(order);
        assert(r@ =~= Seq::new(
            (ancestors@.len() - k) as nat,
            |m: int| sort_key(orders@, ancestors@[ancestors@.len() - 1 - m]),
        ));
    }
    let own = match orders.get(&entity) {
        Some(o) => *o,
        None => 0,
    };
    r.push(own);
    assert(r@ =~= depth_key(ancestors@, orders@, entity));
    r
}

/// Whether the entity `ida` with the key `a` is drawn in front of `idb` with `b`.
fn in_front(a: &Vec<i8>, b: &Vec<i8>, ida: EntityId, idb: EntityId) -> (r: bool)
    ensures
        r == depth_before(a@, b@, ida, idb),
{
    let mut i: usize = 0;
    assert(a@.skip(0) =~= a@ && b@.skip(0) =~= b@);
    while i < a.len() && i < b.len()
        invariant
            0 <= i <= a@.len(),
            i <= b@.len(),
            depth_before(a@.skip(i as int), b@.skip(i as int), ida, idb) == depth_before(a@, b@, ida, idb),
        decreases a@.len() - i,
    {
        if a[i] != b[i] {
            assert(a@.skip(i as int)[0] == a@[i as int]);
            assert(b@.skip(i as int)[0] == b@[i as int]);
            return a[i] > b[i];
        }
        assert(a@.skip(i as int).skip(1) =~= a@.skip(i + 1));
        assert(b@.skip(i as int).skip(1) =~= b@.skip(i + 1));
        i = i + 1;
    }
    assert(a@.skip(i as int).len() == 0 || b@.skip(i as int).len() == 0);
    ida < idb
}

/// The positions of `entries` in drawing order, front to back: every
/// position once. When drawing in front orders the entries strictly and
/// totally, each entry comes before every entry it is in front of, which
/// fixes the order.
pub fn depth_sort(entries: &Vec<(EntityId, Vec<i8>)>) -> (r: Vec<usize>)
    ensures
        r@.len() == entries@.len(),
        r@.no_duplicates(),
        forall|p: int| 0 <= p < r@.len() ==> #[trigger] r@[p] < entries@.len(),
        depth_order_total(entries_view(entries@)) ==> forall|p: int, q: int|
            0 <= p < q < r@.len() ==> #[trigger] entry_before(entries_view(entries@), r@[p] as int, r@[q] as int),
{
    let ghost e = entries_view(entries@);
    let mut r: Vec<usize> = Vec::new();
    let mut i: usize = 0;
    while i < entries.len()
        invariant
            e == entries_view(entries@),
            0 <= i <= entries@.len(),
            r@.len() == i,
            r@.no_duplicates(),
            forall|p: int| 0 <= p < r@.len() ==> #[trigger] r@[p] < i,
            depth_order_total(e) ==> forall|p: int, q: int|
                0 <= p < q < r@.len() ==> #[trigger] entry_before(e, r@[p] as int, r@[q] as int),
        decreases entries@.len() - i,
    {
        let mut pos: usize = 0;
        while pos < r.len() && !in_front(&entries[i].1, &entries[r[pos]].1, entries[i].0, entries[r[pos]].0)
            invariant
                e == entries_view(entries@),
                0 <= pos <= r@.len(),
                i < entries@.len(),
                forall|p: int| 0 <= p < r@.len() ==> #[trigger] r@[p] < i,
                forall|p: int| 0 <= p < pos ==> !#[trigger] entry_before(e, i as int, r@[p] as int),
            decreases r@.len() - pos,
        {
            assert(e[i as int] == (entries@[i as int].0, entries@[i as int].1@));
            pos = pos + 1;
        }
        let ghost old_r = r@;
        proof {
            if pos < old_r.len() {
                assert(e[i as int] == (entries@[i as int].0, entries@[i as int].1@));
                assert(e[old_r[pos as int] as int] == (
                    entries@[old_r[pos as int] as int].0,
                    entries@[old_r[pos as int] as int].1@,
                ));
                assert(entry_before(e, i as int, old_r[pos as int] as int));
            }
        }
        r.insert(pos, i);
        proof {
            assert(r@ == old_r.insert(pos as int, i));
            assert forall|p: int| 0 <= p < r@.len() implies #[trigger] r@[p] < i + 1 by {
                if p < pos {
                    assert(r@[p] == old_r[p]);
                } else if p > pos {
                    assert(r@[p] == old_r[p - 1]);
                }
            }
            assert forall|a: int, b: int| 0 <= a < r@.len() && 0 <= b < r@.len() && a != b implies r@[a]
                != r@[b] by {
                if a != pos && b != pos {
                    let oa = if a < pos { a } else { a - 1 };
                    let ob = if b < pos { b } else { b - 1 };
                    assert(r@[a] == old_r[oa] && r@[b] == old_r[ob]);
                } else if a == pos {
                    let ob = if b < pos { b } else { b - 1 };
                    assert(r@[b] == old_r[ob]);
                } else {
                    let oa = if a < pos { a } else { a - 1 };
                    assert(r@[a] == old_r[oa]);
                }
            }
            if depth_order_total(e) {
                assert forall|p: int, q: int| 0 <= p < q < r@.len() implies #[trigger] entry_before(
                    e,
                    r@[p] as int,
                    r@[q] as int,
                ) by {
                    if q < pos {
                        assert(r@[p] == old_r[p] && r@[q] == old_r[q]);
                    } else if p > pos {
                        assert(r@[p] == old_r[p - 1] && r@[q] == old_r[q - 1]);
                    } else if p < pos && q > pos {
                        assert(r@[p] == old_r[p] && r@[q] == old_r[q - 1]);
                    } else if q == pos {
                        assert(r@[p] == old_r[p]);
                        assert(!entry_before(e, i as int, old_r[p] as int));
                        assert(old_r[p] != i);
                        assert(entry_before(e, i as int, old_r[p] as int) || entry_before(
                            e,
                            old_r[p] as int,
                            i as int,
                        ));
                    } else {
                        assert(p == pos);
                        assert(r@[q] == old_r[q - 1]);
                        if q - 1 > pos {
                            assert(entry_before(e, old_r[pos as int] as int, old_r[q - 1] as int));
                        }
                        assert(entry_before(e, i as int, old_r[pos as int] as int));
                    }
                }
            }
        }
        i = i + 1;
    }
    r
}

/// The entries with their keys as sequences.
pub open spec fn entries_view(entries: Seq<(EntityId, Vec<i8>)>) -> Seq<(EntityId, Seq<i8>)> {
    entries.map_values(|x: (EntityId, Vec<i8>)| (x.0, x.1@))
}

proof fn lemma_depth_before_asymmetric(a: Seq<i8>, b: Seq<i8>, x: EntityId, y: EntityId)
    ensures
        depth_before(a, b, x, y) ==> !depth_before(b, a, y, x),
    decreases a.len(),
{
    if a.len() > 0 && b.len() > 0 && a[0] == b[0] {
        lemma_depth_before_asymmetric(a.skip(1), b.skip(1), x, y);
    }
}

proof fn lemma_depth_before_transitive(a: Seq<i8>, b: Seq<i8>, c: Seq<i8>, x: EntityId, y: EntityId, z: EntityId)
    requires
        a.len() == b.len(),
        b.len() == c.len(),
        depth_before(a, b, x, y),
        depth_before(b, c, y, z),
    ensures
        depth_before(a, c, x, z),
    decreases a.len(),
{
    if a.len() > 0 && a[0] == b[0] && b[0] == c[0] {
        lemma_depth_before_transitive(a.skip(1), b.skip(1), c.skip(1), x, y, z);
    }
}

proof fn lemma_depth_before_total(a: Seq<i8>, b: Seq<i8>, x: EntityId, y: EntityId)
    requires
        a.len() == b.len(),
        x != y,
    ensures
        depth_before(a, b, x, y) || depth_before(b, a, y, x),
    decreases a.len(),
{
    if a.len() > 0 && a[0] == b[0] {
        lemma_depth_before_total(a.skip(1), b.skip(1), x, y);
    }
}

/// Entities whose depth keys have one length (those at one depth of the
/// scene graph) and whose ids differ are ordered strictly and totally by
/// drawing in front, so `depth_sort` puts them in the one order it fixes.
pub proof fn law_equal_depth_keys_order_totally(entries: Seq<(EntityId, Seq<i8>)>, n: nat)
    requires
        forall|i: int| 0 <= i < entries.len() ==> (#[trigger] entries[i]).1.len() == n,
        forall|i: int, j: int| 0 <= i < entries.len() && 0 <= j < entries.len() && i != j ==> (
        #[trigger] entries[i]).0 != (#[trigger] entries[j]).0,
    ensures
        depth_order_total(entries),
{
    assert forall|i: int, j: int|
        0 <= i < entries.len() && 0 <= j < entries.len() && #[trigger] entry_before(entries, i, j)
            implies !entry_before(entries, j, i) by {
        lemma_depth_before_asymmetric(entries[i].1, entries[j].1, entries[i].0, entries[j].0);
    }
    assert forall|i: int, j: int, k: int|
        0 <= i < entries.len() && 0 <= j < entries.len() && 0 <= k < entries.len()
            && #[trigger] entry_before(entries, i, j) && #[trigger] entry_before(entries, j, k)
            implies entry_before(entries, i, k) by {
        assert(entries[i].1.len() == n && entries[j].1.len() == n && entries[k].1.len() == n);
        lemma_depth_before_transitive(
            entries[i].1,
            entries[j].1,
            entries[k].1,
            entries[i].0,
            entries[j].0,
            entries[k].0,
        );
    }
    assert forall|i: int, j: int| 0 <= i < entries.len() && 0 <= j < entries.len() && i != j implies #[trigger] entry_before(
        entries,
        i,
        j,
    ) || entry_before(entries, j, i) by {
        assert(entries[i].1.len() == n && entries[j].1.len() == n);
        assert(entries[i].0 != entries[j].0);
        lemma_depth_before_total(entries[i].1, entries[j].1, entries[i].0, entries[j].0);
    }
}

} // verus!
