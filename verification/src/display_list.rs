//! The display list of the standalone player: the entities on stage by id,
//! each with its parts (references to library items), its parent and its
//! children. Transforms are stored beside the list by the player; the list
//! holds what placing an entity decides on.

use vstd::prelude::*;
use std::collections::HashMap;

verus! {

broadcast use vstd::std_specs::hash::group_hash_axioms;

/// The kind of a library item.
#[derive(Clone, Copy, Debug, PartialEq, Eq, Structural)]
pub enum ItemKind {
    Vector,
    Bitmap,
}

/// A part of an entity: a vector shape or a bitmap of the library, by id.
#[derive(Clone, Copy, Debug, PartialEq, Eq, Structural)]
pub enum PartRef {
    Vector(u128),
    Bitmap(u128),
}

/// An entity on the display list.
#[derive(Debug)]
pub struct DisplayEntity {
    pub id: u128,
    pub name: String,
    pub depth: u32,
    pub active: bool,
    pub parts: Vec<PartRef>,
    pub parent: u128,
    pub children: Vec<u128>,
}

/// The abstract value of a display entity.
pub struct DisplayEntityView {
    pub id: u128,
    pub name: Seq<char>,
    pub depth: u32,
    pub active: bool,
    pub parts: Seq<PartRef>,
    pub parent: u128,
    pub children: Seq<u128>,
}

impl View for DisplayEntity {
    type V = DisplayEntityView;

    open spec fn view(&self) -> DisplayEntityView {
        DisplayEntityView {
            id: self.id,
            name: self.name@,
            depth: self.depth,
            active: self.active,
            parts: self.parts@,
            parent: self.parent,
            children: self.children@,
        }
    }
}

/// Why an entity could not be placed on the display list.
#[derive(Clone, Copy, Debug, PartialEq, Eq, Structural)]
pub enum AddEntityError {
    /// The parent `parent` of the entity `id` is not on the list.
    NoParent { id: u128, parent: u128 },
    /// Some part of the entity `id` names no library item of its kind.
    UnresolvedParts { id: u128 },
}

/// The abstract display list: each entity by id.
pub open spec fn list_view(list: Map<u128, DisplayEntity>) -> Map<u128, DisplayEntityView> {
    list.map_values(|e: DisplayEntity| e@)
}

/// The part `p` names an item of the library of its own kind.
pub open spec fn part_resolves(library: Map<u128, ItemKind>, p: PartRef) -> bool {
    match p {
        PartRef::Vector(id) => library.contains_key(id) && library[id] == ItemKind::Vector,
        PartRef::Bitmap(id) => library.contains_key(id) && library[id] == ItemKind::Bitmap,
    }
}

/// Every part of `parts` names an item of the library of its own kind.
pub open spec fn parts_resolve(library: Map<u128, ItemKind>, parts: Seq<PartRef>) -> bool {
    forall|i: int| 0 <= i < parts.len() ==> #[trigger] part_resolves(library, parts[i])
}

/// The entity `e` with `child` added at the end of its children.
pub open spec fn with_child(e: DisplayEntityView, child: u128) -> DisplayEntityView {
    DisplayEntityView { children: e.children.push(child), ..e }
}

/// The children list `s` without `x`.
pub open spec fn without_id(s: Seq<u128>, x: u128) -> Seq<u128> {
    s.filter(other_id(x))
}

/// The test that an id is not `x`.
pub open spec fn other_id(x: u128) -> spec_fn(u128) -> bool {
    |c: u128| c != x
}

/// The list after `parent` (on the list) got `id` as its last child.
pub open spec fn list_with_child(list: Map<u128, DisplayEntityView>, parent: u128, id: u128) -> Map<
    u128,
    DisplayEntityView,
> {
    list.insert(parent, with_child(list[parent], id))
}

/// The list after an entity that replaced the entity `old` under `id` is in
/// place, before `old`'s parent lets go of `id`: `old`'s children are gone.
pub open spec fn list_without_old_children(
    list: Map<u128, DisplayEntityView>,
    id: u128,
    entity: DisplayEntityView,
    old: DisplayEntityView,
) -> Map<u128, DisplayEntityView> {
    list.insert(id, entity).remove_keys(old.children.to_set())
}

/// Placing `entity` under `id` and below `parent` would look for a former
/// parent that is no longer on the list: the entity replaces one whose parent
/// was another entity, and that one has just left the list.
pub open spec fn former_parent_gone(
    list: Map<u128, DisplayEntityView>,
    id: u128,
    entity: DisplayEntityView,
    parent: u128,
) -> bool {
    let l1 = list_with_child(list, parent, id);
    l1.contains_key(id) && l1[id].parent != parent && !list_without_old_children(
        l1,
        id,
        entity,
        l1[id],
    ).contains_key(l1[id].parent)
}

/// The list after `entity` is placed under `id` as the last child of `parent`
/// (on the list). When it replaces an entity, that one's children leave the
/// list, and its parent, when another entity, lets go of `id`.
pub open spec fn list_after_add(
    list: Map<u128, DisplayEntityView>,
    id: u128,
    entity: DisplayEntityView,
    parent: u128,
) -> Map<u128, DisplayEntityView> {
    let l1 = list_with_child(list, parent, id);
    if l1.contains_key(id) {
        let old = l1[id];
        let l3 = list_without_old_children(l1, id, entity, old);
        if old.parent != parent {
            l3.insert(
                old.parent,
                DisplayEntityView { children: without_id(l3[old.parent].children, id), ..l3[old.parent] },
            )
        } else {
            l3
        }
    } else {
        l1.insert(id, entity)
    }
}

/// The entity placed for `id`: active, with no children yet.
pub open spec fn new_entity(
    id: u128,
    name: Seq<char>,
    depth: u32,
    parts: Seq<PartRef>,
    parent: u128,
) -> DisplayEntityView {
    DisplayEntityView { id, name, depth, active: true, parts, parent, children: Seq::empty() }
}

fn copy_without_id(v: &Vec<u128>, x: u128) -> (r: Vec<u128>)
    ensures
        r@ == without_id(v@, x),
{
    let mut r: Vec<u128> = Vec::new();
    let mut i: usize = 0;
    while i < v.len()
        invariant
            0 <= i <= v@.len(),
            r@ == without_id(v@.take(i as int), x),
        decreases v@.len() - i,
    {
        proof {
            assert(v@.take(i + 1) =~= v@.take(i as int).push(v@[i as int]));
            v@.take(i as int).lemma_filter_push(v@[i as int], other_id(x));
        }
        if v[i] != x {
            r.push(v[i]);
        }
        i = i + 1;
    }
    assert(v@.take(v@.len() as int) =~= v@);
    r
}

/// The parts of an entity, each checked against the library: all of them when
/// each names an item of its own kind, else `None`.
fn resolve_parts(parts: &Vec<PartRef>, library: &HashMap<u128, ItemKind>) -> (r: Option<Vec<PartRef>>)
    ensures
        match r {
            Some(v) => parts_resolve(library@, parts@) && v@ == parts@,
            None => !parts_resolve(library@, parts@),
        },
{
    let mut out: Vec<PartRef> = Vec::new();
    let mut i: usize = 0;
    while i < parts.len()
        invariant
            0 <= i <= parts@.len(),
            out@ == parts@.take(i as int),
            forall|k: int| 0 <= k < i ==> #[trigger] part_resolves(library@, parts@[k]),
        decreases parts@.len() - i,
    {
        let part = parts[i];
        let ok = match part {
            PartRef::Vector(item) => match library.get(&item) {
                Some(ItemKind::Vector) => true,
                _ => false,
            },
            PartRef::Bitmap(item) => match library.get(&item) {
                Some(ItemKind::Bitmap) => true,
                _ => false,
            },
        };
        if !ok {
            assert(!part_resolves(library@, parts@[i as int]));
            return None;
        }
        out.push(part);
        assert(out@ =~= parts@.take(i + 1));
        i = i + 1;
    }
    assert(out@ =~= parts@);
    Some(out)
}

/// Places the entity `id` on the display list as the last child of `parent`,
/// or of the root when no parent is given. The entity is active and has no
/// children; its parts must each name a library item of their own kind.
///
/// When an entity was already on the list under `id`, the new one replaces
/// it: the old one's children leave the list, and its parent, when it is
/// another entity, lets go of `id`.
///
/// Errors, with the list unchanged: the parent is not on the list; some part
/// names no library item of its kind.
pub fn add_entity(
    display_list: &mut HashMap<u128, DisplayEntity>,
    root: u128,
    id: u128,
    name: &String,
    depth: u32,
    parts: &Vec<PartRef>,
    parent: Option<u128>,
    library: &HashMap<u128, ItemKind>,
) -> (r: Result<(), AddEntityError>)
    requires
        ({
            let p = match parent {
                Some(p) => p,
                None => root,
            };
            let before = list_view(old(display_list)@);
            before.contains_key(p) && parts_resolve(library@, parts@) ==> !former_parent_gone(
                before,
                id,
                new_entity(id, name@, depth, parts@, p),
                p,
            )
        }),
    ensures
        ({
            let p = match parent {
                Some(p) => p,
                None => root,
            };
            let before = list_view(old(display_list)@);
            if !before.contains_key(p) {
                &&& r == Err::<(), AddEntityError>(AddEntityError::NoParent { id, parent: p })
                &&& list_view(final(display_list)@) == before
            } else if !parts_resolve(library@, parts@) {
                &&& r == Err::<(), AddEntityError>(AddEntityError::UnresolvedParts { id })
                &&& list_view(final(display_list)@) == before
            } else {
                &&& r == Ok::<(), AddEntityError>(())
                &&& list_view(final(display_list)@) == list_after_add(
                    before,
                    id,
                    new_entity(id, name@, depth, parts@, p),
                    p,
                )
            }
        }),
{
    let ghost before = list_view(display_list@);
    let p = match parent {
        Some(p) => p,
        None => root,
    };
    if !display_list.contains_key(&p) {
        return Err(AddEntityError::NoParent { id, parent: p });
    }
    let constructed = match resolve_parts(parts, library) {
        Some(v) => v,
        None => return Err(AddEntityError::UnresolvedParts { id }),
    };
    let ghost entity_view = new_entity(id, name@, depth, parts@, p);
    let mut parent_entity = match display_list.remove(&p) {
        Some(e) => e,
        None => {
            assert(false);
            return Err(AddEntityError::NoParent { id, parent: p });
        },
    };
    parent_entity.children.push(id);
    display_list.insert(p, parent_entity);
    let ghost l1 = list_view(display_list@);
    assert(l1 =~= list_with_child(before, p, id));
    let entity = DisplayEntity {
        id,
        name: name.clone(),
        depth,
        active: true,
        parts: constructed,
        parent: p,
        children: Vec::new(),
    };
    assert(entity@ == entity_view);
    let replaced = display_list.insert(id, entity);
    match replaced {
        None => {
            assert(list_view(display_list@) =~= l1.insert(id, entity_view));
        },
        Some(old) => {
            let ghost old_view = old@;
            assert(old_view == l1[id]);
            let ghost l2 = list_view(display_list@);
            assert(l2 =~= l1.insert(id, entity_view));
            let mut i: usize = 0;
            while i < old.children.len()
                invariant
                    0 <= i <= old.children@.len(),
                    list_view(display_list@) == l2.remove_keys(old.children@.take(i as int).to_set()),
                decreases old.children@.len() - i,
            {
                let c = old.children[i];
                let ghost raw_before = display_list@;
                display_list.remove(&c);
                proof {
                    assert(display_list@ == raw_before.remove(c));
                    assert(list_view(display_list@) =~= list_view(raw_before).remove(c));
                    let before_set = old.children@.take(i as int).to_set();
                    assert(old.children@.take(i + 1) =~= old.children@.take(i as int).push(c));
                    old.children@.take(i as int).lemma_push_to_set_commute(c);
                    assert(list_view(display_list@) =~= l2.remove_keys(before_set.insert(c)));
                }
                i = i + 1;
            }
            assert(old.children@.take(old.children@.len() as int) =~= old.children@);
            let ghost l3 = list_view(display_list@);
            assert(l3 == list_without_old_children(l1, id, entity_view, old_view));
            if old.parent != p {
                let mut former = match display_list.remove(&old.parent) {
                    Some(e) => e,
                    None => {
                        assert(false);
                        return Ok(());
                    },
                };
                let kept = copy_without_id(&former.children, id);
                former.children = kept;
                let ghost former_view = former@;
                display_list.insert(old.parent, former);
                assert(list_view(display_list@) =~= l3.insert(
                    old.parent,
                    DisplayEntityView { children: without_id(l3[old.parent].children, id), ..l3[old.parent] },
                ));
            }
        },
    }
    Ok(())
}

/// The list after the entity `id` (on the list) and its children leave it,
/// before its parent lets go of `id`.
pub open spec fn list_without_entity(list: Map<u128, DisplayEntityView>, id: u128) -> Map<
    u128,
    DisplayEntityView,
> {
    list.remove(id).remove_keys(list[id].children.to_set())
}

/// The list after the entity `id` leaves it: when it was on the list, its
/// children leave too, and its parent lets go of `id`.
pub open spec fn list_after_remove(list: Map<u128, DisplayEntityView>, id: u128) -> Map<
    u128,
    DisplayEntityView,
> {
    if list.contains_key(id) {
        let l1 = list_without_entity(list, id);
        let parent = list[id].parent;
        l1.insert(parent, DisplayEntityView { children: without_id(l1[parent].children, id), ..l1[parent] })
    } else {
        list
    }
}

/// Takes the entity `id` off the display list, with its children (the
/// entities below them stay), and lets its parent go of it. An id that is not
/// on the list changes nothing.
pub fn remove_entity(display_list: &mut HashMap<u128, DisplayEntity>, id: u128)
    requires
        ({
            let before = list_view(old(display_list)@);
            before.contains_key(id) ==> list_without_entity(before, id).contains_key(before[id].parent)
        }),
    ensures
        list_view(final(display_list)@) == list_after_remove(list_view(old(display_list)@), id),
{
    let ghost before = list_view(display_list@);
    let old = match display_list.remove(&id) {
        Some(e) => e,
        None => {
            assert(list_view(display_list@) =~= before);
            return;
        },
    };
    let ghost l0 = list_view(display_list@);
    assert(l0 =~= before.remove(id));
    assert(old@ == before[id]);
    let mut i: usize = 0;
    while i < old.children.len()
        invariant
            0 <= i <= old.children@.len(),
            list_view(display_list@) == l0.remove_keys(old.children@.take(i as int).to_set()),
        decreases old.children@.len() - i,
    {
        let c = old.children[i];
        let ghost raw_before = display_list@;
        display_list.remove(&c);
        proof {
            assert(display_list@ == raw_before.remove(c));
            assert(list_view(display_list@) =~= list_view(raw_before).remove(c));
            let before_set = old.children@.take(i as int).to_set();
            assert(old.children@.take(i + 1) =~= old.children@.take(i as int).push(c));
            old.children@.take(i as int).lemma_push_to_set_commute(c);
            assert(list_view(display_list@) =~= l0.remove_keys(before_set.insert(c)));
        }
        i = i + 1;
    }
    assert(old.children@.take(old.children@.len() as int) =~= old.children@);
    let ghost l1 = list_view(display_list@);
    assert(l1 == list_without_entity(before, id));
    let mut parent = match display_list.remove(&old.parent) {
        Some(e) => e,
        None => {
            assert(false);
            return;
        },
    };
    let kept = copy_without_id(&parent.children, id);
    parent.children = kept;
    display_list.insert(old.parent, parent);
    assert(list_view(display_list@) =~= l1.insert(
        old.parent,
        DisplayEntityView { children: without_id(l1[old.parent].children, id), ..l1[old.parent] },
    ));
}

/// An entity placed under a new id, below an entity other than itself, is on
/// the list as placed and is its parent's last child; taken off the list
/// again, it is no longer on it (unless it named itself as its parent).
pub proof fn law_display_list_read_after_write(
    list: Map<u128, DisplayEntityView>,
    id: u128,
    entity: DisplayEntityView,
    parent: u128,
)
    requires
        list.contains_key(parent),
        !list.contains_key(id),
        id != parent,
    ensures
        list_after_add(list, id, entity, parent)[id] == entity,
        list_after_add(list, id, entity, parent)[parent].children == list[parent].children.push(id),
        !list_after_remove(list_after_add(list, id, entity, parent), id).contains_key(id) || entity.parent
            == id,
{
}

/// The root entity `id`: named `root`, at depth 0, active, its own parent,
/// with no parts and no children.
pub open spec fn root_entity(id: u128) -> DisplayEntityView {
    DisplayEntityView {
        id,
        name: "root"@,
        depth: 0,
        active: true,
        parts: Seq::empty(),
        parent: id,
        children: Seq::empty(),
    }
}

/// Puts the root entity `id` on an empty display list. A list that already
/// holds an entity is left as it is, and an error says so.
pub fn create_root(display_list: &mut HashMap<u128, DisplayEntity>, id: u128) -> (r: Result<(), String>)
    ensures
        list_view(old(display_list)@).dom().is_empty() ==> {
            &&& r is Ok
            &&& list_view(final(display_list)@) == Map::<u128, DisplayEntityView>::empty().insert(
                id,
                root_entity(id),
            )
        },
        !list_view(old(display_list)@).dom().is_empty() ==> {
            &&& r matches Err(message) && message@ == "Attempted to create root in non-empty display list"@
            &&& list_view(final(display_list)@) == list_view(old(display_list)@)
        },
{
    if !display_list.is_empty() {
        proof {
            assert(!(display_list@.dom() =~= Set::<u128>::empty()));
            assert(!(list_view(display_list@).dom() =~= Set::<u128>::empty()));
        }
        return Err(String::from_str("Attempted to create root in non-empty display list"));
    }
    proof {
        assert(list_view(display_list@).dom() =~= display_list@.dom());
        assert(display_list@ =~= Map::<u128, DisplayEntity>::empty());
    }
    let root = DisplayEntity {
        id,
        name: String::from_str("root"),
        depth: 0,
        active: true,
        parts: Vec::new(),
        parent: id,
        children: Vec::new(),
    };
    assert(root@ == root_entity(id));
    display_list.insert(id, root);
    assert(list_view(display_list@) =~= Map::<u128, DisplayEntityView>::empty().insert(id, root_entity(id)));
    Ok(())
}

} // verus!
