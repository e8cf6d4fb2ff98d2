use fluster_core::display_list::{
    add_entity, remove_entity, AddEntityError, DisplayEntity, ItemKind, PartRef,
};
use std::collections::HashMap;

const ROOT: u128 = 1;
const SHAPE: u128 = 100;
const BITMAP: u128 = 200;

fn root_entity() -> DisplayEntity {
    DisplayEntity {
        id: ROOT,
        name: String::from("root"),
        depth: 0,
        active: true,
        parts: vec![],
        parent: ROOT,
        children: vec![],
    }
}

fn setup() -> (HashMap<u128, DisplayEntity>, HashMap<u128, ItemKind>) {
    let mut display_list = HashMap::new();
    display_list.insert(ROOT, root_entity());
    let mut library = HashMap::new();
    library.insert(SHAPE, ItemKind::Vector);
    library.insert(BITMAP, ItemKind::Bitmap);
    (display_list, library)
}

#[test]
fn add_entity_places_under_root_by_default() {
    let (mut list, library) = setup();
    let parts = vec![PartRef::Vector(SHAPE), PartRef::Bitmap(BITMAP)];
    let name = String::from("first");
    assert_eq!(add_entity(&mut list, ROOT, 2, &name, 3, &parts, None, &library), Ok(()));
    let e = list.get(&2).unwrap();
    assert_eq!(e.parent, ROOT);
    assert_eq!(e.depth, 3);
    assert!(e.active);
    assert_eq!(e.name, "first");
    assert_eq!(e.parts, parts);
    assert!(e.children.is_empty());
    assert_eq!(list.get(&ROOT).unwrap().children, vec![2]);
}

#[test]
fn add_entity_under_missing_parent_fails() {
    let (mut list, library) = setup();
    let name = String::from("orphan");
    assert_eq!(
        add_entity(&mut list, ROOT, 2, &name, 1, &vec![], Some(9), &library),
        Err(AddEntityError::NoParent { id: 2, parent: 9 })
    );
    assert_eq!(list.len(), 1);
    assert!(list.get(&ROOT).unwrap().children.is_empty());
}

#[test]
fn add_entity_with_part_of_wrong_kind_fails() {
    let (mut list, library) = setup();
    let name = String::from("bad");
    let parts = vec![PartRef::Vector(SHAPE), PartRef::Vector(BITMAP)];
    assert_eq!(
        add_entity(&mut list, ROOT, 2, &name, 1, &parts, None, &library),
        Err(AddEntityError::UnresolvedParts { id: 2 })
    );
    let missing = vec![PartRef::Bitmap(7)];
    assert_eq!(
        add_entity(&mut list, ROOT, 2, &name, 1, &missing, None, &library),
        Err(AddEntityError::UnresolvedParts { id: 2 })
    );
    assert_eq!(list.len(), 1);
    assert!(list.get(&ROOT).unwrap().children.is_empty());
}

#[test]
fn replacing_an_entity_drops_its_children_and_leaves_its_old_parent() {
    let (mut list, library) = setup();
    let name = String::from("e");
    assert_eq!(add_entity(&mut list, ROOT, 2, &name, 1, &vec![], None, &library), Ok(()));
    assert_eq!(add_entity(&mut list, ROOT, 3, &name, 1, &vec![], Some(2), &library), Ok(()));
    assert_eq!(add_entity(&mut list, ROOT, 4, &name, 1, &vec![], None, &library), Ok(()));
    // Entity 2 comes again, now under 4: its child 3 leaves, and the root lets go of it.
    let again = String::from("again");
    assert_eq!(add_entity(&mut list, ROOT, 2, &again, 5, &vec![], Some(4), &library), Ok(()));
    assert!(!list.contains_key(&3));
    assert_eq!(list.get(&2).unwrap().name, "again");
    assert_eq!(list.get(&2).unwrap().parent, 4);
    assert!(list.get(&2).unwrap().children.is_empty());
    assert_eq!(list.get(&4).unwrap().children, vec![2]);
    assert_eq!(list.get(&ROOT).unwrap().children, vec![4]);
}

#[test]
fn replacing_under_the_same_parent_lists_it_twice() {
    let (mut list, library) = setup();
    let name = String::from("e");
    assert_eq!(add_entity(&mut list, ROOT, 2, &name, 1, &vec![], None, &library), Ok(()));
    assert_eq!(add_entity(&mut list, ROOT, 2, &name, 1, &vec![], None, &library), Ok(()));
    assert_eq!(list.get(&ROOT).unwrap().children, vec![2, 2]);
}

#[test]
fn remove_entity_takes_its_children_and_leaves_its_parent() {
    let (mut list, library) = setup();
    let name = String::from("e");
    assert_eq!(add_entity(&mut list, ROOT, 2, &name, 1, &vec![], None, &library), Ok(()));
    assert_eq!(add_entity(&mut list, ROOT, 3, &name, 1, &vec![], Some(2), &library), Ok(()));
    assert_eq!(add_entity(&mut list, ROOT, 4, &name, 1, &vec![], Some(3), &library), Ok(()));
    remove_entity(&mut list, 2);
    assert!(!list.contains_key(&2));
    assert!(!list.contains_key(&3));
    // Only the direct children leave with it.
    assert!(list.contains_key(&4));
    assert!(list.get(&ROOT).unwrap().children.is_empty());
    remove_entity(&mut list, 9);
    assert_eq!(list.len(), 2);
}
