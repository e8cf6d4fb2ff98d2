use fluster_core::actions::{Action, ActionList};
use fluster_core::ids::{ContainerId, LibraryId};
use fluster_core::display_list::{add_entity, create_root, DisplayEntity, ItemKind, PartRef};
use fluster_core::runner::{execute_actions, frames_to_present, initialize};
use std::collections::HashMap;

fn uuid_value(text: &str) -> u128 {
    uuid::Uuid::parse_str(text).unwrap().as_u128()
}

#[test]
fn runner_it_initializes_state() {
    let root_id = ContainerId(uuid_value("cfc4e1a4-5623-485a-bd79-88dc82e3e26f"));
    let actions = vec![
        Action::SetBackground,
        Action::CreateRoot(root_id),
        Action::EndInitialization,
    ];
    let mut action_list = ActionList::new(Some(&actions));
    let state = initialize(&mut action_list).unwrap();
    // The background is the one set by the action at position 0.
    assert_eq!(state.background, Some(0));
    assert_eq!(state.root, root_id);
    assert!(state.loads.is_empty());
    assert_eq!(action_list.action_index(), 2);
    assert_eq!(action_list.get(), Some(&Action::EndInitialization));
    // The root goes on the standalone player's display list.
    let mut display_list: HashMap<u128, DisplayEntity> = HashMap::new();
    assert_eq!(create_root(&mut display_list, state.root.0), Ok(()));
    assert_eq!(display_list.len(), 1);
    let entity1 = display_list.get(&root_id.0).expect("Failed to get expected entity");
    assert_eq!(entity1.name, String::from("root"));
    assert_eq!(entity1.id, root_id.0);
    assert_eq!(entity1.parent, root_id.0);
    assert_eq!(entity1.active, true);
    assert_eq!(
        create_root(&mut display_list, 5),
        Err(String::from("Attempted to create root in non-empty display list"))
    );
}

#[test]
fn runner_it_executes_actions() {
    let entity_id = ContainerId(uuid_value("b06f8577-aa30-4000-9967-9ba336e9248c"));
    let entity2_id = ContainerId(uuid_value("3ec76e6a-7758-47bf-bcb5-7cf5bc309aad"));
    let shape_id = LibraryId(uuid_value("1c3ad65b-ebbf-4d5e-8943-28b94df19361"));
    let actions = vec![
        Action::SetBackground,
        Action::DefineShape(shape_id),
        Action::CreateContainer(entity_id),
        Action::CreateContainer(entity2_id),
        Action::PresentFrame(1, 1),
        Action::SetBackground, // This action will not get run
    ];
    let mut action_list = ActionList::new(Some(&actions));
    let executed = execute_actions(&mut action_list).unwrap();
    assert_eq!(executed, vec![0, 1, 2, 3]);
    assert_eq!(action_list.action_index(), 4);
    assert_eq!(action_list.get(), Some(&Action::PresentFrame(1, 1)));
    // The standalone player places the same entities on its display list.
    let root_id = uuid_value("cfc4e1a4-5623-485a-bd79-88dc82e3e26f");
    let mut display_list: HashMap<u128, DisplayEntity> = HashMap::new();
    create_root(&mut display_list, root_id).unwrap();
    let mut library: HashMap<u128, ItemKind> = HashMap::new();
    library.insert(shape_id.0, ItemKind::Vector);
    let parts = vec![PartRef::Vector(shape_id.0)];
    add_entity(&mut display_list, root_id, entity_id.0, &String::from("first"), 2, &parts, None, &library)
        .unwrap();
    add_entity(
        &mut display_list,
        root_id,
        entity2_id.0,
        &String::from("second"),
        3,
        &parts,
        Some(entity_id.0),
        &library,
    )
    .unwrap();
    assert_eq!(library.len(), 1);
    assert_eq!(display_list.len(), 3);
    let entity1 = display_list.get(&entity_id.0).expect("Failed to get expected entity");
    assert_eq!(entity1.name, String::from("first"));
    assert_eq!(entity1.id, entity_id.0);
    assert_eq!(entity1.parent, root_id);
    assert_eq!(entity1.active, true);
    let entity2 = display_list.get(&entity2_id.0).expect("Failed to get expected entity");
    assert_eq!(entity2.name, String::from("second"));
    assert_eq!(entity2.id, entity2_id.0);
    assert_eq!(entity2.parent, entity_id.0);
    assert_eq!(entity2.active, true);
}

#[test]
fn initialization_loads_each_item_once() {
    let shape = LibraryId(11);
    let bitmap = LibraryId(11);
    let actions = vec![
        Action::DefineShape(shape),
        Action::CreateRoot(ContainerId(1)),
        Action::LoadBitmap(bitmap),
        Action::DefineShape(shape),
        Action::SetBackground,
        Action::CreateRoot(ContainerId(2)),
        Action::SetBackground,
        Action::EndInitialization,
        Action::PresentFrame(0, 1),
    ];
    let mut action_list = ActionList::new(Some(&actions));
    let state = initialize(&mut action_list).unwrap();
    assert_eq!(state.root, ContainerId(2));
    assert_eq!(state.loads, vec![0, 2]);
    assert_eq!(state.background, Some(6));
    assert_eq!(action_list.action_index(), 7);
}

#[test]
fn initialization_rejects_unexpected_actions() {
    let actions = vec![
        Action::CreateRoot(ContainerId(1)),
        Action::PresentFrame(0, 1),
        Action::EndInitialization,
    ];
    let mut action_list = ActionList::new(Some(&actions));
    let result = initialize(&mut action_list);
    assert_eq!(
        result.unwrap_err(),
        String::from("Unexpected action in initialization")
    );
    assert_eq!(action_list.action_index(), 1);
}

#[test]
fn initialization_needs_a_root() {
    let actions = vec![Action::SetBackground, Action::EndInitialization];
    let mut action_list = ActionList::new(Some(&actions));
    assert_eq!(
        initialize(&mut action_list).unwrap_err(),
        String::from("Action list did not define a root element")
    );
    let mut empty = ActionList::new(None);
    assert_eq!(
        initialize(&mut empty).unwrap_err(),
        String::from("Action list did not define a root element")
    );
}

#[test]
fn execution_rejects_a_second_root() {
    let actions = vec![
        Action::Label(String::from("again")),
        Action::CreateRoot(ContainerId(5)),
        Action::PresentFrame(0, 1),
    ];
    let mut action_list = ActionList::new(Some(&actions));
    assert_eq!(
        execute_actions(&mut action_list).unwrap_err(),
        String::from("Attempting to define an additional Root")
    );
    assert_eq!(action_list.action_index(), 1);
}

#[test]
fn execution_skips_labels_and_stops_on_the_present() {
    let actions = vec![
        Action::Label(String::from("a")),
        Action::RemoveContainer(ContainerId(9), false),
        Action::EndInitialization,
        Action::UpdateContainer(ContainerId(9)),
        Action::PresentFrame(3, 2),
    ];
    let mut action_list = ActionList::new(Some(&actions));
    assert_eq!(execute_actions(&mut action_list).unwrap(), vec![1, 3]);
    assert_eq!(action_list.action_index(), 4);
    assert_eq!(execute_actions(&mut action_list).unwrap(), Vec::<usize>::new());
}

#[test]
fn frames_to_present_counts_the_rest_of_the_present() {
    assert_eq!(frames_to_present(0, 0, 0), Ok(0));
    assert_eq!(frames_to_present(5, 3, 4), Ok(2));
    assert_eq!(frames_to_present(3, 3, 4), Ok(4));
    assert_eq!(frames_to_present(7, 3, 4), Ok(0));
    assert_eq!(
        frames_to_present(8, 3, 4),
        Err(String::from(
            "Attempting to play incorrect frame. Frame counter and action list have gotten desynced"
        ))
    );
}
