use fluster_core::actions::{Action, ActionList, FrameAdvanceResult};
use fluster_core::ids::{ContainerId, LibraryId};

#[test]
fn actions_it_advances_actions() {
    let actions = vec![Action::PresentFrame(1, 1)];
    let mut action_list = ActionList::new(Some(&actions));
    assert_eq!(action_list.action_index(), 0);
    assert_eq!(action_list.len(), 1);
    action_list.get().expect("Did not return expected action");
    assert_eq!(action_list.action_index(), 0);
    action_list.advance(None);
    assert_eq!(action_list.action_index(), 0); //Does not advance past the end of the list
    action_list.get().expect("Did not return expected action");
}

#[test]
fn actions_it_loads_more() {
    let actions = vec![Action::PresentFrame(1, 1)];
    let mut action_list = ActionList::new(Some(&actions));
    assert_eq!(action_list.action_index(), 0);
    assert_eq!(action_list.len(), 1);
    action_list.advance(Some(vec![
        Action::PresentFrame(2, 1),
        Action::PresentFrame(3, 1),
        Action::PresentFrame(4, 1),
    ]));
    assert_eq!(action_list.len(), 4);
}

#[test]
fn actions_it_jumps() {
    let actions = vec![
        Action::PresentFrame(1, 1),
        Action::Label(String::from("label_1")),
        Action::PresentFrame(2, 1),
        Action::PresentFrame(3, 1),
        Action::Label(String::from("label_2")),
        Action::PresentFrame(4, 1),
    ];
    let mut action_list = ActionList::new(Some(&actions));
    action_list.advance(None);
    action_list.advance(None);
    action_list.advance(None);
    assert_eq!(action_list.action_index(), 3);
    assert_eq!(action_list.label_count(), 1);
    let result = action_list.jump_to_label("label_1").unwrap();
    assert_eq!(result, (1, 2));
    assert_eq!(action_list.action_index(), 1);
    let result = action_list.jump_to_label("label_2").unwrap();
    assert_eq!(result, (4, 4));
    assert_eq!(action_list.label_count(), 2);
    assert_eq!(action_list.action_index(), 4);
}

#[test]
fn jump_to_missing_label_names_it_and_keeps_the_cursor() {
    let actions = vec![
        Action::PresentFrame(0, 1),
        Action::Label(String::from("here")),
        Action::PresentFrame(1, 1),
    ];
    let mut action_list = ActionList::new(Some(&actions));
    let result = action_list.jump_to_label("elsewhere");
    assert_eq!(
        result,
        Err(String::from("Could not find label elsewhere in any loaded actions"))
    );
    assert_eq!(action_list.action_index(), 0);
    // The search cached every label it passed.
    assert_eq!(action_list.label_count(), 1);
}

#[test]
fn jump_after_end_of_initialization_starts_at_frame_zero() {
    let actions = vec![
        Action::CreateRoot(ContainerId(1)),
        Action::PresentFrame(0, 5),
        Action::EndInitialization,
        Action::Label(String::from("start")),
    ];
    let mut action_list = ActionList::new(Some(&actions));
    assert_eq!(action_list.jump_to_label("start"), Ok((3, 0)));
}

#[test]
fn a_second_jump_is_answered_from_the_cache() {
    let actions = vec![
        Action::PresentFrame(0, 2),
        Action::Label(String::from("loop")),
        Action::PresentFrame(2, 3),
    ];
    let mut action_list = ActionList::new(Some(&actions));
    let first = action_list.jump_to_label("loop");
    action_list.advance(None);
    let second = action_list.jump_to_label("loop");
    assert_eq!(first, Ok((1, 2)));
    assert_eq!(second, first);
    assert_eq!(action_list.label_count(), 1);
}

#[test]
fn back_stops_at_end_of_initialization() {
    let actions = vec![
        Action::EndInitialization,
        Action::PresentFrame(0, 1),
        Action::PresentFrame(1, 1),
    ];
    let mut action_list = ActionList::new(Some(&actions));
    action_list.advance(None);
    action_list.advance(None);
    assert_eq!(action_list.action_index(), 2);
    action_list.back();
    assert_eq!(action_list.action_index(), 1);
    action_list.back();
    assert_eq!(action_list.action_index(), 1);
}

#[test]
fn advance_frame_catches_up_and_stops_at_the_end() {
    let actions = vec![Action::PresentFrame(10, 3)];
    let mut action_list = ActionList::new(Some(&actions));
    assert_eq!(action_list.advance_frame(1), FrameAdvanceResult::NextFrame(11));
    assert_eq!(action_list.frame_index(), 11);
    assert_eq!(action_list.advance_frame(5), FrameAdvanceResult::PresentEnd(13));
    assert_eq!(action_list.frame_index(), 13);
}

#[test]
fn advance_frame_outside_a_present() {
    let actions = vec![Action::DefineShape(LibraryId(7))];
    let mut action_list = ActionList::new(Some(&actions));
    assert_eq!(action_list.advance_frame(1), FrameAdvanceResult::NotInPresent);
    assert_eq!(action_list.frame_index(), 0);
}

#[test]
fn get_mut_changes_the_action_in_place() {
    let actions = vec![Action::PresentFrame(0, 1)];
    let mut action_list = ActionList::new(Some(&actions));
    if let Some(action) = action_list.get_mut() {
        *action = Action::PresentFrame(0, 2);
    }
    assert_eq!(action_list.get(), Some(&Action::PresentFrame(0, 2)));
}

#[test]
fn an_empty_list_has_nothing_under_the_cursor() {
    let mut action_list = ActionList::new(None);
    assert_eq!(action_list.len(), 0);
    assert!(action_list.get().is_none());
    assert!(action_list.get_mut().is_none());
}

#[test]
fn cloned_actions_are_equal() {
    let action = Action::Label(String::from("copy"));
    assert_eq!(action.clone(), action);
    let action = Action::RemoveContainer(ContainerId(3), true);
    assert_eq!(action.clone(), action);
}
