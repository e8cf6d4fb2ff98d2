use fluster_core::ids::ContainerId;
use fluster_core::scratch_pad::{
    EditMessageKind, PathBuffer, ScratchPad, ScratchPadMode, ScratchPadWork,
};
use fluster_core::simulation::{FrameState, LayerState, TimelineState};
use fluster_core::tools::{
    CursorKind, EditState, MouseButton, MouseEventKind, PlacementState, Tool, ToolMessageKind,
    ToolOptionHandle, ToolState,
};

fn tool_update(kind: ToolMessageKind) -> EditMessageKind {
    EditMessageKind::ToolUpdate(kind)
}

/// Plans and finishes an edit whose work succeeds.
fn apply(pad: &mut ScratchPad, msg: EditMessageKind) -> Result<bool, String> {
    let work = pad.plan_edit(msg)?;
    pad.finish_edit(work, Ok(()))
}

#[test]
fn a_path_is_started_extended_and_ended() {
    let mut pad = ScratchPad::new();
    assert_eq!(apply(&mut pad, tool_update(ToolMessageKind::PathStart)), Ok(false));
    assert_eq!(pad.mode(), ScratchPadMode::NewPath);
    assert_eq!(apply(&mut pad, tool_update(ToolMessageKind::PathPlaceHover)), Ok(true));
    assert_eq!(apply(&mut pad, tool_update(ToolMessageKind::PathNext)), Ok(true));
    assert_eq!(apply(&mut pad, tool_update(ToolMessageKind::PathEnd)), Ok(true));
    assert_eq!(pad.mode(), ScratchPadMode::Idle);
}

#[test]
fn starting_during_an_edit_is_refused() {
    let mut pad = ScratchPad::default();
    apply(&mut pad, tool_update(ToolMessageKind::TemplateStart)).unwrap();
    assert_eq!(
        pad.plan_edit(tool_update(ToolMessageKind::PathStart)),
        Err(String::from("Attempting to start a new path while an edit was in progress"))
    );
    assert_eq!(
        pad.plan_edit(tool_update(ToolMessageKind::MovePointStart)),
        Err(String::from("Attempting to edit a vertex while edit in progress"))
    );
    assert_eq!(
        pad.plan_edit(tool_update(ToolMessageKind::TemplateStart)),
        Err(String::from("Attempting to start a new ellipse while an edit was in progress"))
    );
    assert_eq!(pad.mode(), ScratchPadMode::NewTemplateShape);
}

#[test]
fn unexpected_messages_are_named() {
    let pad = ScratchPad::new();
    assert_eq!(
        pad.plan_edit(tool_update(ToolMessageKind::PathNext)),
        Err(String::from("Unexpected Message \"PathNext\""))
    );
    assert_eq!(
        pad.plan_edit(tool_update(ToolMessageKind::PathPlaceHover)),
        Err(String::from("Unexpected Message \"PathPlaceHover\""))
    );
    assert_eq!(
        pad.plan_edit(tool_update(ToolMessageKind::PathEnd)),
        Err(String::from("Unexpected Message \"PathEnd\""))
    );
    assert_eq!(
        pad.plan_edit(tool_update(ToolMessageKind::MovePointHover)),
        Err(String::from("Unexpected Message \"MovePointHover\""))
    );
    // The end of a vertex drag is reported under the path's name.
    assert_eq!(
        pad.plan_edit(tool_update(ToolMessageKind::MovePointEnd)),
        Err(String::from("Unexpected Message \"PathEnd\""))
    );
    assert_eq!(
        pad.plan_edit(tool_update(ToolMessageKind::TemplatePlaceHover)),
        Err(String::from("Unexpected Message \"TemplatePlaceHover\""))
    );
    assert_eq!(
        pad.plan_edit(tool_update(ToolMessageKind::TemplateEnd)),
        Err(String::from("Unexpected Message \"TemplateEnd\""))
    );
}

#[test]
fn a_failed_drag_start_leaves_the_pad_idle() {
    let mut pad = ScratchPad::new();
    let work = pad.plan_edit(tool_update(ToolMessageKind::MovePointStart)).unwrap();
    assert_eq!(work, ScratchPadWork::StartDrag);
    let result = pad.finish_edit(work, Err(String::from("Selection contained 0 vertexes")));
    assert_eq!(result, Err(String::from("Selection contained 0 vertexes")));
    assert_eq!(pad.mode(), ScratchPadMode::Idle);
}

#[test]
fn a_vertex_drag_runs_to_its_end() {
    let mut pad = ScratchPad::new();
    assert_eq!(apply(&mut pad, tool_update(ToolMessageKind::MovePointStart)), Ok(false));
    assert_eq!(pad.mode(), ScratchPadMode::EditVertexes);
    assert_eq!(apply(&mut pad, tool_update(ToolMessageKind::MovePointHover)), Ok(true));
    assert_eq!(apply(&mut pad, tool_update(ToolMessageKind::MovePointEnd)), Ok(true));
    assert_eq!(pad.mode(), ScratchPadMode::Idle);
}

#[test]
fn other_messages_do_nothing() {
    let mut pad = ScratchPad::new();
    apply(&mut pad, tool_update(ToolMessageKind::PathStart)).unwrap();
    for msg in [
        EditMessageKind::Cancel,
        EditMessageKind::ToolChange(Tool::Pointer),
        EditMessageKind::ChangeOption(ToolOptionHandle::StrokeWidth),
    ] {
        assert_eq!(pad.plan_edit(msg), Ok(ScratchPadWork::Nothing));
        assert_eq!(apply(&mut pad, msg), Ok(false));
        assert_eq!(pad.mode(), ScratchPadMode::NewPath);
    }
}

#[test]
fn a_path_buffer_keeps_one_preview_edge() {
    let mut path = PathBuffer::start('m', false);
    path.update_preview_edge('a');
    path.update_preview_edge('b');
    assert_eq!(path.shown('z'), vec!['m', 'b']);
    path.next_edge('c');
    assert_eq!(path.shown('z'), vec!['m', 'c']);
    path.update_preview_edge('d');
    assert_eq!(path.complete('z'), Some(vec!['m', 'c']));
}

#[test]
fn a_closed_path_ends_with_its_closing_edge() {
    let mut path = PathBuffer::start(1u8, true);
    path.next_edge(2);
    assert_eq!(path.shown(0), vec![1, 2, 0]);
    assert_eq!(path.complete(0), Some(vec![1, 2, 0]));
}

#[test]
fn a_path_without_edges_is_dropped() {
    let mut path = PathBuffer::start(1u8, true);
    path.update_preview_edge(2);
    assert_eq!(path.complete(0), None);
}

#[test]
fn path_tool_messages_follow_the_mouse() {
    let mut tool = ToolState::new(Tool::Path);
    let press = MouseEventKind::Pressed(MouseButton::Left);
    assert_eq!(tool.on_mouse_event(press), Some(ToolMessageKind::PathStart));
    assert_eq!(tool.on_mouse_event(MouseEventKind::CursorMoved), None);
    tool.update(ToolMessageKind::PathStart);
    assert_eq!(tool.placement_state(), PlacementState::Placing);
    assert_eq!(tool.mouse_cursor(), CursorKind::Grabbing);
    assert_eq!(tool.on_mouse_event(press), Some(ToolMessageKind::PathNext));
    assert_eq!(
        tool.on_mouse_event(MouseEventKind::CursorMoved),
        Some(ToolMessageKind::PathPlaceHover)
    );
    assert_eq!(
        tool.on_mouse_event(MouseEventKind::Pressed(MouseButton::Right)),
        Some(ToolMessageKind::PathEnd)
    );
    tool.update(ToolMessageKind::PathEnd);
    assert_eq!(tool.mouse_cursor(), CursorKind::Pointer);
}

#[test]
fn switching_and_cancelling_tools() {
    let mut tool = ToolState::default();
    assert_eq!(tool.tool(), Tool::Pointer);
    assert_eq!(tool.mouse_cursor(), CursorKind::Idle);
    assert_eq!(tool.on_mouse_event(MouseEventKind::Pressed(MouseButton::Left)), None);
    tool.switch_tool(Tool::Path);
    tool.start_placing();
    tool.cancel_action();
    assert_eq!(tool.tool(), Tool::Path);
    assert_eq!(tool.placement_state(), PlacementState::NotPlacing);
    tool.switch_tool(Tool::Polygon);
    tool.start_placing();
    assert_eq!(tool.placement_state(), PlacementState::NotPlacing);
}

#[test]
fn tools_keep_only_their_options() {
    let path = ToolState::new(Tool::Path);
    let polygon = ToolState::new(Tool::Polygon);
    let options = vec![
        (ToolOptionHandle::LineColor, 1),
        (ToolOptionHandle::NumEdges, 2),
        (ToolOptionHandle::ClosedPath, 3),
        (ToolOptionHandle::LineJoin, 4),
        (ToolOptionHandle::CornerRadius, 5),
    ];
    assert_eq!(
        path.get_options(options.clone()),
        vec![
            (ToolOptionHandle::LineColor, 1),
            (ToolOptionHandle::ClosedPath, 3),
            (ToolOptionHandle::LineJoin, 4)
        ]
    );
    assert_eq!(
        polygon.get_options(options),
        vec![
            (ToolOptionHandle::LineColor, 1),
            (ToolOptionHandle::NumEdges, 2),
            (ToolOptionHandle::LineJoin, 4)
        ]
    );
    assert!(!ToolState::default().takes_option(ToolOptionHandle::LineColor));
}

#[test]
fn frames_add_and_remove_containers() {
    let mut frame = FrameState::default();
    assert!(!frame.contains_entity(&ContainerId(1)));
    frame.add_entity(&ContainerId(1));
    frame.add_entity(&ContainerId(2));
    assert!(frame.contains_entity(&ContainerId(1)));
    frame.remove_entity(&ContainerId(1));
    assert!(!frame.contains_entity(&ContainerId(1)));
    assert!(frame.contains_entity(&ContainerId(2)));
    frame.remove_entity(&ContainerId(2));
    assert!(matches!(frame, FrameState::Empty));
    let single = FrameState::from_entity(ContainerId(3));
    assert!(single.contains_entity(&ContainerId(3)));
}

#[test]
fn layers_show_the_root_until_hidden() {
    let root = ContainerId(42);
    let mut layer = LayerState::new(&root);
    assert!(layer.visible());
    assert!(layer.can_show_entity(&root));
    layer.set_visible(false);
    assert!(!layer.can_show_entity(&root));
    assert!(layer.contains_entity(&root));
    layer.set_current_frame(0);
    assert!(layer.contains_entity(&root));
    assert!(!LayerState::default().visible());
}

#[test]
fn timeline_visibility_reads_back() {
    let root = ContainerId(7);
    let mut timeline = TimelineState::new(&root);
    assert!(timeline.can_show_entity(&root));
    assert!(!timeline.can_show_entity(&ContainerId(8)));
    assert!(timeline.get_layer_visible(0));
    timeline.set_layer_visible(0, false);
    assert!(!timeline.get_layer_visible(0));
    assert!(!timeline.can_show_entity(&root));
    timeline.set_layer_visible(3, true);
    assert!(!timeline.get_layer_visible(3));
    assert!(!TimelineState::default().can_show_entity(&root));
}

#[test]
fn edit_state_follows_edit_messages() {
    let mut edit = EditState::default();
    assert_eq!(edit.tool_state(), ToolState::Pointer);
    assert!(!edit.is_selected(1));
    edit.update(EditMessageKind::ToolChange(Tool::Path));
    assert_eq!(edit.tool_state().tool(), Tool::Path);
    let press = MouseEventKind::Pressed(MouseButton::Left);
    assert_eq!(
        edit.on_mouse_event(press, true),
        Some(EditMessageKind::ToolUpdate(ToolMessageKind::PathStart))
    );
    edit.update(EditMessageKind::ToolUpdate(ToolMessageKind::PathStart));
    assert_eq!(edit.mouse_cursor(), CursorKind::Grabbing);
    edit.update(EditMessageKind::ChangeOption(ToolOptionHandle::StrokeWidth));
    assert_eq!(edit.tool_state().placement_state(), PlacementState::Placing);
    assert_eq!(edit.on_mouse_event(press, false), Some(EditMessageKind::Cancel));
    assert_eq!(edit.on_mouse_event(MouseEventKind::CursorMoved, false), None);
    edit.update(EditMessageKind::Cancel);
    assert_eq!(edit.tool_state(), ToolState::new(Tool::Path));
    edit.switch_tool(Tool::Ellipse);
    assert_eq!(edit.tool_state().tool(), Tool::Ellipse);
}

#[test]
fn a_key_frame_with_nothing_on_it_becomes_empty_when_removed_from() {
    let mut frame = FrameState::Key { entities: std::collections::HashSet::new() };
    frame.remove_entity(&ContainerId(9));
    assert!(matches!(frame, FrameState::Empty));
    let mut frame = FrameState::Key { entities: std::collections::HashSet::new() };
    frame.add_entity(&ContainerId(4));
    assert!(frame.contains_entity(&ContainerId(4)));
}
