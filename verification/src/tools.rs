//! The editor's tools: which tool is active, whether it is placing a shape,
//! which options it takes, and what a mouse event means to it.

use vstd::prelude::*;
use std::collections::HashSet;
use crate::scratch_pad::EditMessageKind;

verus! {

/// The tools of the editor.
#[derive(Clone, Copy, Debug, PartialEq, Eq, Structural)]
pub enum Tool {
    Pointer,
    Path,
    Polygon,
    Ellipse,
    Fill,
    Eyedropper,
}

/// The options a tool can take, without their values.
#[derive(Clone, Copy, Debug, PartialEq, Eq, Hash, Structural)]
pub enum ToolOptionHandle {
    LineColor,
    StrokeWidth,
    LineCap,
    LineJoin,
    FillColor,
    NumEdges,
    ClosedPath,
    CornerRadius,
    UseSuperEllipseApproximation,
}

/// Whether a tool is in the middle of placing a shape.
#[derive(Clone, Copy, Debug, PartialEq, Eq, Structural)]
pub enum PlacementState {
    NotPlacing,
    Placing,
}

/// An 8-bit-per-channel color.
#[derive(Clone, Copy, Debug, PartialEq, Eq, Structural)]
pub struct Rgba8 {
    pub r: u8,
    pub g: u8,
    pub b: u8,
    pub a: u8,
}

/// The state of the active tool. The shape-placing tools hold their placement
/// state; the color tools hold their color.
#[derive(Clone, Copy, Debug, PartialEq, Eq, Structural)]
pub enum ToolState {
    Pointer,
    Path { placement_state: PlacementState },
    Polygon { lock_aspect_ratio: bool, placement_state: PlacementState },
    Ellipse { lock_aspect_ratio: bool, placement_state: PlacementState },
    Fill { color: Rgba8 },
    Eyedropper { color: Rgba8 },
}

/// The mouse cursor a tool shows.
#[derive(Clone, Copy, Debug, PartialEq, Eq, Structural)]
pub enum CursorKind {
    Idle,
    Pointer,
    Grabbing,
}

/// A mouse button.
#[derive(Clone, Copy, Debug, PartialEq, Eq, Structural)]
pub enum MouseButton {
    Left,
    Right,
    Middle,
    Other,
}

/// A mouse event, as far as tools read it.
#[derive(Clone, Copy, Debug, PartialEq, Eq, Structural)]
pub enum MouseEventKind {
    Pressed(MouseButton),
    Released(MouseButton),
    CursorMoved,
    Other,
}

/// The messages a tool sends about the shape it edits (positions and options
/// travel with the message outside the library).
#[derive(Clone, Copy, Debug, PartialEq, Eq, Structural)]
pub enum ToolMessageKind {
    PathStart,
    PathNext,
    PathPlaceHover,
    PathEnd,
    MovePointStart,
    MovePointHover,
    MovePointEnd,
    TemplateStart,
    TemplatePlaceHover,
    TemplateEnd,
}

/// The shapes that can be dragged out from a template.
#[derive(Clone, Copy, Debug, PartialEq, Eq, Structural)]
pub enum Template {
    Ellipse,
    Polygon,
    Rectangle,
}

/// A tool that `ToolState::new` can set up (the color tools cannot be set up yet).
pub open spec fn tool_supported(tool: Tool) -> bool {
    !(tool is Fill) && !(tool is Eyedropper)
}

/// The fresh state of `tool`.
pub open spec fn fresh_state(tool: Tool) -> ToolState {
    match tool {
        Tool::Pointer => ToolState::Pointer,
        Tool::Path => ToolState::Path { placement_state: PlacementState::NotPlacing },
        Tool::Polygon => ToolState::Polygon {
            lock_aspect_ratio: false,
            placement_state: PlacementState::NotPlacing,
        },
        _ => ToolState::Ellipse {
            lock_aspect_ratio: false,
            placement_state: PlacementState::NotPlacing,
        },
    }
}

/// The tool whose state `s` is.
pub open spec fn tool_of(s: ToolState) -> Tool {
    match s {
        ToolState::Pointer => Tool::Pointer,
        ToolState::Path { .. } => Tool::Path,
        ToolState::Polygon { .. } => Tool::Polygon,
        ToolState::Ellipse { .. } => Tool::Ellipse,
        ToolState::Fill { .. } => Tool::Fill,
        ToolState::Eyedropper { .. } => Tool::Eyedropper,
    }
}

/// The placement state of `s` (tools that place nothing never place).
pub open spec fn placement_of(s: ToolState) -> PlacementState {
    match s {
        ToolState::Path { placement_state } => placement_state,
        ToolState::Polygon { placement_state, .. } => placement_state,
        ToolState::Ellipse { placement_state, .. } => placement_state,
        _ => PlacementState::NotPlacing,
    }
}

/// The tool with state `s` takes the option `handle`.
pub open spec fn takes_option(s: ToolState, handle: ToolOptionHandle) -> bool {
    match handle {
        ToolOptionHandle::LineColor | ToolOptionHandle::StrokeWidth | ToolOptionHandle::FillColor => (
        s is Path || s is Ellipse || s is Polygon),
        ToolOptionHandle::LineCap | ToolOptionHandle::ClosedPath => s is Path,
        ToolOptionHandle::LineJoin => s is Path || s is Polygon,
        ToolOptionHandle::NumEdges => s is Polygon,
        _ => false,
    }
}

/// The message that the tool with state `s` sends for the mouse event `e` inside
/// the stage (the path tool is the only one that reacts yet).
pub open spec fn message_for(s: ToolState, e: MouseEventKind) -> Option<ToolMessageKind> {
    match s {
        ToolState::Path { placement_state } => match e {
            MouseEventKind::Pressed(MouseButton::Left) => if placement_state is NotPlacing {
                Some(ToolMessageKind::PathStart)
            } else {
                Some(ToolMessageKind::PathNext)
            },
            MouseEventKind::Pressed(_) => if placement_state is NotPlacing {
                None
            } else {
                Some(ToolMessageKind::PathEnd)
            },
            MouseEventKind::CursorMoved => if placement_state is Placing {
                Some(ToolMessageKind::PathPlaceHover)
            } else {
                None
            },
            _ => None,
        },
        _ => None,
    }
}

/// A tool whose reaction to mouse events is defined (the pointer ignores them,
/// the path tool places paths).
pub open spec fn reacts_to_mouse(s: ToolState) -> bool {
    s is Pointer || s is Path
}

impl ToolState {
    /// The fresh state of `tool`: not placing anything.
    pub fn new(tool: Tool) -> (r: ToolState)
        requires
            tool_supported(tool),
        ensures
            r == fresh_state(tool),
    {
        match tool {
            Tool::Pointer => ToolState::Pointer,
            Tool::Path => ToolState::Path { placement_state: PlacementState::NotPlacing },
            Tool::Polygon => ToolState::Polygon {
                lock_aspect_ratio: false,
                placement_state: PlacementState::NotPlacing,
            },
            _ => ToolState::Ellipse {
                lock_aspect_ratio: false,
                placement_state: PlacementState::NotPlacing,
            },
        }
    }

    /// Switches to the fresh state of `tool`.
    pub fn switch_tool(&mut self, tool: Tool)
        requires
            tool_supported(tool),
        ensures
            *final(self) == fresh_state(tool),
    {
        *self = ToolState::new(tool);
    }

    /// Abandons what the tool was doing: back to the fresh state of the same tool.
    pub fn cancel_action(&mut self)
        requires
            tool_supported(tool_of(*old(self))),
        ensures
            *final(self) == fresh_state(tool_of(*old(self))),
    {
        let tool = self.tool();
        *self = ToolState::new(tool);
    }

    /// The tool whose state this is.
    pub fn tool(&self) -> (r: Tool)
        ensures
            r == tool_of(*self),
    {
        match self {
            ToolState::Pointer => Tool::Pointer,
            ToolState::Path { .. } => Tool::Path,
            ToolState::Polygon { .. } => Tool::Polygon,
            ToolState::Ellipse { .. } => Tool::Ellipse,
            ToolState::Fill { .. } => Tool::Fill,
            ToolState::Eyedropper { .. } => Tool::Eyedropper,
        }
    }

    /// Whether the tool is placing a shape.
    pub fn placement_state(&self) -> (r: PlacementState)
        ensures
            r == placement_of(*self),
    {
        match self {
            ToolState::Path { placement_state } => *placement_state,
            ToolState::Polygon { placement_state, .. } => *placement_state,
            ToolState::Ellipse { placement_state, .. } => *placement_state,
            _ => PlacementState::NotPlacing,
        }
    }

    /// The path tool starts placing; other tools are unchanged.
    pub fn start_placing(&mut self)
        ensures
            *final(self) == (if *old(self) is Path {
                ToolState::Path { placement_state: PlacementState::Placing }
            } else {
                *old(self)
            }),
    {
        if let ToolState::Path { .. } = self {
            *self = ToolState::Path { placement_state: PlacementState::Placing };
        }
    }

    /// The path tool stops placing; other tools are unchanged.
    pub fn stop_placing(&mut self)
        ensures
            *final(self) == (if *old(self) is Path {
                ToolState::Path { placement_state: PlacementState::NotPlacing }
            } else {
                *old(self)
            }),
    {
        if let ToolState::Path { .. } = self {
            *self = ToolState::Path { placement_state: PlacementState::NotPlacing };
        }
    }

    /// The cursor: idle for the pointer, grabbing while placing, a pointer otherwise.
    pub fn mouse_cursor(&self) -> (r: CursorKind)
        ensures
            r == (if *self is Pointer {
                CursorKind::Idle
            } else if placement_of(*self) is Placing {
                CursorKind::Grabbing
            } else {
                CursorKind::Pointer
            }),
    {
        match self {
            ToolState::Pointer => CursorKind::Idle,
            _ => match self.placement_state() {
                PlacementState::NotPlacing => CursorKind::Pointer,
                PlacementState::Placing => CursorKind::Grabbing,
            },
        }
    }

    /// Whether the tool takes the option `handle`.
    pub fn takes_option(&self, handle: ToolOptionHandle) -> (r: bool)
        ensures
            r == takes_option(*self, handle),
    {
        match handle {
            ToolOptionHandle::LineColor | ToolOptionHandle::StrokeWidth
            | ToolOptionHandle::FillColor => match self {
                ToolState::Path { .. } | ToolState::Ellipse { .. } | ToolState::Polygon { .. } => true,
                _ => false,
            },
            ToolOptionHandle::LineCap | ToolOptionHandle::ClosedPath => match self {
                ToolState::Path { .. } => true,
                _ => false,
            },
            ToolOptionHandle::LineJoin => match self {
                ToolState::Path { .. } | ToolState::Polygon { .. } => true,
                _ => false,
            },
            ToolOptionHandle::NumEdges => match self {
                ToolState::Polygon { .. } => true,
                _ => false,
            },
            _ => false,
        }
    }

    /// The options of `options` (each given with its handle) that the tool
    /// takes, in their order.
    pub fn get_options<T>(&self, options: Vec<(ToolOptionHandle, T)>) -> (r: Vec<
        (ToolOptionHandle, T),
    >)
        ensures
            r@ == options@.filter(|o: (ToolOptionHandle, T)| takes_option(*self, o.0)),
    {
        let ghost keep = |o: (ToolOptionHandle, T)| takes_option(*self, o.0);
        let ghost all = options@;
        let mut options = options;
        let mut kept: Vec<(ToolOptionHandle, T)> = Vec::new();
        let mut done: usize = 0;
        assert(all.len() == options.len());
        assert(all.take(0).filter(keep) =~= Seq::<(ToolOptionHandle, T)>::empty()) by {
            reveal(Seq::filter);
        }
        while options.len() > 0
            invariant
                done <= all.len(),
                all.len() <= usize::MAX,
                options@ == all.skip(done as int),
                kept@ == all.take(done as int).filter(keep),
                keep == (|o: (ToolOptionHandle, T)| takes_option(*self, o.0)),
            decreases options@.len(),
        {
            let option = options.remove(0);
            proof {
                assert(option == all[done as int]);
                assert(all.take(done + 1) =~= all.take(done as int).push(option));
                all.take(done as int).lemma_filter_push(option, keep);
                assert(options@ =~= all.skip(done + 1));
            }
            if self.takes_option(option.0) {
                kept.push(option);
            }
            done = done + 1;
        }
        assert(all.take(done as int) =~= all);
        kept
    }

    /// The message the tool sends for the mouse event `mouse_event` inside the stage.
    pub fn on_mouse_event(&self, mouse_event: MouseEventKind) -> (r: Option<ToolMessageKind>)
        requires
            reacts_to_mouse(*self),
        ensures
            r == message_for(*self, mouse_event),
    {
        match self {
            ToolState::Path { placement_state } => match mouse_event {
                MouseEventKind::Pressed(MouseButton::Left) => match placement_state {
                    PlacementState::NotPlacing => Some(ToolMessageKind::PathStart),
                    PlacementState::Placing => Some(ToolMessageKind::PathNext),
                },
                MouseEventKind::Pressed(_) => match placement_state {
                    PlacementState::NotPlacing => None,
                    PlacementState::Placing => Some(ToolMessageKind::PathEnd),
                },
                MouseEventKind::CursorMoved => match placement_state {
                    PlacementState::Placing => Some(ToolMessageKind::PathPlaceHover),
                    PlacementState::NotPlacing => None,
                },
                _ => None,
            },
            _ => None,
        }
    }

    /// Follows a message the tool sent: a path start starts placing, a path end stops it.
    pub fn update(&mut self, tool_message: ToolMessageKind)
        ensures
            *final(self) == (match tool_message {
                ToolMessageKind::PathStart => if *old(self) is Path {
                    ToolState::Path { placement_state: PlacementState::Placing }
                } else {
                    *old(self)
                },
                ToolMessageKind::PathEnd => if *old(self) is Path {
                    ToolState::Path { placement_state: PlacementState::NotPlacing }
                } else {
                    *old(self)
                },
                _ => *old(self),
            }),
    {
        match tool_message {
            ToolMessageKind::PathStart => self.start_placing(),
            ToolMessageKind::PathEnd => self.stop_placing(),
            _ => (),
        }
    }
}

impl Default for ToolState {
    fn default() -> (r: ToolState)
        ensures
            r == ToolState::Pointer,
    {
        ToolState::new(Tool::Pointer)
    }
}

broadcast use vstd::std_specs::hash::group_hash_axioms;

/// The tool state after the edit message `msg`: a tool update moves the
/// placement on, a tool change gives the fresh state of the new tool, a
/// cancel the fresh state of the same tool; an option change leaves it.
pub open spec fn tool_after_edit(s: ToolState, msg: EditMessageKind) -> ToolState {
    match msg {
        EditMessageKind::ToolUpdate(m) => match m {
            ToolMessageKind::PathStart => if s is Path {
                ToolState::Path { placement_state: PlacementState::Placing }
            } else {
                s
            },
            ToolMessageKind::PathEnd => if s is Path {
                ToolState::Path { placement_state: PlacementState::NotPlacing }
            } else {
                s
            },
            _ => s,
        },
        EditMessageKind::ToolChange(tool) => fresh_state(tool),
        EditMessageKind::Cancel => fresh_state(tool_of(s)),
        EditMessageKind::ChangeOption(_) => s,
    }
}

/// The edit message `msg` can be followed: a tool change names a tool that
/// can be set up, and a cancel happens with such a tool.
pub open spec fn edit_supported(s: ToolState, msg: EditMessageKind) -> bool {
    &&& msg matches EditMessageKind::ToolChange(tool) ==> tool_supported(tool)
    &&& msg is Cancel ==> tool_supported(tool_of(s))
}

/// The editing state of the editor: the active tool and the selected containers.
#[derive(Debug)]
pub struct EditState {
    tool_state: ToolState,
    selection: HashSet<u128>,
}

/// The abstract state of editing.
pub struct EditStateView {
    pub tool_state: ToolState,
    pub selection: Set<u128>,
}

impl View for EditState {
    type V = EditStateView;

    closed spec fn view(&self) -> EditStateView {
        EditStateView { tool_state: self.tool_state, selection: self.selection@ }
    }
}

impl EditState {
    /// The pointer tool, nothing selected.
    pub fn new() -> (r: EditState)
        ensures
            r@.tool_state == ToolState::Pointer,
            r@.selection == Set::<u128>::empty(),
    {
        EditState { tool_state: ToolState::new(Tool::Pointer), selection: HashSet::new() }
    }

    /// The state of the active tool.
    pub fn tool_state(&self) -> (r: ToolState)
        ensures
            r == self@.tool_state,
    {
        self.tool_state
    }

    /// Whether the container `id` is selected.
    pub fn is_selected(&self, id: u128) -> (r: bool)
        ensures
            r == self@.selection.contains(id),
    {
        self.selection.contains(&id)
    }

    /// Switches to the fresh state of `tool`; the selection stays.
    pub fn switch_tool(&mut self, tool: Tool)
        requires
            tool_supported(tool),
        ensures
            final(self)@.tool_state == fresh_state(tool),
            final(self)@.selection == old(self)@.selection,
    {
        self.tool_state.switch_tool(tool);
    }

    /// The mouse cursor of the active tool.
    pub fn mouse_cursor(&self) -> (r: CursorKind)
        ensures
            r == (if self@.tool_state is Pointer {
                CursorKind::Idle
            } else if placement_of(self@.tool_state) is Placing {
                CursorKind::Grabbing
            } else {
                CursorKind::Pointer
            }),
    {
        self.tool_state.mouse_cursor()
    }

    /// The edit message for a mouse event: outside the stage a press cancels
    /// and anything else is ignored; inside, the active tool's message.
    pub fn on_mouse_event(&self, mouse_event: MouseEventKind, in_bounds: bool) -> (r: Option<
        EditMessageKind,
    >)
        requires
            in_bounds ==> reacts_to_mouse(self@.tool_state),
        ensures
            !in_bounds ==> r == (if mouse_event is Pressed {
                Some(EditMessageKind::Cancel)
            } else {
                None
            }),
            in_bounds ==> r == (match message_for(self@.tool_state, mouse_event) {
                Some(m) => Some(EditMessageKind::ToolUpdate(m)),
                None => None,
            }),
    {
        if !in_bounds {
            match mouse_event {
                MouseEventKind::Pressed(_) => Some(EditMessageKind::Cancel),
                _ => None,
            }
        } else {
            match self.tool_state.on_mouse_event(mouse_event) {
                Some(m) => Some(EditMessageKind::ToolUpdate(m)),
                None => None,
            }
        }
    }

    /// Follows an edit message: the tool state moves on (see
    /// `tool_after_edit`) and a cancel also clears the selection. Option
    /// values are kept by the editor beside this state.
    pub fn update(&mut self, message: EditMessageKind)
        requires
            edit_supported(old(self)@.tool_state, message),
        ensures
            final(self)@.tool_state == tool_after_edit(old(self)@.tool_state, message),
            final(self)@.selection == (if message is Cancel {
                Set::<u128>::empty()
            } else {
                old(self)@.selection
            }),
    {
        match message {
            EditMessageKind::ToolUpdate(tool_message) => self.tool_state.update(tool_message),
            EditMessageKind::ToolChange(tool) => self.switch_tool(tool),
            EditMessageKind::Cancel => {
                self.tool_state.cancel_action();
                self.selection.clear();
            },
            EditMessageKind::ChangeOption(_) => {},
        }
    }
}

impl Default for EditState {
    fn default() -> (r: EditState)
        ensures
            r@.tool_state == ToolState::Pointer,
            r@.selection == Set::<u128>::empty(),
    {
        EditState::new()
    }
}

/// A cancel always leaves the editor with its tool, placing nothing, and nothing selected.
pub proof fn law_cancel_resets_editing(s: ToolState)
    requires
        tool_supported(tool_of(s)),
    ensures
        tool_of(tool_after_edit(s, EditMessageKind::Cancel)) == tool_of(s),
        placement_of(tool_after_edit(s, EditMessageKind::Cancel)) is NotPlacing,
{
}

/// Switching to a tool that can be set up gives that tool, not placing anything.
pub proof fn law_switch_gives_fresh_tool(tool: Tool)
    requires
        tool_supported(tool),
    ensures
        tool_of(fresh_state(tool)) == tool,
        placement_of(fresh_state(tool)) is NotPlacing,
{
}

/// Cancelling keeps the tool and stops any placement.
pub proof fn law_cancel_keeps_tool(s: ToolState)
    requires
        tool_supported(tool_of(s)),
    ensures
        tool_of(fresh_state(tool_of(s))) == tool_of(s),
        placement_of(fresh_state(tool_of(s))) is NotPlacing,
{
}

/// The pointer tool sends no shape message, whatever the mouse does.
pub proof fn law_pointer_sends_nothing(mouse_event: MouseEventKind)
    ensures
        message_for(ToolState::Pointer, mouse_event) is None,
{
}

/// Only a press places points: a release, or an event that is neither a
/// press, a release nor a move, never gives a tool message, whatever the
/// tool. A path is started, extended or ended only by a press; only the path
/// tool sends messages; a path is started only when none is being placed,
/// and every other message comes while one is.
pub proof fn law_only_presses_place_points(s: ToolState, e: MouseEventKind)
    ensures
        e is Released ==> message_for(s, e) is None,
        e is Other ==> message_for(s, e) is None,
        message_for(s, e) matches Some(m) && (m is PathStart || m is PathNext || m is PathEnd) ==> e is Pressed,
        message_for(s, e) is Some ==> s is Path,
        message_for(s, e) == Some(ToolMessageKind::PathStart) ==> placement_of(s) is NotPlacing,
        message_for(s, e) matches Some(m) && !(m is PathStart) ==> placement_of(s) is Placing,
{
}

/// One path drawn with the mouse: a left press on the path tool starts a path;
/// once started, a left press adds the next point, a release adds nothing,
/// a move shows where the next point would go and a press of another button
/// ends the path; once ended, the tool is as it was and a left press starts a
/// new path.
pub proof fn law_path_click_cycle(b: MouseButton)
    ensures
        ({
            let idle = ToolState::Path { placement_state: PlacementState::NotPlacing };
            let placing = tool_after_edit(idle, EditMessageKind::ToolUpdate(ToolMessageKind::PathStart));
            &&& message_for(idle, MouseEventKind::Pressed(MouseButton::Left)) == Some(ToolMessageKind::PathStart)
            &&& message_for(idle, MouseEventKind::Released(b)) is None
            &&& message_for(idle, MouseEventKind::CursorMoved) is None
            &&& placement_of(placing) is Placing
            &&& message_for(placing, MouseEventKind::Pressed(MouseButton::Left)) == Some(ToolMessageKind::PathNext)
            &&& message_for(placing, MouseEventKind::Released(b)) is None
            &&& message_for(placing, MouseEventKind::CursorMoved) == Some(ToolMessageKind::PathPlaceHover)
            &&& b != MouseButton::Left ==> message_for(placing, MouseEventKind::Pressed(b)) == Some(
                ToolMessageKind::PathEnd,
            )
            &&& b != MouseButton::Left ==> message_for(idle, MouseEventKind::Pressed(b)) is None
            &&& tool_after_edit(placing, EditMessageKind::ToolUpdate(ToolMessageKind::PathNext)) == placing
            &&& tool_after_edit(placing, EditMessageKind::ToolUpdate(ToolMessageKind::PathEnd)) == idle
        }),
{
}

/// The shape tools (path, ellipse, polygon) all take a line color, a stroke
/// width and a fill color. Beyond those, only the path takes a line cap and a
/// closed-path switch, the path and the polygon a line join, and the polygon
/// a number of edges; no tool takes a corner radius or the super-ellipse
/// switch, and the other tools take no option at all.
pub proof fn law_shape_tools_share_options(s: ToolState, h: ToolOptionHandle)
    ensures
        (s is Path || s is Ellipse || s is Polygon) ==> takes_option(s, ToolOptionHandle::LineColor)
            && takes_option(s, ToolOptionHandle::StrokeWidth) && takes_option(s, ToolOptionHandle::FillColor),
        !(s is Path || s is Ellipse || s is Polygon) ==> !takes_option(s, h),
        s is Ellipse ==> (takes_option(s, h) <==> (h == ToolOptionHandle::LineColor || h
            == ToolOptionHandle::StrokeWidth || h == ToolOptionHandle::FillColor)),
        s is Polygon ==> (takes_option(s, h) <==> (h == ToolOptionHandle::LineColor || h
            == ToolOptionHandle::StrokeWidth || h == ToolOptionHandle::FillColor || h
            == ToolOptionHandle::LineJoin || h == ToolOptionHandle::NumEdges)),
        s is Path ==> (takes_option(s, h) <==> (h == ToolOptionHandle::LineColor || h
            == ToolOptionHandle::StrokeWidth || h == ToolOptionHandle::FillColor || h
            == ToolOptionHandle::LineJoin || h == ToolOptionHandle::LineCap || h
            == ToolOptionHandle::ClosedPath)),
{
}

} // verus!
