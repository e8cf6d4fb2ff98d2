//! The editor's scratch pad: which edit is in progress, which tool messages
//! each edit accepts and what they ask to be done, and the edges of a path
//! being drawn, with the one edge that still follows the cursor.

use vstd::prelude::*;
use crate::tools::{Tool, ToolMessageKind, ToolOptionHandle};

verus! {

/// The edit in progress on the scratch pad.
#[derive(Clone, Copy, Debug, PartialEq, Eq, Structural)]
pub enum ScratchPadMode {
    /// A path is being drawn edge by edge.
    NewPath,
    /// A shape from a template (ellipse, polygon, rectangle) is being dragged out.
    NewTemplateShape,
    /// A vertex of an existing shape is being dragged.
    EditVertexes,
    /// No edit is in progress.
    Idle,
}

/// An edit message of the editor, as far as the scratch pad reads it.
#[derive(Clone, Copy, Debug, PartialEq, Eq, Structural)]
pub enum EditMessageKind {
    ToolUpdate(ToolMessageKind),
    ChangeOption(ToolOptionHandle),
    ToolChange(Tool),
    Cancel,
}

/// The work an accepted edit message asks of the engine and the library.
#[derive(Clone, Copy, Debug, PartialEq, Eq, Structural)]
pub enum ScratchPadWork {
    /// Create the container and the shape of a new path at the start position.
    StartPath,
    /// Commit a new edge at the given position.
    NextEdge,
    /// Show an edge to the cursor without committing it.
    PreviewEdge,
    /// Store the finished path, or drop it when it has no edge.
    CompletePath,
    /// Pick the vertex of the selection to drag.
    StartDrag,
    /// Show the vertex at the cursor.
    PreviewDrag,
    /// Store the shape with the moved vertex.
    CompleteDrag,
    /// Create the container and the shape of a new template shape.
    StartTemplate,
    /// Show the template shape up to the cursor.
    PreviewTemplate,
    /// Store the finished template shape, or drop it when it has no extent.
    CompleteTemplate,
    /// Nothing: the message is not one the scratch pad handles.
    Nothing,
}

/// The error text for a message that the current edit does not expect.
pub open spec fn unexpected(name: Seq<char>) -> Seq<char> {
    "Unexpected Message \""@ + name + "\""@
}

/// What the message `msg` asks in mode `mode`: the work to do, or the error
/// text when the message does not fit the edit in progress.
pub open spec fn work_for(mode: ScratchPadMode, msg: EditMessageKind) -> Result<ScratchPadWork, Seq<char>> {
    match msg {
        EditMessageKind::ToolUpdate(tool_message) => match tool_message {
            ToolMessageKind::PathStart => if mode is Idle {
                Ok(ScratchPadWork::StartPath)
            } else {
                Err("Attempting to start a new path while an edit was in progress"@)
            },
            ToolMessageKind::PathNext => if mode is NewPath {
                Ok(ScratchPadWork::NextEdge)
            } else {
                Err(unexpected("PathNext"@))
            },
            ToolMessageKind::PathPlaceHover => if mode is NewPath {
                Ok(ScratchPadWork::PreviewEdge)
            } else {
                Err(unexpected("PathPlaceHover"@))
            },
            ToolMessageKind::PathEnd => if mode is NewPath {
                Ok(ScratchPadWork::CompletePath)
            } else {
                Err(unexpected("PathEnd"@))
            },
            ToolMessageKind::MovePointStart => if mode is Idle {
                Ok(ScratchPadWork::StartDrag)
            } else {
                Err("Attempting to edit a vertex while edit in progress"@)
            },
            ToolMessageKind::MovePointHover => if mode is EditVertexes {
                Ok(ScratchPadWork::PreviewDrag)
            } else {
                Err(unexpected("MovePointHover"@))
            },
            ToolMessageKind::MovePointEnd => if mode is EditVertexes {
                Ok(ScratchPadWork::CompleteDrag)
            } else {
                Err(unexpected("PathEnd"@))
            },
            ToolMessageKind::TemplateStart => if mode is Idle {
                Ok(ScratchPadWork::StartTemplate)
            } else {
                Err("Attempting to start a new ellipse while an edit was in progress"@)
            },
            ToolMessageKind::TemplatePlaceHover => if mode is NewTemplateShape {
                Ok(ScratchPadWork::PreviewTemplate)
            } else {
                Err(unexpected("TemplatePlaceHover"@))
            },
            ToolMessageKind::TemplateEnd => if mode is NewTemplateShape {
                Ok(ScratchPadWork::CompleteTemplate)
            } else {
                Err(unexpected("TemplateEnd"@))
            },
        },
        _ => Ok(ScratchPadWork::Nothing),
    }
}

/// The mode after `work` was done in mode `mode`.
pub open spec fn mode_after(mode: ScratchPadMode, work: ScratchPadWork) -> ScratchPadMode {
    match work {
        ScratchPadWork::StartPath | ScratchPadWork::NextEdge | ScratchPadWork::PreviewEdge => ScratchPadMode::NewPath,
        ScratchPadWork::StartDrag | ScratchPadWork::PreviewDrag => ScratchPadMode::EditVertexes,
        ScratchPadWork::StartTemplate | ScratchPadWork::PreviewTemplate => ScratchPadMode::NewTemplateShape,
        ScratchPadWork::CompletePath | ScratchPadWork::CompleteDrag | ScratchPadWork::CompleteTemplate => ScratchPadMode::Idle,
        ScratchPadWork::Nothing => mode,
    }
}

/// Whether the scene changed through `work`: every step but starting an edit
/// (and doing nothing) changes what is shown.
pub open spec fn scene_changed(work: ScratchPadWork) -> bool {
    !(work is StartPath || work is StartDrag || work is StartTemplate || work is Nothing)
}

/// The edit in progress, and the rules by which tool messages move it on.
#[derive(Debug)]
pub struct ScratchPad {
    mode: ScratchPadMode,
}

impl ScratchPad {
    /// A scratch pad with no edit in progress.
    pub fn new() -> (r: ScratchPad)
        ensures
            r.mode_spec() is Idle,
    {
        ScratchPad { mode: ScratchPadMode::Idle }
    }

    /// The edit in progress.
    pub closed spec fn mode_spec(&self) -> ScratchPadMode {
        self.mode
    }

    /// The edit in progress.
    pub fn mode(&self) -> (r: ScratchPadMode)
        ensures
            r == self.mode_spec(),
    {
        self.mode
    }

    /// What `msg` asks of the engine in the current edit, or the error the
    /// editor reports when the message does not fit it.
    pub fn plan_edit(&self, msg: EditMessageKind) -> (r: Result<ScratchPadWork, String>)
        ensures
            match (r, work_for(self.mode_spec(), msg)) {
                (Ok(w), Ok(expected)) => w == expected,
                (Err(text), Err(expected)) => text@ == expected,
                _ => false,
            },
    {
        let mode = self.mode;
        match msg {
            EditMessageKind::ToolUpdate(tool_message) => match tool_message {
                ToolMessageKind::PathStart => match mode {
                    ScratchPadMode::Idle => Ok(ScratchPadWork::StartPath),
                    _ => Err(
                        String::from_str(
                            "Attempting to start a new path while an edit was in progress",
                        ),
                    ),
                },
                ToolMessageKind::PathNext => match mode {
                    ScratchPadMode::NewPath => Ok(ScratchPadWork::NextEdge),
                    _ => Err(unexpected_message("PathNext")),
                },
                ToolMessageKind::PathPlaceHover => match mode {
                    ScratchPadMode::NewPath => Ok(ScratchPadWork::PreviewEdge),
                    _ => Err(unexpected_message("PathPlaceHover")),
                },
                ToolMessageKind::PathEnd => match mode {
                    ScratchPadMode::NewPath => Ok(ScratchPadWork::CompletePath),
                    _ => Err(unexpected_message("PathEnd")),
                },
                ToolMessageKind::MovePointStart => match mode {
                    ScratchPadMode::Idle => Ok(ScratchPadWork::StartDrag),
                    _ => Err(String::from_str("Attempting to edit a vertex while edit in progress")),
                },
                ToolMessageKind::MovePointHover => match mode {
                    ScratchPadMode::EditVertexes => Ok(ScratchPadWork::PreviewDrag),
                    _ => Err(unexpected_message("MovePointHover")),
                },
                ToolMessageKind::MovePointEnd => match mode {
                    ScratchPadMode::EditVertexes => Ok(ScratchPadWork::CompleteDrag),
                    _ => Err(unexpected_message("PathEnd")),
                },
                ToolMessageKind::TemplateStart => match mode {
                    ScratchPadMode::Idle => Ok(ScratchPadWork::StartTemplate),
                    _ => Err(
                        String::from_str(
                            "Attempting to start a new ellipse while an edit was in progress",
                        ),
                    ),
                },
                ToolMessageKind::TemplatePlaceHover => match mode {
                    ScratchPadMode::NewTemplateShape => Ok(ScratchPadWork::PreviewTemplate),
                    _ => Err(unexpected_message("TemplatePlaceHover")),
                },
                ToolMessageKind::TemplateEnd => match mode {
                    ScratchPadMode::NewTemplateShape => Ok(ScratchPadWork::CompleteTemplate),
                    _ => Err(unexpected_message("TemplateEnd")),
                },
            },
            _ => Ok(ScratchPadWork::Nothing),
        }
    }

    /// Ends the handling of an edit message whose work was `work`: when the
    /// work succeeded the edit moves on and the result says whether the scene
    /// changed; when it failed the edit stays where it was and the error is
    /// handed back.
    pub fn finish_edit(&mut self, work: ScratchPadWork, outcome: Result<(), String>) -> (r: Result<
        bool,
        String,
    >)
        ensures
            outcome is Ok ==> {
                &&& final(self).mode_spec() == mode_after(old(self).mode_spec(), work)
                &&& r == Ok::<bool, String>(scene_changed(work))
            },
            outcome matches Err(e) ==> {
                &&& final(self).mode_spec() == old(self).mode_spec()
                &&& r == Err::<bool, String>(e)
            },
    {
        match outcome {
            Err(e) => Err(e),
            Ok(()) => {
                let (next, changed) = match work {
                    ScratchPadWork::StartPath => (ScratchPadMode::NewPath, false),
                    ScratchPadWork::NextEdge => (ScratchPadMode::NewPath, true),
                    ScratchPadWork::PreviewEdge => (ScratchPadMode::NewPath, true),
                    ScratchPadWork::CompletePath => (ScratchPadMode::Idle, true),
                    ScratchPadWork::StartDrag => (ScratchPadMode::EditVertexes, false),
                    ScratchPadWork::PreviewDrag => (ScratchPadMode::EditVertexes, true),
                    ScratchPadWork::CompleteDrag => (ScratchPadMode::Idle, true),
                    ScratchPadWork::StartTemplate => (ScratchPadMode::NewTemplateShape, false),
                    ScratchPadWork::PreviewTemplate => (ScratchPadMode::NewTemplateShape, true),
                    ScratchPadWork::CompleteTemplate => (ScratchPadMode::Idle, true),
                    ScratchPadWork::Nothing => (self.mode, false),
                };
                self.mode = next;
                Ok(changed)
            },
        }
    }
}

impl Default for ScratchPad {
    fn default() -> (r: ScratchPad)
        ensures
            r.mode_spec() is Idle,
    {
        ScratchPad::new()
    }
}

/// The error text for the message called `name` arriving when the edit in
/// progress does not expect it.
fn unexpected_message(name: &str) -> (r: String)
    ensures
        r@ == unexpected(name@),
{
    let mut text = String::from_str("Unexpected Message \"");
    text.append(name);
    text.append("\"");
    text
}

/// The abstract state of a path being drawn: the committed edges, the edge
/// that follows the cursor (if any), and whether the path will be closed.
#[verifier::ext_equal]
pub struct PathBufferView<E> {
    pub committed: Seq<E>,
    pub preview: Option<E>,
    pub close_path: bool,
}

/// The edges shown for a path: the committed ones, then the preview edge.
pub open spec fn shown_edges<E>(v: PathBufferView<E>) -> Seq<E> {
    match v.preview {
        Some(e) => v.committed.push(e),
        None => v.committed,
    }
}

/// The edges `edges`, followed by the closing edge `close` when the path is closed.
pub open spec fn with_close<E>(edges: Seq<E>, close_path: bool, close: E) -> Seq<E> {
    if close_path {
        edges.push(close)
    } else {
        edges
    }
}

/// The path `v` after committing `edge` in place of its preview.
pub open spec fn after_next_edge<E>(v: PathBufferView<E>, edge: E) -> PathBufferView<E> {
    PathBufferView { committed: v.committed.push(edge), preview: None, close_path: v.close_path }
}

/// The path `v` showing `edge` after its committed edges, in place of its preview.
pub open spec fn after_preview<E>(v: PathBufferView<E>, edge: E) -> PathBufferView<E> {
    PathBufferView { committed: v.committed, preview: Some(edge), close_path: v.close_path }
}

/// The edges of a path being drawn. The first edge moves to the start
/// position; each committed edge stays; at most one more edge, the preview,
/// follows the cursor and is replaced by the next one.
#[derive(Debug)]
pub struct PathBuffer<E> {
    edges: Vec<E>,
    committed: usize,
    close_path: bool,
}

impl<E> View for PathBuffer<E> {
    type V = PathBufferView<E>;

    closed spec fn view(&self) -> PathBufferView<E> {
        PathBufferView {
            committed: self.edges@.take(self.committed as int),
            preview: if self.committed < self.edges@.len() {
                Some(self.edges@.last())
            } else {
                None
            },
            close_path: self.close_path,
        }
    }
}

impl<E> PathBuffer<E> {
    /// Well-formedness: at least the first edge is committed, and at most one
    /// edge follows.
    pub closed spec fn wf(&self) -> bool {
        &&& 1 <= self.committed <= self.edges@.len() <= self.committed + 1
    }
}

impl<E: Copy> PathBuffer<E> {
    /// A path whose only edge is `first`, committed, with no preview.
    pub fn start(first: E, close_path: bool) -> (r: PathBuffer<E>)
        ensures
            r.wf(),
            r@.committed == seq![first],
            r@.preview is None,
            r@.close_path == close_path,
    {
        let mut edges: Vec<E> = Vec::new();
        edges.push(first);
        let r = PathBuffer { edges, committed: 1, close_path };
        assert(r@.committed =~= seq![first]);
        r
    }

    /// Drops the preview edge, if there is one.
    fn drop_preview(&mut self)
        requires
            old(self).wf(),
        ensures
            final(self).wf(),
            final(self)@.committed == old(self)@.committed,
            final(self)@.preview is None,
            final(self)@.close_path == old(self)@.close_path,
            final(self).committed == final(self).edges@.len(),
    {
        if self.committed < self.edges.len() {
            self.edges.pop();
        }
        assert(self.edges@.take(self.committed as int) =~= old(self)@.committed);
    }

    /// Commits `edge` in place of the preview: it follows the committed edges.
    pub fn next_edge(&mut self, edge: E)
        requires
            old(self).wf(),
        ensures
            final(self).wf(),
            final(self)@ == after_next_edge(old(self)@, edge),
    {
        self.drop_preview();
        self.edges.push(edge);
        self.committed = self.edges.len();
        assert(self.edges@.take(self.committed as int) =~= old(self)@.committed.push(edge));
    }

    /// Shows `edge` after the committed edges, in place of the previous preview.
    pub fn update_preview_edge(&mut self, edge: E)
        requires
            old(self).wf(),
        ensures
            final(self).wf(),
            final(self)@ == after_preview(old(self)@, edge),
    {
        self.drop_preview();
        self.edges.push(edge);
        assert(self.edges@.take(self.committed as int) =~= old(self)@.committed);
    }

    /// The edges to show for the path: those committed, the preview, and the
    /// closing edge `close` when the path is closed.
    pub fn shown(&self, close: E) -> (r: Vec<E>)
        requires
            self.wf(),
        ensures
            r@ == with_close(shown_edges(self@), self@.close_path, close),
    {
        let mut r: Vec<E> = Vec::new();
        let mut i: usize = 0;
        while i < self.edges.len()
            invariant
                0 <= i <= self.edges@.len(),
                r@ == self.edges@.take(i as int),
            decreases self.edges@.len() - i,
        {
            r.push(self.edges[i]);
            i = i + 1;
            assert(r@ =~= self.edges@.take(i as int));
        }
        if self.close_path {
            r.push(close);
        }
        proof {
            if self.committed < self.edges@.len() {
                assert(self.edges@ =~= self.edges@.take(self.committed as int).push(self.edges@.last()));
            } else {
                assert(self.edges@ =~= self.edges@.take(self.committed as int));
            }
        }
        r
    }

    /// Finishes the path: the preview is dropped; a path with no edge beyond
    /// its start is discarded (`None`), any other gives its committed edges,
    /// with the closing edge `close` when the path is closed.
    pub fn complete(self, close: E) -> (r: Option<Vec<E>>)
        requires
            self.wf(),
        ensures
            self@.committed.len() <= 1 ==> r is None,
            self@.committed.len() > 1 ==> (r matches Some(edges) && edges@ == with_close(
                self@.committed,
                self@.close_path,
                close,
            )),
    {
        let ghost committed = self@.committed;
        let mut buffer = self;
        buffer.drop_preview();
        if buffer.committed <= 1 {
            return None;
        }
        let PathBuffer { mut edges, committed: _, close_path } = buffer;
        assert(edges@ =~= committed);
        if close_path {
            edges.push(close);
        }
        Some(edges)
    }
}

/// A new edit starts only on an idle scratch pad: a path, a vertex drag or a
/// template shape is refused while any edit is in progress.
pub proof fn law_edits_start_only_when_idle(mode: ScratchPadMode, start: ToolMessageKind)
    requires
        start is PathStart || start is MovePointStart || start is TemplateStart,
    ensures
        work_for(mode, EditMessageKind::ToolUpdate(start)) is Ok <==> mode is Idle,
{
}

/// Every message that an edit accepts keeps that edit going, except the one
/// that ends it, after which the scratch pad is idle; a message accepted by an
/// idle scratch pad starts an edit or does nothing.
pub proof fn law_accepted_messages_follow_the_edit(mode: ScratchPadMode, msg: EditMessageKind)
    requires
        work_for(mode, msg) is Ok,
    ensures
        ({
            let work = work_for(mode, msg)->Ok_0;
            let next = mode_after(mode, work);
            &&& !(mode is Idle) && !(work is Nothing) ==> (next == mode || next is Idle)
            &&& next is Idle ==> (work is CompletePath || work is CompleteDrag
                || work is CompleteTemplate || (work is Nothing && mode is Idle))
            &&& mode is Idle ==> (work is StartPath || work is StartDrag || work is StartTemplate
                || work is Nothing)
        }),
{
}

/// Messages that are not tool updates never change the edit in progress and
/// change nothing on the stage.
pub proof fn law_other_messages_change_nothing(mode: ScratchPadMode, msg: EditMessageKind)
    requires
        !(msg is ToolUpdate),
    ensures
        work_for(mode, msg) == Ok::<ScratchPadWork, Seq<char>>(ScratchPadWork::Nothing),
        mode_after(mode, ScratchPadWork::Nothing) == mode,
        !scene_changed(ScratchPadWork::Nothing),
{
}

/// A preview never commits anything: committing an edge after a preview gives
/// the same path as committing it straight away.
pub proof fn law_preview_is_not_committed<E>(v: PathBufferView<E>, preview: E, edge: E)
    ensures
        after_preview(v, preview).committed == v.committed,
        after_next_edge(after_preview(v, preview), edge) == after_next_edge(v, edge),
{
}

/// Each edit's end message ends it, and nothing else that a tool sends does:
/// a path ends with `PathEnd`, a template shape with `TemplateEnd` and a
/// vertex drag with `MovePointEnd`. Each is accepted in its own edit, leaves
/// the scratch pad idle and changes the scene; every other accepted tool
/// message keeps the edit in progress going.
pub proof fn law_end_messages_end_edits(mode: ScratchPadMode, m: ToolMessageKind)
    ensures
        ({
            let r = work_for(mode, EditMessageKind::ToolUpdate(m));
            let ends = (mode is NewPath && m is PathEnd) || (mode is NewTemplateShape && m is TemplateEnd)
                || (mode is EditVertexes && m is MovePointEnd);
            &&& ends ==> r is Ok && mode_after(mode, r->Ok_0) is Idle && scene_changed(r->Ok_0)
            &&& !(mode is Idle) && r is Ok && !ends ==> mode_after(mode, r->Ok_0) == mode
        }),
{
}

/// A whole edit, message by message: from an idle scratch pad, a start message
/// begins the edit, its hover and (for a path) next messages keep it going,
/// and its end message leaves the scratch pad idle again.
pub proof fn law_edit_round_trip()
    ensures
        ({
            let idle = ScratchPadMode::Idle;
            let step = |mode: ScratchPadMode, m: ToolMessageKind|
                mode_after(mode, work_for(mode, EditMessageKind::ToolUpdate(m))->Ok_0);
            &&& step(step(step(step(idle, ToolMessageKind::PathStart), ToolMessageKind::PathNext),
                ToolMessageKind::PathPlaceHover), ToolMessageKind::PathEnd) is Idle
            &&& step(step(step(idle, ToolMessageKind::TemplateStart), ToolMessageKind::TemplatePlaceHover),
                ToolMessageKind::TemplateEnd) is Idle
            &&& step(step(step(idle, ToolMessageKind::MovePointStart), ToolMessageKind::MovePointHover),
                ToolMessageKind::MovePointEnd) is Idle
            &&& step(idle, ToolMessageKind::PathStart) is NewPath
            &&& step(idle, ToolMessageKind::TemplateStart) is NewTemplateShape
            &&& step(idle, ToolMessageKind::MovePointStart) is EditVertexes
        }),
{
}

} // verus!
