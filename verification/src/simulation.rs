//! The editor's timeline: layers of frames, each frame holding the set of
//! containers shown on it, with the visibility of each layer.

use vstd::prelude::*;
use std::collections::HashSet;
use crate::ids::ContainerId;

verus! {

broadcast use vstd::std_specs::hash::group_hash_axioms;

/// The contents of one frame of a layer: a key frame with the containers shown
/// on it, or an empty frame.
#[derive(Debug)]
pub enum FrameState {
    Key { entities: HashSet<u128> },
    Empty,
}

impl View for FrameState {
    type V = Set<u128>;

    /// The container ids shown on the frame (none for an empty frame).
    open spec fn view(&self) -> Set<u128> {
        match self {
            FrameState::Key { entities } => entities@,
            FrameState::Empty => Set::empty(),
        }
    }
}

/// A frame is an empty frame, or a key frame that shows at least one container.
pub open spec fn frame_wf(f: FrameState) -> bool {
    f matches FrameState::Key { entities } ==> entities@.len() > 0 && entities@.finite()
}

impl FrameState {
    /// A key frame showing only `entity`.
    pub fn from_entity(entity: ContainerId) -> (r: FrameState)
        ensures
            r@ == Set::<u128>::empty().insert(entity.0),
            r is Key,
            frame_wf(r),
    {
        let mut entities = HashSet::new();
        entities.insert(entity.0);
        proof {
            assert(entities@ =~= Set::<u128>::empty().insert(entity.0));
        }
        FrameState::Key { entities }
    }

    /// Whether the frame shows the container `id`.
    pub fn contains_entity(&self, id: &ContainerId) -> (r: bool)
        ensures
            r == self@.contains(id.0),
    {
        match self {
            FrameState::Key { entities } => entities.contains(&id.0),
            FrameState::Empty => false,
        }
    }

    /// Shows the container `id` on the frame; an empty frame becomes a key frame.
    pub fn add_entity(&mut self, id: &ContainerId)
        ensures
            final(self)@ == old(self)@.insert(id.0),
            *final(self) is Key,
            (*old(self) matches FrameState::Key { entities } ==> entities@.finite()) ==> frame_wf(
                *final(self),
            ),
    {
        match self {
            FrameState::Key { entities } => {
                entities.insert(id.0);
                proof {
                    assert(entities@.contains(id.0));
                }
            },
            FrameState::Empty => {
                let mut entities = HashSet::new();
                entities.insert(id.0);
                proof {
                    assert(entities@ =~= Set::<u128>::empty().insert(id.0));
                }
                let new_frame = FrameState::Key { entities };
                *self = new_frame;
            },
        }
    }

    /// Stops showing the container `id`; a key frame left with no container
    /// becomes an empty frame.
    pub fn remove_entity(&mut self, id: &ContainerId)
        ensures
            final(self)@ == old(self)@.remove(id.0),
            (*old(self) matches FrameState::Key { entities } ==> entities@.finite()) ==> frame_wf(
                *final(self),
            ),
            (*final(self) is Empty) == (final(self)@ == Set::<u128>::empty()),
    {
        let now_empty = match self {
            FrameState::Key { entities } => {
                entities.remove(&id.0);
                entities.is_empty()
            },
            FrameState::Empty => false,
        };
        if now_empty {
            proof {
                assert(self@ =~= Set::<u128>::empty());
            }
            *self = FrameState::Empty;
        }
    }
}

impl Default for FrameState {
    fn default() -> (r: FrameState)
        ensures
            r is Empty,
    {
        FrameState::Empty
    }
}

/// A frame occupies the range `range` (first frame, number of frames). This is
/// the test by which `set_current_frame` picks a frame for `frame_index`: the
/// range starts at or before it, or ends after it.
pub open spec fn range_selects(range: (u32, u32), frame_index: u32) -> bool {
    range.0 <= frame_index || range.0 + range.1 > frame_index
}

/// The abstract state of a layer.
pub struct LayerView {
    /// The container ids shown on each frame, with the frame's range.
    pub frames: Seq<(Set<u128>, (u32, u32))>,
    pub current_frame_index: usize,
    pub visible: bool,
}

/// One layer of the timeline: its frames, the frame currently shown, and
/// whether the layer is visible.
#[derive(Debug)]
pub struct LayerState {
    frames: Vec<(FrameState, (u32, u32))>,
    current_frame_index: usize,
    visible: bool,
}

impl View for LayerState {
    type V = LayerView;

    closed spec fn view(&self) -> LayerView {
        LayerView {
            frames: self.frames@.map_values(|f: (FrameState, (u32, u32))| (f.0@, f.1)),
            current_frame_index: self.current_frame_index,
            visible: self.visible,
        }
    }
}

/// The container `id` is shown by the current frame of the layer `v`.
pub open spec fn layer_contains(v: LayerView, id: u128) -> bool {
    v.current_frame_index < v.frames.len() && v.frames[v.current_frame_index as int].0.contains(id)
}

/// The index of the first frame of `frames` selected for `frame_index`, or
/// `usize::MAX` when none is.
pub open spec fn selected_frame(frames: Seq<(Set<u128>, (u32, u32))>, frame_index: u32) -> usize {
    if exists|i: int| 0 <= i < frames.len() && range_selects(frames[i].1, frame_index) {
        (choose|i: int|
            0 <= i < frames.len() && range_selects(frames[i].1, frame_index) && forall|j: int|
                0 <= j < i ==> !range_selects(#[trigger] frames[j].1, frame_index)) as usize
    } else {
        usize::MAX
    }
}

impl LayerState {
    #[verifier::type_invariant]
    spec fn inv(self) -> bool {
        forall|i: int|
            0 <= i < self.frames@.len() ==> (#[trigger] self.frames@[i]).1.0 + self.frames@[i].1.1
                <= u32::MAX && frame_wf(self.frames@[i].0)
    }

    /// A visible layer with one key frame, covering frame 0, that shows `root_id`.
    pub fn new(root_id: &ContainerId) -> (r: LayerState)
        ensures
            r@.frames == seq![(Set::<u128>::empty().insert(root_id.0), (0u32, 1u32))],
            r@.current_frame_index == 0,
            r@.visible,
    {
        let frame_state = FrameState::from_entity(*root_id);
        let r = LayerState { frames: vec![(frame_state, (0, 1))], current_frame_index: 0, visible: true };
        assert(r@.frames =~= seq![(Set::<u128>::empty().insert(root_id.0), (0u32, 1u32))]);
        r
    }

    /// Whether the layer is visible and its current frame shows `id`.
    pub fn can_show_entity(&self, id: &ContainerId) -> (r: bool)
        ensures
            r == (self@.visible && layer_contains(self@, id.0)),
    {
        if !self.visible {
            return false;
        }
        self.contains_entity(id)
    }

    /// Whether the current frame of the layer shows `id`.
    pub fn contains_entity(&self, id: &ContainerId) -> (r: bool)
        ensures
            r == layer_contains(self@, id.0),
    {
        if self.current_frame_index < self.frames.len() {
            let frame = &self.frames[self.current_frame_index];
            return frame.0.contains_entity(id);
        }
        false
    }

    /// Whether the layer is visible.
    pub fn visible(&self) -> (r: bool)
        ensures
            r == self@.visible,
    {
        self.visible
    }

    /// Shows or hides the layer.
    pub fn set_visible(&mut self, visible: bool)
        ensures
            final(self)@ == (LayerView { visible, ..old(self)@ }),
    {
        proof {
            use_type_invariant(&*self);
        }
        self.visible = visible;
    }

    /// Makes current the first frame selected for `current_frame_index` (see
    /// `range_selects`), or no frame (`usize::MAX`) when none is.
    pub fn set_current_frame(&mut self, current_frame_index: u32)
        ensures
            final(self)@ == (LayerView {
                current_frame_index: selected_frame(old(self)@.frames, current_frame_index),
                ..old(self)@
            }),
    {
        proof {
            use_type_invariant(&*self);
        }
        let ghost frames = self@.frames;
        let mut found: Option<usize> = None;
        let mut i: usize = 0;
        while i < self.frames.len()
            invariant_except_break
                found is None,
            invariant
                frames == self@.frames,
                0 <= i <= self.frames@.len(),
                forall|j: int| 0 <= j < i ==> !range_selects(#[trigger] frames[j].1, current_frame_index),
                forall|j: int|
                    0 <= j < self.frames@.len() ==> (#[trigger] self.frames@[j]).1.0 + self.frames@[j].1.1
                        <= u32::MAX,
            ensures
                match found {
                    Some(k) => k < frames.len() && range_selects(frames[k as int].1, current_frame_index)
                        && forall|j: int| 0 <= j < k ==> !range_selects(#[trigger] frames[j].1, current_frame_index),
                    None => forall|j: int| 0 <= j < frames.len() ==> !range_selects(#[trigger] frames[j].1, current_frame_index),
                },
            decreases self.frames@.len() - i,
        {
            let range = self.frames[i].1;
            assert(frames[i as int].1 == range);
            if range.0 <= current_frame_index || range.0 + range.1 > current_frame_index {
                found = Some(i);
                break;
            }
            i = i + 1;
        }
        let index = match found {
            Some(k) => {
                proof {
                    lemma_selected_frame(frames, current_frame_index, k as int);
                }
                k
            },
            None => usize::MAX,
        };
        self.current_frame_index = index;
    }
}

proof fn lemma_selected_frame(frames: Seq<(Set<u128>, (u32, u32))>, c: u32, i: int)
    requires
        0 <= i < frames.len(),
        range_selects(frames[i].1, c),
        forall|j: int| 0 <= j < i ==> !range_selects(#[trigger] frames[j].1, c),
    ensures
        selected_frame(frames, c) == i as usize,
{
    let k = choose|k: int|
        0 <= k < frames.len() && range_selects(frames[k].1, c) && forall|j: int|
            0 <= j < k ==> !range_selects(#[trigger] frames[j].1, c);
    if k < i {
        assert(!range_selects(frames[k].1, c));
    }
    if k > i {
        assert(!range_selects(frames[i].1, c));
    }
}

impl Default for LayerState {
    fn default() -> (r: LayerState)
        ensures
            r@.frames.len() == 0,
            r@.current_frame_index == 0,
            !r@.visible,
    {
        LayerState { frames: Vec::new(), current_frame_index: 0, visible: false }
    }
}

/// The timeline of the editor: its layers.
#[derive(Debug)]
pub struct TimelineState {
    layers: Vec<LayerState>,
}

impl View for TimelineState {
    type V = Seq<LayerView>;

    closed spec fn view(&self) -> Seq<LayerView> {
        self.layers@.map_values(|l: LayerState| l@)
    }
}

impl TimelineState {
    /// A timeline with one layer, made by `LayerState::new(root_id)`.
    pub fn new(root_id: &ContainerId) -> (r: TimelineState)
        ensures
            r@.len() == 1,
            r@[0].frames == seq![(Set::<u128>::empty().insert(root_id.0), (0u32, 1u32))],
            r@[0].current_frame_index == 0,
            r@[0].visible,
    {
        let layer = LayerState::new(root_id);
        let r = TimelineState { layers: vec![layer] };
        assert(r@[0] == r.layers@[0]@);
        r
    }

    /// Whether some layer can show `id` (see `LayerState::can_show_entity`).
    pub fn can_show_entity(&self, id: &ContainerId) -> (r: bool)
        ensures
            r == exists|i: int|
                0 <= i < self@.len() && #[trigger] self@[i].visible && layer_contains(self@[i], id.0),
    {
        let mut i: usize = 0;
        while i < self.layers.len()
            invariant
                0 <= i <= self.layers@.len(),
                forall|j: int| 0 <= j < i ==> !(#[trigger] self@[j].visible && layer_contains(self@[j], id.0)),
            decreases self.layers@.len() - i,
        {
            if self.layers[i].can_show_entity(id) {
                assert(self@[i as int] == self.layers@[i as int]@);
                return true;
            }
            assert(self@[i as int] == self.layers@[i as int]@);
            i = i + 1;
        }
        false
    }

    /// Shows or hides the layer `layer_index`, if there is one.
    pub fn set_layer_visible(&mut self, layer_index: usize, visible: bool)
        ensures
            final(self)@ == (if layer_index < old(self)@.len() {
                old(self)@.update(
                    layer_index as int,
                    (LayerView { visible, ..old(self)@[layer_index as int] }),
                )
            } else {
                old(self)@
            }),
    {
        if layer_index < self.layers.len() {
            let mut layer = self.layers.remove(layer_index);
            layer.set_visible(visible);
            self.layers.insert(layer_index, layer);
            assert(self@ =~= old(self)@.update(
                layer_index as int,
                LayerView { visible, ..old(self)@[layer_index as int] },
            ));
        }
    }

    /// Whether the layer `layer_index` is visible (false when there is no such layer).
    pub fn get_layer_visible(&self, layer_index: usize) -> (r: bool)
        ensures
            r == (layer_index < self@.len() && self@[layer_index as int].visible),
    {
        if layer_index < self.layers.len() {
            self.layers[layer_index].visible()
        } else {
            false
        }
    }
}

impl Default for TimelineState {
    fn default() -> (r: TimelineState)
        ensures
            r@.len() == 0,
    {
        TimelineState { layers: Vec::new() }
    }
}

/// A frame shows a container after it was added, and no longer after it was
/// removed; other containers are not affected.
pub proof fn law_frame_add_remove(shown: Set<u128>, id: ContainerId, other: u128)
    requires
        other != id.0,
    ensures
        shown.insert(id.0).contains(id.0),
        !shown.remove(id.0).contains(id.0),
        shown.insert(id.0).contains(other) == shown.contains(other),
        shown.remove(id.0).contains(other) == shown.contains(other),
{
}

/// Reading the visibility of a layer gives what was last set for it, and
/// setting it leaves the other layers as they were.
pub proof fn law_layer_visibility_read_after_write(
    layers: Seq<LayerView>,
    layer_index: usize,
    visible: bool,
    other: int,
)
    requires
        layer_index < layers.len(),
        0 <= other < layers.len(),
        other != layer_index,
    ensures
        ({
            let after = layers.update(
                layer_index as int,
                (LayerView { visible, ..layers[layer_index as int] }),
            );
            &&& after[layer_index as int].visible == visible
            &&& after[layer_index as int].frames == layers[layer_index as int].frames
            &&& after[other] == layers[other]
        }),
{
}

/// A hidden layer shows nothing.
pub proof fn law_hidden_layer_shows_nothing(v: LayerView, id: u128)
    requires
        !v.visible,
    ensures
        !(v.visible && layer_contains(v, id)),
{
}

} // verus!
