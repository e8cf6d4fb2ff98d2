//! The action list: the sequence of actions that drives playback, with a
//! cursor, a frame counter inside the current `PresentFrame`, and a cache of
//! the labels seen so far.

use vstd::prelude::*;
use crate::ids::{ContainerId, LibraryId};
use crate::resources::QuadTreeLayer;

verus! {

/// What advancing the frame counter inside the current action came to.
#[derive(Clone, Copy, Debug, PartialEq, Eq, Structural)]
pub enum FrameAdvanceResult {
    /// The counter moved to this frame, which is not yet the last one of the present.
    NextFrame(u32),
    /// The counter stands at (or was already past) the end of the present, this frame.
    PresentEnd(u32),
    /// The current action is not a `PresentFrame`.
    NotInPresent,
}

/// One step of a movie. Payloads that the player interprets (shapes, colors,
/// transforms, bitmaps) are carried by the player beside the list; an action
/// here holds the ids and counts that sequencing reads.
#[derive(Debug, PartialEq)]
pub enum Action {
    CreateRoot(ContainerId),
    AddQuadTreeLayer(QuadTreeLayer),
    SetBackground,
    EndInitialization,
    Label(String),
    DefineShape(LibraryId),
    LoadBitmap(LibraryId),
    CreateContainer(ContainerId),
    UpdateContainer(ContainerId),
    RemoveContainer(ContainerId, bool),
    /// Present frames `start .. start + count`.
    PresentFrame(u32, u32),
}

impl Clone for Action {
    fn clone(&self) -> (r: Action)
        ensures
            r == *self,
    {
        match self {
            Action::CreateRoot(id) => Action::CreateRoot(*id),
            Action::AddQuadTreeLayer(layer) => Action::AddQuadTreeLayer(*layer),
            Action::SetBackground => Action::SetBackground,
            Action::EndInitialization => Action::EndInitialization,
            Action::Label(name) => Action::Label(name.clone()),
            Action::DefineShape(id) => Action::DefineShape(*id),
            Action::LoadBitmap(id) => Action::LoadBitmap(*id),
            Action::CreateContainer(id) => Action::CreateContainer(*id),
            Action::UpdateContainer(id) => Action::UpdateContainer(*id),
            Action::RemoveContainer(id, recursive) => Action::RemoveContainer(*id, *recursive),
            Action::PresentFrame(start, count) => Action::PresentFrame(*start, *count),
        }
    }
}

/// The end frame of a `PresentFrame` fits in a `u32`; other actions need nothing.
pub open spec fn action_in_range(a: Action) -> bool {
    a matches Action::PresentFrame(start, count) ==> start + count <= u32::MAX
}

/// `a` is a label called `name`.
pub open spec fn is_label_named(a: Action, name: Seq<char>) -> bool {
    a matches Action::Label(n) && n@ == name
}

/// The label cache after recording the label (if any) at position `i` of `actions`.
pub open spec fn record_label(labels: Map<Seq<char>, usize>, actions: Seq<Action>, i: int) -> Map<
    Seq<char>,
    usize,
> {
    match actions[i] {
        Action::Label(n) => labels.insert(n@, i as usize),
        _ => labels,
    }
}

/// The label cache after recording, in order, the labels at positions `from .. to`.
pub open spec fn record_labels(
    labels: Map<Seq<char>, usize>,
    actions: Seq<Action>,
    from: int,
    to: int,
) -> Map<Seq<char>, usize>
    decreases to - from,
{
    if to <= from {
        labels
    } else {
        record_label(record_labels(labels, actions, from, to - 1), actions, to - 1)
    }
}

/// The frame at which playback stands after a jump to position `k`: the end of
/// the nearest `PresentFrame` before `k`, or 0 when an `EndInitialization` or
/// the start of the list comes first.
pub open spec fn frame_before(actions: Seq<Action>, k: int) -> int
    decreases k,
{
    if k <= 0 {
        0
    } else {
        match actions[k - 1] {
            Action::PresentFrame(start, count) => start + count,
            Action::EndInitialization => 0,
            _ => frame_before(actions, k - 1),
        }
    }
}

/// Advancing the frame counter of `v` by `num_frames` does not overflow: when the
/// cursor is on a `PresentFrame(start, count)` and the counter has not passed
/// its end, the counter (caught up to `start`) plus `num_frames` fits in a `u32`.
pub open spec fn frame_advance_fits(v: ActionListView, num_frames: u32) -> bool {
    v.actions.len() > 0 ==> (v.actions[v.action_index as int] matches Action::PresentFrame(
        start,
        count,
    ) ==> (v.frame_index <= start + count ==> (if v.frame_index >= start {
        v.frame_index as int
    } else {
        start as int
    }) + num_frames <= u32::MAX))
}

/// The cursor after one step forward in a list of `len` actions: it does not
/// pass the last action.
pub open spec fn next_cursor(index: int, len: int) -> int {
    if index + 1 < len {
        index + 1
    } else {
        len - 1
    }
}

/// The abstract state of an action list.
pub struct ActionListView {
    pub actions: Seq<Action>,
    pub frame_index: u32,
    pub action_index: usize,
    pub labels: Map<Seq<char>, usize>,
}

/// A list of actions with a cursor (`action_index`), the frame reached inside
/// the current `PresentFrame` (`frame_index`) and a cache from label names to
/// their positions.
pub struct ActionList {
    actions: Vec<Action>,
    frame_index: u32,
    action_index: usize,
    labels: Vec<(String, usize)>,
}

/// The map that a list of (name, position) pairs with distinct names stands for.
pub open spec fn label_map(entries: Seq<(String, usize)>) -> Map<Seq<char>, usize> {
    Map::new(
        |name: Seq<char>| exists|i: int| 0 <= i < entries.len() && entries[i].0@ == name,
        |name: Seq<char>|
            entries[choose|i: int| 0 <= i < entries.len() && entries[i].0@ == name].1,
    )
}

/// No name occurs twice in a list of (name, position) pairs.
pub open spec fn distinct_names(entries: Seq<(String, usize)>) -> bool {
    forall|i: int, j: int|
        0 <= i < entries.len() && 0 <= j < entries.len() && i != j ==> entries[i].0@
            != entries[j].0@
}

impl View for ActionList {
    type V = ActionListView;

    closed spec fn view(&self) -> ActionListView {
        ActionListView {
            actions: self.actions@,
            frame_index: self.frame_index,
            action_index: self.action_index,
            labels: label_map(self.labels@),
        }
    }
}

/// The invariant of an action list's abstract state: the cursor is inside the
/// list (or 0 for an empty list), and each cached label names a label action
/// at its cached position.
pub open spec fn list_wf(v: ActionListView) -> bool {
    &&& (v.actions.len() == 0 ==> v.action_index == 0)
    &&& (v.actions.len() > 0 ==> v.action_index < v.actions.len())
    &&& labels_valid(v.labels, v.actions)
}

/// Each cached label names a label action at its cached position.
pub open spec fn labels_valid(labels: Map<Seq<char>, usize>, actions: Seq<Action>) -> bool {
    forall|name: Seq<char>| #[trigger]
        labels.contains_key(name) ==> labels[name] < actions.len() && is_label_named(
            actions[labels[name] as int],
            name,
        )
}

proof fn lemma_record_labels_valid(
    labels: Map<Seq<char>, usize>,
    actions: Seq<Action>,
    from: int,
    to: int,
)
    requires
        0 <= from <= to <= actions.len(),
        actions.len() <= usize::MAX,
        labels_valid(labels, actions),
    ensures
        labels_valid(record_labels(labels, actions, from, to), actions),
    decreases to - from,
{
    if from < to {
        lemma_record_labels_valid(labels, actions, from, to - 1);
        let m = record_labels(labels, actions, from, to - 1);
        let m2 = record_label(m, actions, to - 1);
        assert forall|name: Seq<char>| #[trigger] m2.contains_key(name) implies m2[name]
            < actions.len() && is_label_named(actions[m2[name] as int], name) by {
            if let Action::Label(n) = actions[to - 1] {
                if name != n@ {
                    assert(m.contains_key(name));
                } else {
                    assert(m2[name] == (to - 1) as usize);
                }
            } else {
                assert(m.contains_key(name));
            }
        }
    }
}

proof fn lemma_record_labels_step(
    labels: Map<Seq<char>, usize>,
    actions: Seq<Action>,
    from: int,
    to: int,
)
    requires
        from <= to,
    ensures
        record_labels(labels, actions, from, to + 1) == record_label(
            record_labels(labels, actions, from, to),
            actions,
            to,
        ),
{
}

impl ActionList {
    /// Well-formedness: the abstract invariant, and distinct names in the cache.
    pub closed spec fn wf(&self) -> bool {
        list_wf(self@) && distinct_names(self.labels@)
    }

    proof fn lemma_label_map_lookup(&self, k: int)
        requires
            distinct_names(self.labels@),
            0 <= k < self.labels@.len(),
        ensures
            label_map(self.labels@).contains_key(self.labels@[k].0@),
            label_map(self.labels@)[self.labels@[k].0@] == self.labels@[k].1,
    {
        let name = self.labels@[k].0@;
        assert(exists|i: int| 0 <= i < self.labels@.len() && self.labels@[i].0@ == name);
        let c = choose|i: int| 0 <= i < self.labels@.len() && self.labels@[i].0@ == name;
        assert(c == k);
    }

    /// A list holding `initial_vec` (or nothing), with the cursor and frame at 0
    /// and no cached labels.
    pub fn new(initial_vec: Option<&Vec<Action>>) -> (r: ActionList)
        ensures
            r.wf(),
            r@.actions == (match initial_vec {
                Some(v) => v@,
                None => Seq::empty(),
            }),
            r@.action_index == 0,
            r@.frame_index == 0,
            r@.labels == Map::<Seq<char>, usize>::empty(),
    {
        let actions = match initial_vec {
            Some(v) => v.clone(),
            None => Vec::new(),
        };
        proof {
            if let Some(v) = initial_vec {
                assert(actions@ =~= v@);
            }
        }
        let r = ActionList { actions, frame_index: 0, action_index: 0, labels: Vec::new() };
        assert(label_map(r.labels@) =~= Map::<Seq<char>, usize>::empty());
        r
    }

    /// The cursor.
    pub fn action_index(&self) -> (r: usize)
        ensures
            r == self@.action_index,
    {
        self.action_index
    }

    /// The frame reached inside the current `PresentFrame`.
    pub fn frame_index(&self) -> (r: u32)
        ensures
            r == self@.frame_index,
    {
        self.frame_index
    }

    /// The number of actions loaded so far.
    pub fn len(&self) -> (r: usize)
        ensures
            r == self@.actions.len(),
    {
        self.actions.len()
    }

    /// The number of labels in the cache.
    pub fn label_count(&self) -> (r: usize)
        requires
            self.wf(),
        ensures
            r == self@.labels.len(),
    {
        proof {
            self.lemma_labels_len();
        }
        self.labels.len()
    }

    proof fn lemma_labels_len(&self)
        requires
            distinct_names(self.labels@),
        ensures
            label_map(self.labels@).dom().finite(),
            label_map(self.labels@).len() == self.labels@.len(),
        decreases self.labels@.len(),
    {
        let names = Seq::new(self.labels@.len(), |i: int| self.labels@[i].0@);
        assert forall|x: Seq<char>| label_map(self.labels@).dom().contains(x) <==> names.to_set().contains(x) by {
            if label_map(self.labels@).dom().contains(x) {
                let i = choose|i: int| 0 <= i < self.labels@.len() && self.labels@[i].0@ == x;
                assert(names[i] == x);
            }
            if names.to_set().contains(x) {
                let i = choose|i: int| 0 <= i < names.len() && names[i] == x;
                assert(self.labels@[i].0@ == x);
            }
        }
        assert(label_map(self.labels@).dom() =~= names.to_set());
        assert(names.no_duplicates());
        names.unique_seq_to_set();
    }

    /// Records in the cache that the label `name` stands at position `index`.
    fn cache_label(&mut self, name: String, index: usize)
        requires
            distinct_names(old(self).labels@),
        ensures
            distinct_names(final(self).labels@),
            label_map(final(self).labels@) == label_map(old(self).labels@).insert(name@, index),
            final(self).actions == old(self).actions,
            final(self).action_index == old(self).action_index,
            final(self).frame_index == old(self).frame_index,
    {
        let ghost old_labels = self.labels@;
        let mut k: usize = 0;
        while k < self.labels.len()
            invariant
                self.labels@ == old_labels,
                old_labels == old(self).labels@,
                distinct_names(old_labels),
                0 <= k <= old_labels.len(),
                forall|j: int| 0 <= j < k ==> old_labels[j].0@ != name@,
                self.actions == old(self).actions,
                self.action_index == old(self).action_index,
                self.frame_index == old(self).frame_index,
            decreases old_labels.len() - k,
        {
            if self.labels[k].0 == name {
                let ghost before = self.labels@;
                self.labels.set(k, (name, index));
                proof {
                    let after = self.labels@;
                    assert forall|i: int, j: int|
                        0 <= i < after.len() && 0 <= j < after.len() && i != j implies after[i].0@
                        != after[j].0@ by {
                        if i == k {
                            assert(before[k as int].0@ == name@);
                        } else if j == k {
                            assert(before[k as int].0@ == name@);
                        }
                    }
                    assert forall|x: Seq<char>|
                        label_map(after).dom().contains(x) <==> label_map(before).insert(
                            name@,
                            index,
                        ).dom().contains(x) by {
                        if label_map(before).dom().contains(x) {
                            let i = choose|i: int| 0 <= i < before.len() && before[i].0@ == x;
                            if i == k {
                                assert(after[i].0@ == x);
                            } else {
                                assert(after[i].0@ == x);
                            }
                        }
                        if x == name@ {
                            assert(after[k as int].0@ == x);
                        }
                        if label_map(after).dom().contains(x) {
                            let i = choose|i: int| 0 <= i < after.len() && after[i].0@ == x;
                            if i != k {
                                assert(before[i].0@ == x);
                            }
                        }
                    }
                    assert forall|x: Seq<char>| #[trigger]
                        label_map(after).dom().contains(x) implies label_map(after)[x]
                        == label_map(before).insert(name@, index)[x] by {
                        let i = choose|i: int| 0 <= i < after.len() && after[i].0@ == x;
                        if i == k {
                            assert(x == name@);
                        } else {
                            assert(before[i].0@ == x);
                            assert(x != name@);
                            let bi = choose|bi: int| 0 <= bi < before.len() && before[bi].0@ == x;
                            assert(bi == i);
                        }
                    }
                    assert(label_map(after) =~= label_map(before).insert(name@, index));
                }
                return;
            }
            k = k + 1;
        }
        let ghost before = self.labels@;
        self.labels.push((name, index));
        proof {
            let after = self.labels@;
            let n = before.len() as int;
            assert forall|i: int, j: int|
                0 <= i < after.len() && 0 <= j < after.len() && i != j implies after[i].0@
                != after[j].0@ by {
                if i < n && j < n {
                    assert(after[i] == before[i] && after[j] == before[j]);
                } else if i == n {
                    assert(after[j] == before[j]);
                } else {
                    assert(after[i] == before[i]);
                }
            }
            assert forall|x: Seq<char>|
                label_map(after).dom().contains(x) <==> label_map(before).insert(
                    name@,
                    index,
                ).dom().contains(x) by {
                if label_map(before).dom().contains(x) {
                    let i = choose|i: int| 0 <= i < before.len() && before[i].0@ == x;
                    assert(after[i].0@ == x);
                }
                if x == name@ {
                    assert(after[n].0@ == x);
                }
                if label_map(after).dom().contains(x) {
                    let i = choose|i: int| 0 <= i < after.len() && after[i].0@ == x;
                    if i != n {
                        assert(before[i].0@ == x);
                    }
                }
            }
            assert forall|x: Seq<char>| #[trigger]
                label_map(after).dom().contains(x) implies label_map(after)[x] == label_map(
                before,
            ).insert(name@, index)[x] by {
                let i = choose|i: int| 0 <= i < after.len() && after[i].0@ == x;
                if i == n {
                    assert(x == name@);
                } else {
                    assert(after[i] == before[i]);
                    assert(x != name@);
                    let bi = choose|bi: int| 0 <= bi < before.len() && before[bi].0@ == x;
                    assert(bi == i);
                }
            }
            assert(label_map(after) =~= label_map(before).insert(name@, index));
        }
    }

    /// The cached position of the label `name`, if it is cached.
    fn cached_label(&self, name: &String) -> (r: Option<usize>)
        requires
            distinct_names(self.labels@),
        ensures
            r == (if label_map(self.labels@).contains_key(name@) {
                Some(label_map(self.labels@)[name@])
            } else {
                None
            }),
    {
        let mut k: usize = 0;
        while k < self.labels.len()
            invariant
                distinct_names(self.labels@),
                0 <= k <= self.labels@.len(),
                forall|j: int| 0 <= j < k ==> self.labels@[j].0@ != name@,
            decreases self.labels@.len() - k,
        {
            if self.labels[k].0 == *name {
                proof {
                    self.lemma_label_map_lookup(k as int);
                }
                return Some(self.labels[k].1);
            }
            k = k + 1;
        }
        proof {
            if label_map(self.labels@).contains_key(name@) {
                let i = choose|i: int| 0 <= i < self.labels@.len() && self.labels@[i].0@ == name@;
                assert(self.labels@[i].0@ == name@);
            }
        }
        None
    }

    /// Moves the cursor to the label called `label` and returns its position with
    /// the frame at which playback stands there (the end of the nearest earlier
    /// `PresentFrame`, or 0 after an `EndInitialization` or at the start).
    ///
    /// A cached label is used as it is. Otherwise the actions from the cursor on
    /// are searched, and every label met on the way (up to and including the one
    /// found) is cached. The frame counter is left as it is. When no label of that
    /// name follows the cursor, the cursor stays and an error names the label.
    pub fn jump_to_label(&mut self, label: &str) -> (r: Result<(usize, u32), String>)
        requires
            old(self).wf(),
            forall|k: int|
                0 <= k < old(self)@.actions.len() && is_label_named(#[trigger] old(self)@.actions[k], label@)
                    ==> frame_before(old(self)@.actions, k) <= u32::MAX,
        ensures
            final(self).wf(),
            final(self)@.actions == old(self)@.actions,
            final(self)@.frame_index == old(self)@.frame_index,
            old(self)@.labels.contains_key(label@) ==> {
                let index = old(self)@.labels[label@];
                &&& r == Ok::<(usize, u32), String>(
                    (index, frame_before(old(self)@.actions, index as int) as u32),
                )
                &&& final(self)@.labels == old(self)@.labels
                &&& final(self)@.action_index == index
            },
            !old(self)@.labels.contains_key(label@) ==> match r {
                Ok((index, frame)) => {
                    &&& old(self)@.action_index <= index < old(self)@.actions.len()
                    &&& is_label_named(old(self)@.actions[index as int], label@)
                    &&& forall|k: int|
                        old(self)@.action_index <= k < index ==> !is_label_named(
                            #[trigger] old(self)@.actions[k],
                            label@,
                        )
                    &&& frame == frame_before(old(self)@.actions, index as int)
                    &&& final(self)@.labels == record_labels(
                        old(self)@.labels,
                        old(self)@.actions,
                        old(self)@.action_index as int,
                        index + 1,
                    )
                    &&& final(self)@.action_index == index
                },
                Err(message) => {
                    &&& forall|k: int|
                        old(self)@.action_index <= k < old(self)@.actions.len() ==> !is_label_named(
                            #[trigger] old(self)@.actions[k],
                            label@,
                        )
                    &&& final(self)@.labels == record_labels(
                        old(self)@.labels,
                        old(self)@.actions,
                        old(self)@.action_index as int,
                        old(self)@.actions.len() as int,
                    )
                    &&& final(self)@.action_index == old(self)@.action_index
                    &&& message@ == "Could not find label "@ + label@ + " in any loaded actions"@
                },
            },
    {
        let wanted = label.to_owned();
        let new_index = match self.cached_label(&wanted) {
            Some(index) => index,
            None => {
                let ghost start = self.action_index as int;
                let ghost old_labels = label_map(self.labels@);
                let mut index: Option<usize> = None;
                let mut i = self.action_index;
                while i < self.actions.len()
                    invariant_except_break
                        index is None,
                    invariant
                        list_wf(old(self)@),
                        distinct_names(self.labels@),
                        self.actions@ == old(self)@.actions,
                        self.action_index == old(self)@.action_index,
                        self.frame_index == old(self)@.frame_index,
                        start == self.action_index,
                        old_labels == old(self)@.labels,
                        !old_labels.contains_key(wanted@),
                        wanted@ == label@,
                        start <= i <= self.actions@.len(),
                        index is None ==> label_map(self.labels@) == record_labels(
                            old_labels,
                            self.actions@,
                            start,
                            i as int,
                        ),
                        index is None ==> forall|k: int|
                            start <= k < i ==> !is_label_named(#[trigger] self.actions@[k], label@),
                    ensures
                        match index {
                            Some(f) => {
                                &&& start <= f < self.actions@.len()
                                &&& is_label_named(self.actions@[f as int], label@)
                                &&& forall|k: int|
                                    start <= k < f ==> !is_label_named(
                                        #[trigger] self.actions@[k],
                                        label@,
                                    )
                                &&& label_map(self.labels@) == record_labels(
                                    old_labels,
                                    self.actions@,
                                    start,
                                    f + 1,
                                )
                            },
                            None => {
                                &&& forall|k: int|
                                    start <= k < self.actions@.len() ==> !is_label_named(
                                        #[trigger] self.actions@[k],
                                        label@,
                                    )
                                &&& label_map(self.labels@) == record_labels(
                                    old_labels,
                                    self.actions@,
                                    start,
                                    self.actions@.len() as int,
                                )
                            },
                        },
                    decreases self.actions@.len() - i,
                {
                    proof {
                        lemma_record_labels_step(old_labels, self.actions@, start, i as int);
                    }
                    let found = match &self.actions[i] {
                        Action::Label(name) => {
                            let name_copy = name.clone();
                            let is_wanted = *name == wanted;
                            self.cache_label(name_copy, i);
                            is_wanted
                        },
                        _ => false,
                    };
                    if found {
                        index = Some(i);
                        break;
                    }
                    i = i + 1;
                }
                match index {
                    Some(i) => i,
                    None => {
                        let mut message = String::from_str("Could not find label ");
                        message.append(label);
                        message.append(" in any loaded actions");
                        proof {
                            assert(self.actions@.len() == self.actions.len());
                            lemma_record_labels_valid(
                                old_labels,
                                self.actions@,
                                start,
                                self.actions@.len() as int,
                            );
                        }
                        return Err(message);
                    },
                }
            },
        };
        proof {
            if !old(self)@.labels.contains_key(label@) {
                assert(self.actions@.len() == self.actions.len());
                lemma_record_labels_valid(
                    old(self)@.labels,
                    old(self)@.actions,
                    old(self)@.action_index as int,
                    new_index + 1,
                );
            }
        }
        self.action_index = new_index;
        proof {
            assert(is_label_named(old(self)@.actions[new_index as int], label@));
            assert(frame_before(self.actions@, new_index as int) <= u32::MAX);
        }
        let mut search = new_index;
        #[verifier::loop_isolation(false)]
        loop
            invariant
                list_wf(self@),
                search <= new_index,
                new_index < self.actions@.len(),
                frame_before(self.actions@, new_index as int) <= u32::MAX,
                frame_before(self.actions@, new_index as int) == frame_before(
                    self.actions@,
                    search as int,
                ),
            decreases search,
        {
            if search == 0 {
                return Ok((new_index, 0));
            }
            search = search - 1;
            match self.actions.get(search) {
                Some(Action::PresentFrame(start, count)) => {
                    return Ok((new_index, *start + *count));
                },
                Some(Action::EndInitialization) => return Ok((new_index, 0)),
                _ => (),
            }
        }
    }

    /// Steps the cursor back by one, unless the action before it is the
    /// `EndInitialization` that closes the initialization section.
    pub fn back(&mut self)
        requires
            old(self).wf(),
            old(self)@.action_index > 0,
        ensures
            final(self).wf(),
            final(self)@.actions == old(self)@.actions,
            final(self)@.labels == old(self)@.labels,
            final(self)@.frame_index == old(self)@.frame_index,
            final(self)@.action_index == (if old(self)@.actions[old(self)@.action_index - 1]
                is EndInitialization {
                old(self)@.action_index
            } else {
                (old(self)@.action_index - 1) as usize
            }),
    {
        match self.actions.get(self.action_index - 1) {
            Some(Action::EndInitialization) => (),
            None => (),
            _ => self.action_index = self.action_index - 1,
        }
    }

    /// Advances the frame counter by `num_frames` inside the current
    /// `PresentFrame(start, count)`: the counter first catches up to `start`, and
    /// never passes `start + count`. A counter already past the end is left as it is.
    pub fn advance_frame(&mut self, num_frames: u32) -> (r: FrameAdvanceResult)
        requires
            old(self).wf(),
            old(self)@.actions.len() > 0 ==> action_in_range(
                old(self)@.actions[old(self)@.action_index as int],
            ),
            frame_advance_fits(old(self)@, num_frames),
        ensures
            final(self).wf(),
            final(self)@.actions == old(self)@.actions,
            final(self)@.labels == old(self)@.labels,
            final(self)@.action_index == old(self)@.action_index,
            ({
                let v = old(self)@;
                if v.actions.len() > 0 && v.actions[v.action_index as int] is PresentFrame {
                    let start = v.actions[v.action_index as int]->PresentFrame_0;
                    let count = v.actions[v.action_index as int]->PresentFrame_1;
                    let max = (start + count) as u32;
                    if v.frame_index > max {
                        &&& r == FrameAdvanceResult::PresentEnd(max)
                        &&& final(self)@.frame_index == v.frame_index
                    } else {
                        let caught_up = if v.frame_index >= start {
                            v.frame_index as int
                        } else {
                            start as int
                        };
                        let next = if caught_up + num_frames <= max {
                            (caught_up + num_frames) as u32
                        } else {
                            max
                        };
                        &&& final(self)@.frame_index == next
                        &&& r == (if next == max {
                            FrameAdvanceResult::PresentEnd(next)
                        } else {
                            FrameAdvanceResult::NextFrame(next)
                        })
                    }
                } else {
                    &&& r == FrameAdvanceResult::NotInPresent
                    &&& final(self)@.frame_index == v.frame_index
                }
            }),
    {
        if let Some(Action::PresentFrame(start, count)) = self.actions.get(self.action_index) {
            assert(action_in_range(self.actions@[self.action_index as int]));
            let max = *start + *count;
            if self.frame_index > max {
                FrameAdvanceResult::PresentEnd(max)
            } else {
                let caught_up = if self.frame_index >= *start {
                    self.frame_index
                } else {
                    *start
                };
                let moved = caught_up + num_frames;
                self.frame_index = if moved <= max {
                    moved
                } else {
                    max
                };
                if self.frame_index == max {
                    FrameAdvanceResult::PresentEnd(self.frame_index)
                } else {
                    FrameAdvanceResult::NextFrame(self.frame_index)
                }
            }
        } else {
            FrameAdvanceResult::NotInPresent
        }
    }

    /// Appends the actions loaded by the caller (if any), moves the cursor one
    /// step forward without passing the last action, and caches the label the
    /// cursor lands on.
    pub fn advance(&mut self, more: Option<Vec<Action>>)
        requires
            old(self).wf(),
            old(self)@.actions.len() + (match more {
                Some(v) => v@.len(),
                None => 0,
            }) > 0,
        ensures
            final(self).wf(),
            final(self)@.actions == old(self)@.actions + (match more {
                Some(v) => v@,
                None => Seq::empty(),
            }),
            final(self)@.frame_index == old(self)@.frame_index,
            final(self)@.action_index == next_cursor(
                old(self)@.action_index as int,
                final(self)@.actions.len() as int,
            ),
            final(self)@.labels == record_label(
                old(self)@.labels,
                final(self)@.actions,
                final(self)@.action_index as int,
            ),
    {
        if let Some(mut more) = more {
            let ghost before = self.actions@;
            let ghost loaded = more@;
            self.actions.append(&mut more);
        }
        assert(self.actions@.len() == self.actions.len());
        let next = self.action_index + 1;
        let last = self.actions.len() - 1;
        self.action_index = if next < last {
            next
        } else {
            last
        };
        let ghost labels_before = label_map(self.labels@);
        if let Some(Action::Label(name)) = self.actions.get(self.action_index) {
            let name = name.clone();
            let index = self.action_index;
            self.cache_label(name, index);
        }
        proof {
            assert(self.actions@.len() == self.actions.len());
            lemma_record_labels_valid(labels_before, self.actions@, self.action_index as int, self.action_index + 1);
            reveal_with_fuel(record_labels, 2);
            assert(record_labels(labels_before, self.actions@, self.action_index as int, self.action_index + 1)
                == record_label(labels_before, self.actions@, self.action_index as int));
        }
    }

    /// The action under the cursor, for changing it in place.
    pub fn get_mut(&mut self) -> (r: Option<&mut Action>)
        requires
            old(self).wf(),
        ensures
            match r {
                Some(a) => {
                    &&& old(self)@.actions.len() > 0
                    &&& *a == old(self)@.actions[old(self)@.action_index as int]
                    &&& final(self)@.actions == old(self)@.actions.update(
                        old(self)@.action_index as int,
                        *final(a),
                    )
                    &&& final(self)@.action_index == old(self)@.action_index
                    &&& final(self)@.frame_index == old(self)@.frame_index
                    &&& final(self)@.labels == old(self)@.labels
                },
                None => old(self)@.actions.len() == 0 && final(self)@ == old(self)@,
            },
    {
        if self.action_index < self.actions.len() {
            Some(&mut self.actions[self.action_index])
        } else {
            None
        }
    }

    /// The action under the cursor, if the list is not empty.
    pub fn get(&self) -> (r: Option<&Action>)
        requires
            self.wf(),
        ensures
            r == (if self@.actions.len() > 0 {
                Some(&self@.actions[self@.action_index as int])
            } else {
                None
            }),
    {
        if self.action_index < self.actions.len() {
            Some(&self.actions[self.action_index])
        } else {
            None
        }
    }
}

/// A label found by a search is in the cache afterwards, at its position, so
/// a later jump to it is answered from the cache with the same position.
pub proof fn law_found_label_is_cached(
    labels: Map<Seq<char>, usize>,
    actions: Seq<Action>,
    from: int,
    index: int,
    name: Seq<char>,
)
    requires
        0 <= from <= index < actions.len(),
        is_label_named(actions[index], name),
    ensures
        record_labels(labels, actions, from, index + 1).contains_key(name),
        record_labels(labels, actions, from, index + 1)[name] == index as usize,
{
}

/// Stepping forward never leaves a non-empty list: the cursor stays on its
/// last action.
pub proof fn law_cursor_stays_in_list(index: int, len: int)
    requires
        0 <= index < len,
    ensures
        0 <= next_cursor(index, len) < len,
        index + 1 < len ==> next_cursor(index, len) == index + 1,
{
}

} // verus!
