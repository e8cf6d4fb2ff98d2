//! Sequencing of playback: reading the initialization section of an action
//! list, running the actions up to the next frame to present, and deciding
//! how many frames a present still has to show.

use vstd::prelude::*;
use std::collections::HashSet;
use crate::actions::{Action, ActionList, record_label};
use crate::ids::ContainerId;

verus! {

broadcast use vstd::std_specs::hash::group_hash_axioms;

/// An action that may stand in the initialization section.
pub open spec fn is_init_action(a: Action) -> bool {
    a is CreateRoot || a is DefineShape || a is LoadBitmap || a is SetBackground
}

/// The initialization section starting at `from` ends inside the list: some
/// action from `from` on is not an initialization action.
pub open spec fn init_ends(actions: Seq<Action>, from: int) -> bool {
    exists|k: int| from <= k < actions.len() && !is_init_action(#[trigger] actions[k])
}

/// `e` is where the initialization section that starts at `from` ends: the
/// first action from `from` on that is not an initialization action.
pub open spec fn is_init_end(actions: Seq<Action>, from: int, e: int) -> bool {
    &&& from <= e < actions.len()
    &&& !is_init_action(actions[e])
    &&& forall|k: int| from <= k < e ==> is_init_action(#[trigger] actions[k])
}

/// The root named by the last `CreateRoot` among the actions `from .. to`.
pub open spec fn last_root(actions: Seq<Action>, from: int, to: int) -> Option<ContainerId>
    decreases to - from,
{
    if to <= from {
        None
    } else {
        match actions[to - 1] {
            Action::CreateRoot(id) => Some(id),
            _ => last_root(actions, from, to - 1),
        }
    }
}

/// The position of the last `SetBackground` among the actions `from .. to`.
pub open spec fn last_background(actions: Seq<Action>, from: int, to: int) -> Option<usize>
    decreases to - from,
{
    if to <= from {
        None
    } else if actions[to - 1] is SetBackground {
        Some((to - 1) as usize)
    } else {
        last_background(actions, from, to - 1)
    }
}

/// The action `a` occurs among the actions `from .. to`.
pub open spec fn occurs_in(actions: Seq<Action>, from: int, to: int, a: Action) -> bool {
    exists|k: int| from <= k < to && actions[k] == a
}

/// The positions, in order, of the `DefineShape` and `LoadBitmap` actions among
/// `from .. to` that define their item for the first time there: a library
/// item that is already defined is not loaded again.
pub open spec fn first_definitions(actions: Seq<Action>, from: int, to: int) -> Seq<usize>
    decreases to - from,
{
    if to <= from {
        Seq::empty()
    } else {
        let earlier = first_definitions(actions, from, to - 1);
        let a = actions[to - 1];
        if (a is DefineShape || a is LoadBitmap) && !occurs_in(actions, from, to - 1, a) {
            earlier.push((to - 1) as usize)
        } else {
            earlier
        }
    }
}

/// What the initialization section of an action list sets up.
#[derive(Debug)]
pub struct Initialization {
    /// The root container.
    pub root: ContainerId,
    /// The positions of the actions whose library item is loaded, in order.
    pub loads: Vec<usize>,
    /// The position of the `SetBackground` that sets the background, if any.
    pub background: Option<usize>,
}

/// The ids of the items defined by `DefineShape` actions among `from .. to`
/// (`shapes`), or by `LoadBitmap` actions (`!shapes`).
spec fn defined_ids(actions: Seq<Action>, from: int, to: int, shapes: bool) -> Set<u128> {
    Set::new(
        |id: u128|
            exists|k: int|
                from <= k < to && #[trigger] actions[k] == (if shapes {
                    Action::DefineShape(crate::ids::LibraryId(id))
                } else {
                    Action::LoadBitmap(crate::ids::LibraryId(id))
                }),
    )
}

/// Reads the initialization section of `actions`, from the cursor up to the
/// `EndInitialization` that closes it, where the cursor then stands. The
/// section names the root (the last `CreateRoot` wins), the library items to
/// load (each id once per kind) and the background (the last `SetBackground`).
///
/// Errors: any other action in the section is unexpected, and the cursor
/// stays on it; a section without `CreateRoot`, or an empty list, defines no
/// root. The list is read as far as it is loaded.
pub fn initialize(actions: &mut ActionList) -> (r: Result<Initialization, String>)
    requires
        old(actions).wf(),
        old(actions)@.actions.len() > 0 ==> init_ends(
            old(actions)@.actions,
            old(actions)@.action_index as int,
        ),
    ensures
        final(actions).wf(),
        final(actions)@.actions == old(actions)@.actions,
        final(actions)@.frame_index == old(actions)@.frame_index,
        old(actions)@.actions.len() == 0 ==> {
            &&& final(actions)@ == old(actions)@
            &&& r matches Err(text) && text@ == "Action list did not define a root element"@
        },
        old(actions)@.actions.len() > 0 ==> {
            let acts = old(actions)@.actions;
            let from = old(actions)@.action_index as int;
            let e = final(actions)@.action_index as int;
            &&& is_init_end(acts, from, e)
            &&& final(actions)@.labels == (if e > from {
                record_label(old(actions)@.labels, acts, e)
            } else {
                old(actions)@.labels
            })
            &&& !(acts[e] is EndInitialization) ==> (r matches Err(text) && text@
                == "Unexpected action in initialization"@)
            &&& acts[e] is EndInitialization ==> match last_root(acts, from, e) {
                None => r matches Err(text) && text@ == "Action list did not define a root element"@,
                Some(root) => r matches Ok(init) && {
                    &&& init.root == root
                    &&& init.loads@ == first_definitions(acts, from, e)
                    &&& init.background == last_background(acts, from, e)
                },
            }
        },
{
    if actions.len() == 0 {
        return Err(String::from_str("Action list did not define a root element"));
    }
    let ghost acts = actions@.actions;
    let ghost from = actions@.action_index as int;
    let ghost labels0 = actions@.labels;
    let ghost frame0 = actions@.frame_index;
    let ghost k0 = choose|k: int| from <= k < acts.len() && !is_init_action(#[trigger] acts[k]);
    let mut root: Option<ContainerId> = None;
    let mut background: Option<usize> = None;
    let mut loads: Vec<usize> = Vec::new();
    let mut shapes: HashSet<u128> = HashSet::new();
    let mut textures: HashSet<u128> = HashSet::new();
    let mut i: usize = actions.action_index();
    assert(shapes@ =~= defined_ids(acts, from, from, true));
    assert(textures@ =~= defined_ids(acts, from, from, false));
    #[verifier::loop_isolation(false)]
    loop
        invariant
            actions.wf(),
            actions@.actions == acts,
            actions@.frame_index == frame0,
            acts.len() > 0,
            from <= k0 < acts.len(),
            !is_init_action(acts[k0]),
            actions@.action_index == i,
            from <= i <= k0,
            forall|k: int| from <= k < i ==> is_init_action(#[trigger] acts[k]),
            actions@.labels == (if i > from {
                record_label(labels0, acts, i as int)
            } else {
                labels0
            }),
            root == last_root(acts, from, i as int),
            background == last_background(acts, from, i as int),
            loads@ == first_definitions(acts, from, i as int),
            shapes@ == defined_ids(acts, from, i as int, true),
            textures@ == defined_ids(acts, from, i as int, false),
        decreases k0 - i,
    {
        let action = actions.get().unwrap();
        assert(*action == acts[i as int]);
        proof {
            assert(defined_ids(acts, from, i + 1, true) =~= match acts[i as int] {
                Action::DefineShape(id) => defined_ids(acts, from, i as int, true).insert(id.0),
                _ => defined_ids(acts, from, i as int, true),
            });
            assert(defined_ids(acts, from, i + 1, false) =~= match acts[i as int] {
                Action::LoadBitmap(id) => defined_ids(acts, from, i as int, false).insert(id.0),
                _ => defined_ids(acts, from, i as int, false),
            });
        }
        match action {
            Action::CreateRoot(id) => {
                root = Some(*id);
            },
            Action::DefineShape(id) => {
                assert(occurs_in(acts, from, i as int, acts[i as int]) == shapes@.contains(id.0));
                if !shapes.contains(&id.0) {
                    shapes.insert(id.0);
                    loads.push(i);
                }
            },
            Action::LoadBitmap(id) => {
                assert(occurs_in(acts, from, i as int, acts[i as int]) == textures@.contains(id.0));
                if !textures.contains(&id.0) {
                    textures.insert(id.0);
                    loads.push(i);
                }
            },
            Action::SetBackground => {
                background = Some(i);
            },
            Action::EndInitialization => {
                return match root {
                    Some(root) => Ok(Initialization { root, loads, background }),
                    None => Err(String::from_str("Action list did not define a root element")),
                };
            },
            _ => {
                return Err(String::from_str("Unexpected action in initialization"));
            },
        }
        assert(is_init_action(acts[i as int]));
        assert(i < k0);
        actions.advance(None);
        i = actions.action_index();
    }
}

/// The action `a` ends the run of actions before a frame is shown: a
/// `PresentFrame`, or a second `CreateRoot`, which is an error.
pub open spec fn stops_execution(a: Action) -> bool {
    a is PresentFrame || a is CreateRoot
}

/// A run of actions starting at `from` ends inside the list.
pub open spec fn execution_stops(actions: Seq<Action>, from: int) -> bool {
    exists|k: int| from <= k < actions.len() && stops_execution(#[trigger] actions[k])
}

/// `e` is where the run of actions from `from` stops: the first action from
/// `from` on that stops execution.
pub open spec fn is_execution_stop(actions: Seq<Action>, from: int, e: int) -> bool {
    &&& from <= e < actions.len()
    &&& stops_execution(actions[e])
    &&& forall|k: int| from <= k < e ==> !stops_execution(#[trigger] actions[k])
}

/// The action `a` has an effect on the engine, the library or the stage when it runs.
pub open spec fn has_effect(a: Action) -> bool {
    !(a is Label || a is EndInitialization || a is PresentFrame || a is CreateRoot)
}

/// The positions, in order, of the actions among `from .. to` that have an effect.
pub open spec fn effect_positions(actions: Seq<Action>, from: int, to: int) -> Seq<usize>
    decreases to - from,
{
    if to <= from {
        Seq::empty()
    } else if has_effect(actions[to - 1]) {
        effect_positions(actions, from, to - 1).push((to - 1) as usize)
    } else {
        effect_positions(actions, from, to - 1)
    }
}

/// Runs the actions from the cursor up to the next `PresentFrame`, where the
/// cursor then stands, and returns the positions of the actions whose effect
/// the player applies, in order (labels and `EndInitialization` do nothing).
///
/// Error: a `CreateRoot` met on the way defines an additional root; the
/// cursor stays on it. The list is read as far as it is loaded.
pub fn execute_actions(actions: &mut ActionList) -> (r: Result<Vec<usize>, String>)
    requires
        old(actions).wf(),
        old(actions)@.actions.len() > 0,
        execution_stops(old(actions)@.actions, old(actions)@.action_index as int),
    ensures
        final(actions).wf(),
        final(actions)@.actions == old(actions)@.actions,
        final(actions)@.frame_index == old(actions)@.frame_index,
        ({
            let acts = old(actions)@.actions;
            let from = old(actions)@.action_index as int;
            let e = final(actions)@.action_index as int;
            &&& is_execution_stop(acts, from, e)
            &&& final(actions)@.labels == (if e > from {
                crate::actions::record_labels(old(actions)@.labels, acts, from + 1, e + 1)
            } else {
                old(actions)@.labels
            })
            &&& acts[e] is CreateRoot ==> (r matches Err(text) && text@
                == "Attempting to define an additional Root"@)
            &&& acts[e] is PresentFrame ==> (r matches Ok(positions) && positions@
                == effect_positions(acts, from, e))
        }),
{
    let ghost acts = actions@.actions;
    let ghost from = actions@.action_index as int;
    let ghost labels0 = actions@.labels;
    let ghost frame0 = actions@.frame_index;
    let ghost k0 = choose|k: int| from <= k < acts.len() && stops_execution(#[trigger] acts[k]);
    let mut positions: Vec<usize> = Vec::new();
    let mut i: usize = actions.action_index();
    #[verifier::loop_isolation(false)]
    loop
        invariant
            actions.wf(),
            actions@.actions == acts,
            actions@.frame_index == frame0,
            acts.len() > 0,
            from <= k0 < acts.len(),
            stops_execution(acts[k0]),
            actions@.action_index == i,
            from <= i <= k0,
            forall|k: int| from <= k < i ==> !stops_execution(#[trigger] acts[k]),
            actions@.labels == crate::actions::record_labels(labels0, acts, from + 1, i + 1),
            positions@ == effect_positions(acts, from, i as int),
        decreases k0 - i,
    {
        let action = actions.get().unwrap();
        assert(*action == acts[i as int]);
        match action {
            Action::PresentFrame(_, _) => {
                return Ok(positions);
            },
            Action::CreateRoot(_) => {
                return Err(String::from_str("Attempting to define an additional Root"));
            },
            Action::Label(_) | Action::EndInitialization => {},
            _ => {
                positions.push(i);
            },
        }
        assert(i < k0);
        actions.advance(None);
        i = actions.action_index();
        proof {
            reveal_with_fuel(crate::actions::record_labels, 2);
        }
    }
}

/// How many frames a `PresentFrame(start, count)` still shows when the frame
/// counter stands at `frame`: none for an empty present; an error when the
/// counter is past the present's end (counter and list have gone out of
/// step); otherwise the frames from the counter to the end.
pub fn frames_to_present(frame: u32, start: u32, count: u32) -> (r: Result<u32, String>)
    requires
        count > 0 ==> start + count <= u32::MAX,
        count > 0 && frame <= start + count ==> start <= frame,
    ensures
        count == 0 ==> r == Ok::<u32, String>(0),
        count > 0 && frame > start + count ==> (r matches Err(text) && text@
            == "Attempting to play incorrect frame. Frame counter and action list have gotten desynced"@),
        count > 0 && frame <= start + count ==> r == Ok::<u32, String>(
            (count - (frame - start)) as u32,
        ),
{
    if count == 0 {
        Ok(0)
    } else if frame > start + count {
        Err(
            String::from_str(
                "Attempting to play incorrect frame. Frame counter and action list have gotten desynced",
            ),
        )
    } else {
        Ok(count - (frame - start))
    }
}

/// Library loads are idempotent: the initialization section loads each
/// library item once, at its first definition, in order of position.
pub proof fn law_each_item_loaded_once(actions: Seq<Action>, from: int, to: int)
    requires
        0 <= from <= to <= actions.len(),
        to <= usize::MAX,
    ensures
        forall|i: int, j: int|
            0 <= i < j < first_definitions(actions, from, to).len() ==> actions[first_definitions(
                actions,
                from,
                to,
            )[i] as int] != actions[first_definitions(actions, from, to)[j] as int]
                && first_definitions(actions, from, to)[i] < first_definitions(actions, from, to)[j],
        forall|i: int|
            0 <= i < first_definitions(actions, from, to).len() ==> from <= #[trigger] first_definitions(
                actions,
                from,
                to,
            )[i] < to,
    decreases to - from,
{
    if to > from {
        law_each_item_loaded_once(actions, from, to - 1);
        let earlier = first_definitions(actions, from, to - 1);
        let a = actions[to - 1];
        if (a is DefineShape || a is LoadBitmap) && !occurs_in(actions, from, to - 1, a) {
            let all = earlier.push((to - 1) as usize);
            assert forall|i: int, j: int| 0 <= i < j < all.len() implies actions[all[i] as int]
                != actions[all[j] as int] && all[i] < all[j] by {
                if j == all.len() - 1 {
                    let k = earlier[i] as int;
                    assert(from <= k < to - 1);
                    if actions[k] == a {
                        assert(occurs_in(actions, from, to - 1, a));
                    }
                }
            }
        }
    }
}

/// The actions that a run applies are exactly those that do something: every
/// `DefineShape`, `LoadBitmap`, `CreateContainer`, `UpdateContainer`,
/// `RemoveContainer`, `SetBackground` and `AddQuadTreeLayer` of the run is
/// applied, once, in order of position; labels, `EndInitialization` (and the
/// `PresentFrame` or `CreateRoot` that ends a run) are not.
pub proof fn law_runs_apply_every_effect(actions: Seq<Action>, from: int, to: int)
    requires
        0 <= from <= to <= actions.len(),
        to <= usize::MAX,
    ensures
        ({
            let p = effect_positions(actions, from, to);
            &&& forall|k: int|
                from <= k < to ==> (p.contains(k as usize) <==> (#[trigger] actions[k] is DefineShape
                    || actions[k] is LoadBitmap || actions[k] is CreateContainer || actions[k] is UpdateContainer
                    || actions[k] is RemoveContainer || actions[k] is SetBackground
                    || actions[k] is AddQuadTreeLayer))
            &&& forall|i: int| 0 <= i < p.len() ==> from <= #[trigger] p[i] < to
            &&& forall|i: int, j: int| 0 <= i < j < p.len() ==> #[trigger] p[i] < #[trigger] p[j]
        }),
    decreases to - from,
{
    if to > from {
        law_runs_apply_every_effect(actions, from, to - 1);
        let before = effect_positions(actions, from, to - 1);
        let p = effect_positions(actions, from, to);
        let a = actions[to - 1];
        if has_effect(a) {
            assert(p == before.push((to - 1) as usize));
            assert forall|k: int| from <= k < to implies (p.contains(k as usize) <==> (#[trigger] actions[k] is DefineShape
                || actions[k] is LoadBitmap || actions[k] is CreateContainer || actions[k] is UpdateContainer
                || actions[k] is RemoveContainer || actions[k] is SetBackground
                || actions[k] is AddQuadTreeLayer)) by {
                if k < to - 1 {
                    if p.contains(k as usize) {
                        let i = choose|i: int| 0 <= i < p.len() && p[i] == k as usize;
                        if i < before.len() {
                            assert(before[i] == k as usize);
                        }
                    }
                    if before.contains(k as usize) {
                        let i = choose|i: int| 0 <= i < before.len() && before[i] == k as usize;
                        assert(p[i] == k as usize);
                    }
                } else {
                    assert(p[before.len() as int] == k as usize);
                }
            }
        } else {
            assert forall|k: int| from <= k < to implies (p.contains(k as usize) <==> (#[trigger] actions[k] is DefineShape
                || actions[k] is LoadBitmap || actions[k] is CreateContainer || actions[k] is UpdateContainer
                || actions[k] is RemoveContainer || actions[k] is SetBackground
                || actions[k] is AddQuadTreeLayer)) by {
                if k == to - 1 && p.contains(k as usize) {
                    let i = choose|i: int| 0 <= i < p.len() && p[i] == k as usize;
                    assert(p[i] < to - 1);
                }
            }
        }
    }
}

} // verus!
