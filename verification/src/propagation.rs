//! Event propagation through the elements on a hit path: capture handlers
//! from the root down, the target's own capture and bubble handlers, then
//! bubble handlers back up to the root, until a handler stops the event.
use vstd::prelude::*;
use crate::input::{apply_event_result, EventResult};

verus! {

/// The phase a handler runs in.
#[derive(Debug, Clone, Copy, PartialEq, Eq, Structural)]
pub enum Phase {
    Capture,
    Bubble,
}

/// The capture steps at positions `n - 1` down to `k` of a path given
/// deepest first (position 0 is the target, `n - 1` the root).
pub open spec fn capture_down(path: Seq<usize>, capture: Seq<bool>, k: int) -> Seq<(usize, Phase)>
    decreases path.len() - k,
{
    if k < 1 || k >= path.len() {
        Seq::empty()
    } else {
        let rest = capture_down(path, capture, k + 1);
        if capture[k] {
            rest.push((path[k], Phase::Capture))
        } else {
            rest
        }
    }
}

/// The bubble steps at positions `1` up to `j - 1`.
pub open spec fn bubble_up(path: Seq<usize>, bubble: Seq<bool>, j: int) -> Seq<(usize, Phase)>
    decreases j,
{
    if j <= 1 || j > path.len() {
        Seq::empty()
    } else {
        let rest = bubble_up(path, bubble, j - 1);
        if bubble[j - 1] {
            rest.push((path[j - 1], Phase::Bubble))
        } else {
            rest
        }
    }
}

/// The target's own steps: its capture handler, then its bubble handler.
pub open spec fn target_steps(path: Seq<usize>, capture: Seq<bool>, bubble: Seq<bool>) -> Seq<(usize, Phase)> {
    (if capture[0] {
        seq![(path[0], Phase::Capture)]
    } else {
        Seq::empty()
    }) + (if bubble[0] {
        seq![(path[0], Phase::Bubble)]
    } else {
        Seq::empty()
    })
}

/// Every handler on the path, in the order they run when none stops the
/// event: capture handlers from the root down to the target's parent, the
/// target's capture and bubble handlers, then bubble handlers from the
/// target's parent up to the root.
pub open spec fn schedule(path: Seq<usize>, capture: Seq<bool>, bubble: Seq<bool>) -> Seq<(usize, Phase)> {
    if path.len() == 0 {
        Seq::empty()
    } else {
        capture_down(path, capture, 1) + target_steps(path, capture, bubble) + bubble_up(
            path,
            bubble,
            path.len() as int,
        )
    }
}

/// The handlers to run for an event on `path` (element indices, deepest
/// first, ending at the root), in order. `capture[k]` and `bubble[k]` tell
/// whether the element at position `k` has a handler for the phase.
pub fn dispatch_schedule(path: &Vec<usize>, capture: &Vec<bool>, bubble: &Vec<bool>) -> (r: Vec<(usize, Phase)>)
    requires
        capture.len() == path.len(),
        bubble.len() == path.len(),
    ensures
        r@ == schedule(path@, capture@, bubble@),
{
    let n = path.len();
    let mut out: Vec<(usize, Phase)> = Vec::new();
    if n == 0 {
        return out;
    }
    let mut k: usize = n;
    while k > 1
        invariant
            n == path.len(),
            capture.len() == n,
            1 <= k <= n,
            out@ == capture_down(path@, capture@, k as int),
        decreases k,
    {
        k = k - 1;
        if capture[k] {
            out.push((path[k], Phase::Capture));
        }
    }
    let ghost caps = out@;
    if capture[0] {
        out.push((path[0], Phase::Capture));
    }
    if bubble[0] {
        out.push((path[0], Phase::Bubble));
    }
    assert(out@ =~= caps + target_steps(path@, capture@, bubble@));
    let ghost head = out@;
    let mut j: usize = 1;
    while j < n
        invariant
            n == path.len(),
            bubble.len() == n,
            1 <= j <= n,
            out@ == head + bubble_up(path@, bubble@, j as int),
        decreases n - j,
    {
        if bubble[j] {
            out.push((path[j], Phase::Bubble));
        }
        j = j + 1;
        assert(out@ =~= head + bubble_up(path@, bubble@, j as int));
    }
    out
}

/// Where an event's propagation stands: whether a handler stopped it,
/// whether one prevented the default action, and whether any ran.
#[derive(Debug, Clone, Copy)]
pub struct Propagation {
    pub stopped: bool,
    pub default_prevented: bool,
    pub handled: bool,
}

impl Propagation {
    pub fn new() -> (r: Self)
        ensures
            !r.stopped,
            !r.default_prevented,
            !r.handled,
    {
        Propagation { stopped: false, default_prevented: false, handled: false }
    }

    /// Record what a handler returned.
    pub fn record(&mut self, result: EventResult)
        ensures
            final(self).handled,
            final(self).stopped == (old(self).stopped || result == EventResult::Stop || result
                == EventResult::StopAndPreventDefault),
            final(self).default_prevented == (old(self).default_prevented || result
                == EventResult::PreventDefault || result == EventResult::StopAndPreventDefault),
    {
        apply_event_result(result, &mut self.stopped, &mut self.default_prevented);
        self.handled = true;
    }
}

/// A handler result that stops propagation.
pub open spec fn stops(r: EventResult) -> bool {
    r == EventResult::Stop || r == EventResult::StopAndPreventDefault
}

/// A handler result that prevents the default action.
pub open spec fn prevents(r: EventResult) -> bool {
    r == EventResult::PreventDefault || r == EventResult::StopAndPreventDefault
}

/// `outs` is what the handlers of the first `outs.len()` steps returned,
/// and running stopped exactly where it had to: no handler but the last
/// stopped the event, and if steps remain, the last one did.
pub open spec fn ran<F: Fn(usize, Phase) -> EventResult>(
    call: F,
    steps: Seq<(usize, Phase)>,
    outs: Seq<EventResult>,
) -> bool {
    &&& outs.len() <= steps.len()
    &&& forall|k: int| 0 <= k < outs.len() ==> #[trigger] call.ensures((steps[k].0, steps[k].1), outs[k])
    &&& forall|k: int| 0 <= k < outs.len() - 1 ==> !stops(#[trigger] outs[k])
    &&& outs.len() < steps.len() ==> outs.len() > 0 && stops(outs.last())
}

/// Run the handlers of `steps` in order through `call` until one stops
/// the event.
pub fn run_schedule<F: Fn(usize, Phase) -> EventResult>(steps: &Vec<(usize, Phase)>, call: &F) -> (p: Propagation)
    requires
        forall|e: usize, ph: Phase| #[trigger] call.requires((e, ph)),
    ensures
        exists|outs: Seq<EventResult>|
            {
                &&& #[trigger] ran(*call, steps@, outs)
                &&& p.handled == (outs.len() > 0)
                &&& p.stopped == (outs.len() > 0 && stops(outs.last()))
                &&& p.default_prevented == exists|k: int| 0 <= k < outs.len() && prevents(#[trigger] outs[k])
            },
{
    let mut p = Propagation::new();
    let ghost mut outs: Seq<EventResult> = Seq::empty();
    let mut i: usize = 0;
    while i < steps.len() && !p.stopped
        invariant
            i <= steps.len(),
            outs.len() == i,
            forall|e: usize, ph: Phase| #[trigger] call.requires((e, ph)),
            forall|k: int| 0 <= k < outs.len() ==> #[trigger] call.ensures((steps@[k].0, steps@[k].1), outs[k]),
            forall|k: int| 0 <= k < outs.len() - 1 ==> !stops(#[trigger] outs[k]),
            p.handled == (outs.len() > 0),
            p.stopped == (outs.len() > 0 && stops(outs.last())),
            p.default_prevented == exists|k: int| 0 <= k < outs.len() && prevents(#[trigger] outs[k]),
        decreases steps.len() - i,
    {
        let (e, ph) = steps[i];
        let r = call(e, ph);
        let ghost before = outs;
        proof {
            outs = outs.push(r);
            assert forall|k: int| 0 <= k < outs.len() implies #[trigger] call.ensures((steps@[k].0, steps@[k].1), outs[k]) by {
                if k < before.len() {
                    assert(outs[k] == before[k]);
                }
            }
            assert forall|k: int| 0 <= k < outs.len() - 1 implies !stops(#[trigger] outs[k]) by {
                assert(outs[k] == before[k]);
                if k == before.len() - 1 {
                    assert(!p.stopped);
                }
            }
        }
        p.record(r);
        proof {
            if p.default_prevented {
                if !prevents(r) {
                    let k = choose|k: int| 0 <= k < before.len() && prevents(#[trigger] before[k]);
                    assert(outs[k] == before[k]);
                } else {
                    assert(prevents(outs[outs.len() - 1]));
                }
            } else {
                assert forall|k: int| 0 <= k < outs.len() implies !prevents(#[trigger] outs[k]) by {
                    if k < before.len() {
                        assert(outs[k] == before[k]);
                    }
                }
            }
        }
        i = i + 1;
    }
    assert(ran(*call, steps@, outs));
    p
}

/// A path of one element runs its capture handler and then its bubble
/// handler.
pub proof fn lemma_target_only_path(target: usize, capture: bool, bubble: bool)
    ensures
        schedule(seq![target], seq![capture], seq![bubble]) == target_steps(seq![target], seq![capture], seq![bubble]),
{
    assert(capture_down(seq![target], seq![capture], 1).len() == 0);
    assert(bubble_up(seq![target], seq![bubble], 1).len() == 0);
    assert(schedule(seq![target], seq![capture], seq![bubble]) =~= target_steps(seq![target], seq![capture], seq![bubble]));
}

/// Capture handlers run from the root down and bubble handlers back up:
/// with every handler present, the capture steps list the path from the
/// root, and the bubble steps list it from the target's parent.
pub proof fn lemma_capture_then_bubble_order(path: Seq<usize>, capture: Seq<bool>, bubble: Seq<bool>, k: int)
    requires
        path.len() == capture.len(),
        path.len() == bubble.len(),
        forall|i: int| 0 <= i < path.len() ==> #[trigger] capture[i] && bubble[i],
        1 <= k <= path.len(),
    ensures
        capture_down(path, capture, k).len() == path.len() - k,
        forall|i: int| 0 <= i < path.len() - k ==> #[trigger] capture_down(path, capture, k)[i] == (path[path.len() - 1 - i], Phase::Capture),
        bubble_up(path, bubble, k).len() == k - 1,
        forall|i: int| 0 <= i < k - 1 ==> #[trigger] bubble_up(path, bubble, k)[i] == (path[i + 1], Phase::Bubble),
    decreases path.len() - k,
{
    if k < path.len() {
        lemma_capture_then_bubble_order(path, capture, bubble, k + 1);
        assert(capture[k] && bubble[k]);
    }
    assert forall|i: int| 0 <= i < path.len() implies #[trigger] bubble[i] by {
        assert(capture[i] && bubble[i]);
    }
    lemma_bubble_all(path, bubble, k);
}

proof fn lemma_bubble_all(path: Seq<usize>, bubble: Seq<bool>, j: int)
    requires
        path.len() == bubble.len(),
        forall|i: int| 0 <= i < path.len() ==> #[trigger] bubble[i],
        1 <= j <= path.len(),
    ensures
        bubble_up(path, bubble, j).len() == j - 1,
        forall|i: int| 0 <= i < j - 1 ==> #[trigger] bubble_up(path, bubble, j)[i] == (path[i + 1], Phase::Bubble),
    decreases j,
{
    if j > 1 {
        lemma_bubble_all(path, bubble, j - 1);
        assert(bubble[j - 1]);
    }
}

} // verus!
