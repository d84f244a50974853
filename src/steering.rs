use vstd::prelude::*;
use crate::geometry::{follow_turn, follow_turn_spec, normalize_angle, normalized, FULL_TURN, HALF_TURN};

verus! {

/// What one steering step reads: whether the agent is inside the arena, the
/// bearing of the marker it follows (if any), and its random draw.
#[derive(Clone, Copy, Debug, PartialEq, Eq)]
pub struct TurnInput {
    pub inside: bool,
    pub bearing: Option<i64>,
    pub draw: i64,
}

impl TurnInput {
    pub open spec fn wf(self) -> bool {
        &&& -HALF_TURN <= self.draw <= HALF_TURN
        &&& match self.bearing {
            Some(b) => -HALF_TURN <= b <= HALF_TURN,
            None => true,
        }
    }
}

/// The turn of one step: a reversal outside the arena; inside, half the
/// bearing of the followed marker, or the random draw when there is none.
pub open spec fn turn_spec(inside: bool, bearing: Option<i64>, draw: int) -> int {
    if !inside {
        HALF_TURN as int
    } else {
        match bearing {
            Some(b) => follow_turn_spec(b as int),
            None => draw,
        }
    }
}

/// The heading after one step, brought back into `[0, FULL_TURN)`.
pub open spec fn steer_spec(heading: int, t: TurnInput) -> int {
    normalized(heading + turn_spec(t.inside, t.bearing, t.draw as int))
}

/// The heading after steps `inputs`, from `h0`.
pub open spec fn heading_after(h0: int, inputs: Seq<TurnInput>) -> int
    decreases inputs.len(),
{
    if inputs.len() == 0 {
        h0
    } else {
        steer_spec(heading_after(h0, inputs.drop_last()), inputs.last())
    }
}

/// The headings after each of the steps `inputs`, from `h0`.
pub open spec fn heading_trace(h0: int, inputs: Seq<TurnInput>) -> Seq<int> {
    Seq::new(inputs.len(), |i: int| heading_after(h0, inputs.take(i + 1)))
}

/// One steering step from `heading`.
pub fn steer(heading: i64, t: TurnInput) -> (r: i64)
    requires
        0 <= heading < FULL_TURN,
        t.wf(),
    ensures
        r == steer_spec(heading as int, t),
        0 <= r < FULL_TURN,
{
    let turn: i64 = if !t.inside {
        HALF_TURN
    } else {
        match t.bearing {
            Some(b) => follow_turn(b),
            None => t.draw,
        }
    };
    normalize_angle(heading + turn)
}

/// Replays steering steps from `initial`: the heading after each step.
pub fn replay_headings(initial: i64, inputs: &Vec<TurnInput>) -> (r: Vec<i64>)
    requires
        0 <= initial < FULL_TURN,
        forall|i: int| 0 <= i < inputs@.len() ==> (#[trigger] inputs@[i]).wf(),
    ensures
        r@.len() == inputs@.len(),
        forall|i: int| 0 <= i < r@.len() ==> r@[i] == #[trigger] heading_trace(initial as int, inputs@)[i],
{
    let mut out: Vec<i64> = Vec::new();
    let mut h = initial;
    let mut k: usize = 0;
    while k < inputs.len()
        invariant
            k <= inputs@.len(),
            forall|i: int| 0 <= i < inputs@.len() ==> (#[trigger] inputs@[i]).wf(),
            0 <= h < FULL_TURN,
            h == heading_after(initial as int, inputs@.take(k as int)),
            out@.len() == k,
            forall|i: int| 0 <= i < k ==> out@[i] == #[trigger] heading_trace(initial as int, inputs@)[i],
        decreases inputs@.len() - k,
    {
        assert(inputs@.take(k + 1).drop_last() == inputs@.take(k as int));
        h = steer(h, inputs[k]);
        out.push(h);
        k = k + 1;
    }
    out
}

/// Replay is deterministic and can be cut short: replaying the first `k`
/// steps gives the first `k` headings of the full replay.
pub proof fn lemma_replay_prefix(h0: int, inputs: Seq<TurnInput>, k: int)
    requires
        0 <= k <= inputs.len(),
    ensures
        heading_trace(h0, inputs.take(k)) == heading_trace(h0, inputs).take(k),
{
    assert forall|i: int| 0 <= i < k implies #[trigger] heading_trace(h0, inputs.take(k))[i]
        == heading_trace(h0, inputs)[i] by {
        assert(inputs.take(k).take(i + 1) == inputs.take(i + 1));
    }
    assert(heading_trace(h0, inputs.take(k)) =~= heading_trace(h0, inputs).take(k));
}

/// The heading after `a` then `b` is the heading after `b` replayed from
/// the heading reached after `a`.
proof fn lemma_heading_after_concat(h0: int, a: Seq<TurnInput>, b: Seq<TurnInput>)
    ensures
        heading_after(h0, a + b) == heading_after(heading_after(h0, a), b),
    decreases b.len(),
{
    if b.len() == 0 {
        assert(a + b == a);
    } else {
        lemma_heading_after_concat(h0, a, b.drop_last());
        assert((a + b).drop_last() == a + b.drop_last());
        assert((a + b).last() == b.last());
    }
}

/// Replay can be resumed: replaying `a` and then `b` gives the headings of
/// `a` followed by those of `b` replayed from the last heading of `a`.
pub proof fn lemma_replay_resume(h0: int, a: Seq<TurnInput>, b: Seq<TurnInput>)
    ensures
        heading_trace(h0, a + b) == heading_trace(h0, a) + heading_trace(heading_after(h0, a), b),
{
    let ab = a + b;
    assert forall|i: int| 0 <= i < ab.len() implies #[trigger] heading_trace(h0, ab)[i] == (
    heading_trace(h0, a) + heading_trace(heading_after(h0, a), b))[i] by {
        if i < a.len() {
            assert(ab.take(i + 1) == a.take(i + 1));
        } else {
            assert(ab.take(i + 1) == a + b.take(i - a.len() + 1));
            lemma_heading_after_concat(h0, a, b.take(i - a.len() + 1));
        }
    }
    assert(heading_trace(h0, ab) =~= heading_trace(h0, a) + heading_trace(heading_after(h0, a), b));
}

} // verus!
