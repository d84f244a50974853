use vstd::prelude::*;

verus! {

/// A fading point of scent left by an agent.
#[derive(Clone, Copy, Debug, PartialEq, Eq)]
pub struct Marker {
    pub x: i32,
    pub y: i32,
    /// Remaining strength; positive while the marker is alive.
    pub strength: i64,
    /// Index of the agent that laid it, if any.
    pub owner: Option<usize>,
}

impl Marker {
    /// The same marker, `f` weaker.
    pub open spec fn weakened(self, f: int) -> Marker {
        Marker { strength: (self.strength - f) as i64, ..self }
    }
}

/// The markers after one pass that takes `f` from each and drops those left
/// at or below zero; the order of the survivors is kept.
pub open spec fn decayed(ms: Seq<Marker>, f: int) -> Seq<Marker>
    decreases ms.len(),
{
    if ms.len() == 0 {
        Seq::empty()
    } else {
        let rest = decayed(ms.drop_last(), f);
        if ms.last().strength - f > 0 {
            rest.push(ms.last().weakened(f))
        } else {
            rest
        }
    }
}

/// The markers after `n` passes of fade rate `f`.
pub open spec fn decay_passes(ms: Seq<Marker>, f: int, n: nat) -> Seq<Marker>
    decreases n,
{
    if n == 0 {
        ms
    } else {
        decayed(decay_passes(ms, f, (n - 1) as nat), f)
    }
}

/// Every marker has a positive strength.
pub open spec fn all_alive(ms: Seq<Marker>) -> bool {
    forall|i: int| 0 <= i < ms.len() ==> #[trigger] ms[i].strength > 0
}

/// The squared Euclidean distance from `(x, y)` to `m`.
pub open spec fn dist2(m: Marker, x: int, y: int) -> int {
    (m.x - x) * (m.x - x) + (m.y - y) * (m.y - y)
}

/// Whether agent `agent` at `(x, y)` may follow `m`: it lies within
/// `radius` and was not laid by that agent.
pub open spec fn eligible(m: Marker, x: int, y: int, radius: int, agent: usize) -> bool {
    dist2(m, x, y) <= radius * radius && m.owner != Some(agent)
}

/// Whether `ms[i]` is the marker to follow: eligible, no eligible marker is
/// nearer, and none before it is as near (the first found wins a tie).
pub open spec fn is_nearest(
    ms: Seq<Marker>,
    x: int,
    y: int,
    radius: int,
    agent: usize,
    i: int,
) -> bool {
    &&& 0 <= i < ms.len()
    &&& eligible(ms[i], x, y, radius, agent)
    &&& forall|j: int|
        0 <= j < ms.len() && eligible(#[trigger] ms[j], x, y, radius, agent) ==> dist2(ms[i], x, y)
            <= dist2(ms[j], x, y)
    &&& forall|j: int|
        0 <= j < i && eligible(#[trigger] ms[j], x, y, radius, agent) ==> dist2(ms[i], x, y)
            < dist2(ms[j], x, y)
}

/// Whether no marker is eligible.
pub open spec fn none_eligible(ms: Seq<Marker>, x: int, y: int, radius: int, agent: usize) -> bool {
    forall|j: int| 0 <= j < ms.len() ==> !eligible(#[trigger] ms[j], x, y, radius, agent)
}

/// How many markers have a strength in `[lo, hi)`.
pub open spec fn count_in(ms: Seq<Marker>, lo: int, hi: int) -> nat
    decreases ms.len(),
{
    if ms.len() == 0 {
        0
    } else {
        count_in(ms.drop_last(), lo, hi) + if lo <= ms.last().strength < hi {
            1nat
        } else {
            0nat
        }
    }
}

/// At most `n` markers have their strength in any window of width `f`.
pub open spec fn crowding_at_most(ms: Seq<Marker>, f: int, n: int) -> bool {
    forall|lo: int| #[trigger] count_in(ms, lo, lo + f) <= n
}

/// The live markers of a simulation.
pub struct ScentField {
    markers: Vec<Marker>,
}

impl View for ScentField {
    type V = Seq<Marker>;

    closed spec fn view(&self) -> Seq<Marker> {
        self.markers@
    }
}

impl ScentField {
    /// No marker is dead.
    pub open spec fn wf(&self) -> bool {
        all_alive(self@)
    }

    /// An empty field.
    pub fn new() -> (r: ScentField)
        ensures
            r@ == Seq::<Marker>::empty(),
            r.wf(),
    {
        ScentField { markers: Vec::new() }
    }

    /// The number of live markers.
    pub fn len(&self) -> (r: usize)
        ensures
            r == self@.len(),
    {
        self.markers.len()
    }

    /// The marker at `i`.
    pub fn get(&self, i: usize) -> (r: Marker)
        requires
            i < self@.len(),
        ensures
            r == self@[i as int],
    {
        self.markers[i]
    }

    /// Adds a marker at the end.
    pub fn deposit(&mut self, m: Marker)
        requires
            old(self).wf(),
            m.strength > 0,
        ensures
            final(self)@ == old(self)@.push(m),
            final(self).wf(),
    {
        self.markers.push(m);
    }

    /// One decay pass: every marker loses `fade_rate`, and those left at or
    /// below zero are removed at once.
    pub fn decay(&mut self, fade_rate: i64)
        requires
            old(self).wf(),
            fade_rate > 0,
        ensures
            final(self)@ == decayed(old(self)@, fade_rate as int),
            final(self).wf(),
    {
        let ghost ms = self.markers@;
        let mut kept: Vec<Marker> = Vec::new();
        let mut i: usize = 0;
        while i < self.markers.len()
            invariant
                self.markers@ == ms,
                all_alive(ms),
                fade_rate > 0,
                i <= ms.len(),
                kept@ == decayed(ms.take(i as int), fade_rate as int),
            decreases ms.len() - i,
        {
            let m = self.markers[i];
            assert(ms.take(i + 1).drop_last() == ms.take(i as int));
            assert(ms[i as int].strength > 0);
            if m.strength - fade_rate > 0 {
                kept.push(Marker { strength: m.strength - fade_rate, ..m });
            }
            i = i + 1;
        }
        assert(ms.take(ms.len() as int) == ms);
        proof {
            lemma_decayed_alive(ms, fade_rate as int);
        }
        self.markers = kept;
    }

    /// The index of the marker that agent `agent` at `(x, y)` follows: the
    /// nearest eligible one, the first found on a tie; `None` when no marker
    /// is eligible.
    pub fn nearest(&self, x: i32, y: i32, radius: i64, agent: usize) -> (r: Option<usize>)
        ensures
            match r {
                Some(i) => is_nearest(self@, x as int, y as int, radius as int, agent, i as int),
                None => none_eligible(self@, x as int, y as int, radius as int, agent),
            },
    {
        let ghost ms = self@;
        let rr = radius as i128;
        assert(0 <= rr * rr <= 0x8000_0000_0000_0000i128 * 0x8000_0000_0000_0000i128) by (nonlinear_arith)
            requires
                -0x8000_0000_0000_0000i128 <= rr < 0x8000_0000_0000_0000i128,
        ;
        let r2: i128 = rr * rr;
        let mut best: Option<usize> = None;
        let mut best_d: i128 = 0;
        let mut i: usize = 0;
        while i < self.markers.len()
            invariant
                ms == self.markers@,
                r2 == radius * radius,
                i <= ms.len(),
                match best {
                    Some(b) => b < i && best_d == dist2(ms[b as int], x as int, y as int)
                        && eligible(ms[b as int], x as int, y as int, radius as int, agent)
                        && (forall|j: int|
                        0 <= j < i && eligible(#[trigger] ms[j], x as int, y as int, radius as int, agent)
                            ==> best_d <= dist2(ms[j], x as int, y as int))
                        && (forall|j: int|
                        0 <= j < b && eligible(#[trigger] ms[j], x as int, y as int, radius as int, agent)
                            ==> best_d < dist2(ms[j], x as int, y as int)),
                    None => forall|j: int|
                        0 <= j < i ==> !eligible(#[trigger] ms[j], x as int, y as int, radius as int, agent),
                },
            decreases ms.len() - i,
        {
            let m = self.markers[i];
            let dx = m.x as i64 - x as i64;
            let dy = m.y as i64 - y as i64;
            let (ex, ey) = (dx as i128, dy as i128);
            assert(0 <= ex * ex <= 0x1_0000_0000i128 * 0x1_0000_0000i128) by (nonlinear_arith)
                requires
                    -0x1_0000_0000i128 <= ex <= 0x1_0000_0000i128,
            ;
            assert(0 <= ey * ey <= 0x1_0000_0000i128 * 0x1_0000_0000i128) by (nonlinear_arith)
                requires
                    -0x1_0000_0000i128 <= ey <= 0x1_0000_0000i128,
            ;
            let d: i128 = ex * ex + ey * ey;
            let own = match m.owner {
                Some(o) => o == agent,
                None => false,
            };
            if d <= r2 && !own {
                let better = match best {
                    Some(_) => d < best_d,
                    None => true,
                };
                if better {
                    best = Some(i);
                    best_d = d;
                }
            }
            i = i + 1;
        }
        best
    }
}

/// Every marker that one pass leaves is alive.
pub proof fn lemma_decayed_alive(ms: Seq<Marker>, f: int)
    requires
        f >= 0,
    ensures
        all_alive(decayed(ms, f)),
    decreases ms.len(),
{
    if ms.len() > 0 {
        lemma_decayed_alive(ms.drop_last(), f);
        let rest = decayed(ms.drop_last(), f);
        if ms.last().strength - f > 0 {
            assert(ms.last().weakened(f).strength > 0);
            assert(forall|i: int| 0 <= i < rest.len() ==> rest.push(ms.last().weakened(f))[i] == rest[i]);
        }
    }
}

/// A pass of fade `0` leaves live markers as they are.
proof fn lemma_decayed_zero(ms: Seq<Marker>)
    requires
        all_alive(ms),
    ensures
        decayed(ms, 0) == ms,
    decreases ms.len(),
{
    if ms.len() > 0 {
        let init = ms.drop_last();
        assert(all_alive(init)) by {
            assert(forall|i: int| 0 <= i < init.len() ==> init[i] == ms[i]);
        }
        lemma_decayed_zero(init);
        assert(ms.last().strength > 0);
        assert(ms.last().weakened(0) == ms.last());
        assert(init.push(ms.last()) == ms);
    }
}

/// A pass of fade `f` followed by one of fade `g` is one pass of fade `f + g`.
proof fn lemma_decayed_compose(ms: Seq<Marker>, f: int, g: int)
    requires
        f >= 0,
        g >= 0,
    ensures
        decayed(decayed(ms, f), g) == decayed(ms, f + g),
    decreases ms.len(),
{
    if ms.len() > 0 {
        let m = ms.last();
        let rest = decayed(ms.drop_last(), f);
        lemma_decayed_compose(ms.drop_last(), f, g);
        if m.strength - f > 0 {
            let w = m.weakened(f);
            assert(rest.push(w).drop_last() == rest);
            assert(w.weakened(g) == m.weakened(f + g));
        }
    }
}

/// Fading: after `n` decay passes of fade rate `f > 0` with nothing
/// deposited, each marker of strength `s` is still there, in its place among
/// the others, with strength `s - n * f` exactly when that is positive, and
/// is gone otherwise; no marker of strength at or below zero survives.
pub proof fn lemma_decay_passes(ms: Seq<Marker>, f: int, n: nat)
    requires
        all_alive(ms),
        f > 0,
    ensures
        decay_passes(ms, f, n) == decayed(ms, n * f),
        all_alive(decay_passes(ms, f, n)),
    decreases n,
{
    if n == 0 {
        lemma_decayed_zero(ms);
    } else {
        lemma_decay_passes(ms, f, (n - 1) as nat);
        assert((n - 1) * f >= 0) by (nonlinear_arith)
            requires
                n >= 1,
                f > 0,
        ;
        lemma_decayed_compose(ms, (n - 1) * f, f);
        assert((n - 1) * f + f == n * f) by (nonlinear_arith);
        lemma_decayed_alive(decay_passes(ms, f, (n - 1) as nat), f);
    }
}

/// A pass of fade at least every strength empties the field.
proof fn lemma_decayed_empty(ms: Seq<Marker>, f: int)
    requires
        forall|i: int| 0 <= i < ms.len() ==> #[trigger] ms[i].strength <= f,
    ensures
        decayed(ms, f).len() == 0,
    decreases ms.len(),
{
    if ms.len() > 0 {
        let init = ms.drop_last();
        assert forall|i: int| 0 <= i < init.len() implies #[trigger] init[i].strength <= f by {
            assert(init[i] == ms[i]);
        }
        lemma_decayed_empty(init, f);
        assert(ms.last().strength <= f);
    }
}

/// Fade lifetime: markers no stronger than `s` are all gone after `n`
/// passes of fade rate `f > 0` once `n * f >= s`, so no marker lives more
/// than `s / f` rounded up passes.
pub proof fn lemma_markers_expire(ms: Seq<Marker>, s: int, f: int, n: nat)
    requires
        all_alive(ms),
        forall|i: int| 0 <= i < ms.len() ==> #[trigger] ms[i].strength <= s,
        f > 0,
        n * f >= s,
    ensures
        decay_passes(ms, f, n).len() == 0,
{
    lemma_decay_passes(ms, f, n);
    lemma_decayed_empty(ms, n * f);
}

/// A lone marker of strength `s` after `n` passes of fade rate `f > 0`: one
/// marker of strength `s - n * f` if that is positive, else none.
pub proof fn lemma_lone_marker_fades(m: Marker, f: int, n: nat)
    requires
        m.strength > 0,
        f > 0,
    ensures
        decay_passes(seq![m], f, n) == (if m.strength - n * f > 0 {
            seq![m.weakened(n * f)]
        } else {
            Seq::<Marker>::empty()
        }),
{
    lemma_decay_passes(seq![m], f, n);
    let one = seq![m];
    assert(one.drop_last() == Seq::<Marker>::empty());
    assert(one.last() == m);
    reveal_with_fuel(decayed, 2);
}

/// Counting over `[a, c)` is counting over `[a, b)` and over `[b, c)`.
proof fn lemma_count_split(ms: Seq<Marker>, a: int, b: int, c: int)
    requires
        a <= b <= c,
    ensures
        count_in(ms, a, c) == count_in(ms, a, b) + count_in(ms, b, c),
    decreases ms.len(),
{
    if ms.len() > 0 {
        lemma_count_split(ms.drop_last(), a, b, c);
    }
}

/// When every strength lies in `[lo, hi)`, all markers are counted.
proof fn lemma_count_all(ms: Seq<Marker>, lo: int, hi: int)
    requires
        forall|i: int| 0 <= i < ms.len() ==> lo <= #[trigger] ms[i].strength < hi,
    ensures
        count_in(ms, lo, hi) == ms.len(),
    decreases ms.len(),
{
    if ms.len() > 0 {
        let init = ms.drop_last();
        assert forall|i: int| 0 <= i < init.len() implies lo <= #[trigger] init[i].strength < hi by {
            assert(init[i] == ms[i]);
        }
        lemma_count_all(init, lo, hi);
        assert(lo <= ms.last().strength < hi);
    }
}

/// When no strength lies in `[lo, hi)`, none is counted.
pub proof fn lemma_count_none(ms: Seq<Marker>, lo: int, hi: int)
    requires
        forall|i: int| 0 <= i < ms.len() ==> !(lo <= #[trigger] ms[i].strength < hi),
    ensures
        count_in(ms, lo, hi) == 0,
    decreases ms.len(),
{
    if ms.len() > 0 {
        let init = ms.drop_last();
        assert forall|i: int| 0 <= i < init.len() implies !(lo <= #[trigger] init[i].strength < hi) by {
            assert(init[i] == ms[i]);
        }
        lemma_count_none(init, lo, hi);
        assert(!(lo <= ms.last().strength < hi));
    }
}

/// A count never exceeds the number of markers.
pub proof fn lemma_count_le_len(ms: Seq<Marker>, lo: int, hi: int)
    ensures
        count_in(ms, lo, hi) <= ms.len(),
    decreases ms.len(),
{
    if ms.len() > 0 {
        lemma_count_le_len(ms.drop_last(), lo, hi);
    }
}

/// Counting over two sequences put end to end.
pub proof fn lemma_count_concat(a: Seq<Marker>, b: Seq<Marker>, lo: int, hi: int)
    ensures
        count_in(a + b, lo, hi) == count_in(a, lo, hi) + count_in(b, lo, hi),
    decreases b.len(),
{
    if b.len() == 0 {
        assert(a + b == a);
    } else {
        lemma_count_concat(a, b.drop_last(), lo, hi);
        assert((a + b).drop_last() == a + b.drop_last());
        assert((a + b).last() == b.last());
    }
}

/// A pass of fade `f` moves each surviving strength down by `f`, so a
/// window counts no more markers afterwards than the window `f` higher
/// did before.
pub proof fn lemma_count_decayed(ms: Seq<Marker>, f: int, lo: int, hi: int)
    requires
        f >= 0,
    ensures
        count_in(decayed(ms, f), lo, hi) <= count_in(ms, lo + f, hi + f),
    decreases ms.len(),
{
    if ms.len() > 0 {
        lemma_count_decayed(ms.drop_last(), f, lo, hi);
        let rest = decayed(ms.drop_last(), f);
        if ms.last().strength - f > 0 {
            let w = ms.last().weakened(f);
            assert(rest.push(w).drop_last() == rest);
        }
    }
}

/// One pass of fade `f` leaves every strength at most `b - f` when all
/// were at most `b`.
pub proof fn lemma_decayed_below(ms: Seq<Marker>, f: int, b: int)
    requires
        f >= 0,
        forall|i: int| 0 <= i < ms.len() ==> #[trigger] ms[i].strength <= b,
    ensures
        forall|i: int| 0 <= i < decayed(ms, f).len() ==> #[trigger] decayed(ms, f)[i].strength <= b - f,
    decreases ms.len(),
{
    if ms.len() > 0 {
        let init = ms.drop_last();
        assert forall|i: int| 0 <= i < init.len() implies #[trigger] init[i].strength <= b by {
            assert(init[i] == ms[i]);
        }
        lemma_decayed_below(init, f, b);
        let rest = decayed(init, f);
        assert(ms.last().strength <= b);
        if ms.last().strength - f > 0 {
            let w = ms.last().weakened(f);
            assert forall|i: int| 0 <= i < rest.push(w).len() implies #[trigger] rest.push(w)[i].strength
                <= b - f by {
                if i < rest.len() {
                    assert(rest.push(w)[i] == rest[i]);
                }
            }
        }
    }
}

/// `k` windows of width `f` below `hi` hold at most `n * k` markers.
proof fn lemma_count_windows(ms: Seq<Marker>, f: int, n: int, hi: int, k: nat)
    requires
        crowding_at_most(ms, f, n),
        f > 0,
        n >= 0,
    ensures
        count_in(ms, hi - k * f, hi) <= n * k,
    decreases k,
{
    if k > 0 {
        lemma_count_windows(ms, f, n, hi, (k - 1) as nat);
        let lo = hi - k * f;
        assert(lo + f == hi - (k - 1) * f) by (nonlinear_arith)
            requires
                lo == hi - k * f,
        ;
        assert(lo <= hi - (k - 1) * f);
        assert(hi - (k - 1) * f <= hi) by (nonlinear_arith)
            requires
                k >= 1,
                f > 0,
        ;
        lemma_count_split(ms, lo, hi - (k - 1) * f, hi);
        assert(count_in(ms, lo, lo + f) <= n);
        assert(n * (k - 1) + n == n * k) by (nonlinear_arith);
    } else {
        lemma_count_none(ms, hi, hi);
        assert(hi - k * f == hi);
        assert(n * k == 0);
    }
}

/// Crowding bound: live markers whose strengths are at most `s0 - f`, with
/// at most `n` of them in any strength window of width `f`, number at most
/// `n * ((s0 - 1) / f)`: `n` per pass that a marker of strength `s0` lives.
pub proof fn lemma_live_markers_bounded(ms: Seq<Marker>, s0: int, f: int, n: int)
    requires
        all_alive(ms),
        forall|i: int| 0 <= i < ms.len() ==> #[trigger] ms[i].strength <= s0 - f,
        crowding_at_most(ms, f, n),
        f > 0,
        n >= 0,
        s0 >= 1,
    ensures
        ms.len() <= n * ((s0 - 1) / f),
{
    let k = (s0 - 1) / f;
    let hi = s0 - f + 1;
    assert(k * f >= s0 - f) by (nonlinear_arith)
        requires
            k == (s0 - 1) / f,
            f > 0,
            s0 >= 1,
    ;
    assert forall|i: int| 0 <= i < ms.len() implies hi - k * f <= #[trigger] ms[i].strength < hi by {
        assert(ms[i].strength > 0);
    }
    lemma_count_all(ms, hi - k * f, hi);
    lemma_count_windows(ms, f, n, hi, k as nat);
}

} // verus!
