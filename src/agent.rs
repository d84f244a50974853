use vstd::prelude::*;
use rand::rngs::StdRng;
use crate::config::SimConfig;
use crate::geometry::FULL_TURN;
use crate::random::draw_in;

verus! {

/// One simulated ant.
#[derive(Clone, Copy, Debug, PartialEq, Eq)]
pub struct Agent {
    /// Heading in millidegrees, kept in `[0, FULL_TURN)`.
    pub heading: i64,
    /// Speed in thousandths of a unit per second; fixed at spawn.
    pub speed: u32,
    pub x: i32,
    pub y: i32,
    /// Milliseconds since the last deposition, below the deposition period.
    pub timer_ms: u32,
}

impl Agent {
    pub open spec fn wf(self, cfg: SimConfig) -> bool {
        &&& 0 <= self.heading < FULL_TURN
        &&& cfg.speed_min <= self.speed < cfg.speed_max
        &&& self.timer_ms < cfg.deposit_period_ms
        &&& cfg.arena.covers(self.x as int, self.y as int)
    }

    /// A fresh agent at the origin with a random heading in `[0, FULL_TURN)`,
    /// a random speed in `[speed_min, speed_max)` and a random timer phase in
    /// `[0, deposit_period_ms)`, so that agents do not deposit in lockstep.
    pub fn gen(rng: &mut StdRng, cfg: &SimConfig) -> (r: Agent)
        requires
            cfg.wf(),
        ensures
            r.wf(*cfg),
            r.x == 0 && r.y == 0,
    {
        let phase = draw_in(rng, 0, cfg.deposit_period_ms as i64);
        let heading = draw_in(rng, 0, FULL_TURN);
        let speed = draw_in(rng, cfg.speed_min as i64, cfg.speed_max as i64);
        Agent { heading, speed: speed as u32, x: 0, y: 0, timer_ms: phase as u32 }
    }

    /// `amount` fresh agents, each as `gen` makes them.
    pub fn batch_gen(amount: usize, rng: &mut StdRng, cfg: &SimConfig) -> (r: Vec<Agent>)
        requires
            cfg.wf(),
        ensures
            r@.len() == amount,
            forall|i: int| 0 <= i < amount ==> #[trigger] r@[i].wf(*cfg) && r@[i].x == 0 && r@[i].y == 0,
    {
        let mut v: Vec<Agent> = Vec::new();
        let mut k: usize = 0;
        while k < amount
            invariant
                cfg.wf(),
                k <= amount,
                v@.len() == k,
                forall|i: int| 0 <= i < k ==> #[trigger] v@[i].wf(*cfg) && v@[i].x == 0 && v@[i].y == 0,
            decreases amount - k,
        {
            v.push(Agent::gen(rng, cfg));
            k = k + 1;
        }
        v
    }
}

/// The deposition timer after `delta_ms` more milliseconds: it fires when
/// the period is reached, and then restarts from zero whatever the excess
/// (one deposition per expiry, no catch-up).
pub open spec fn timer_step(elapsed_ms: int, delta_ms: int, period_ms: int) -> (int, bool) {
    if elapsed_ms + delta_ms >= period_ms {
        (0, true)
    } else {
        (elapsed_ms + delta_ms, false)
    }
}

/// Advances a deposition timer: returns its new value and whether it fired.
pub fn tick_timer(elapsed_ms: u32, delta_ms: u64, period_ms: u32) -> (r: (u32, bool))
    requires
        elapsed_ms < period_ms,
    ensures
        (r.0 as int, r.1) == timer_step(elapsed_ms as int, delta_ms as int, period_ms as int),
        r.0 < period_ms,
{
    if delta_ms >= (period_ms - elapsed_ms) as u64 {
        (0, true)
    } else {
        (elapsed_ms + delta_ms as u32, false)
    }
}

} // verus!
