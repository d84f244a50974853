use vstd::prelude::*;
use rand::rngs::StdRng;
use crate::agent::{tick_timer, timer_step, Agent};
use crate::config::SimConfig;
use crate::geometry::{Direction, HALF_TURN};
use crate::random::{draw_in, seeded_rng};
use crate::scent::{
    all_alive, count_in, crowding_at_most, decayed, is_nearest, lemma_count_concat, lemma_count_decayed,
    lemma_count_le_len, lemma_count_none, lemma_decayed_below, lemma_live_markers_bounded,
    none_eligible, Marker, ScentField,
};
use crate::steering::{steer, steer_spec, TurnInput};

verus! {

/// The agent after one steering step: the boundary state is read from its
/// current position.
pub open spec fn steered_agent(cfg: SimConfig, a: Agent, bearing: Option<i64>, draw: i64) -> Agent {
    let t = TurnInput { inside: cfg.arena.contains(a.x as int, a.y as int), bearing, draw };
    Agent { heading: steer_spec(a.heading as int, t) as i64, ..a }
}

/// Whether the deposition timer of `a` fires during `elapsed_ms`.
pub open spec fn fires(cfg: SimConfig, a: Agent, elapsed_ms: int) -> bool {
    timer_step(a.timer_ms as int, elapsed_ms, cfg.deposit_period_ms as int).1
}

/// The agent after moving along `dir` for `elapsed_ms` (clamped to the
/// arena) and advancing its deposition timer.
pub open spec fn advanced_agent(cfg: SimConfig, a: Agent, dir: Direction, elapsed_ms: int) -> Agent {
    let p = cfg.arena.moved(a.x as int, a.y as int, a.speed as int, dir, elapsed_ms);
    Agent {
        x: p.0 as i32,
        y: p.1 as i32,
        timer_ms: timer_step(a.timer_ms as int, elapsed_ms, cfg.deposit_period_ms as int).0 as u32,
        ..a
    }
}

/// The markers laid during one advance by the first `n` agents, in agent
/// order: one at the new position of each agent whose timer fired, at full
/// strength, owned by that agent.
pub open spec fn deposits(
    cfg: SimConfig,
    agents: Seq<Agent>,
    dirs: Seq<Direction>,
    elapsed_ms: int,
    n: int,
) -> Seq<Marker>
    decreases n,
{
    if n <= 0 {
        Seq::empty()
    } else {
        let prev = deposits(cfg, agents, dirs, elapsed_ms, n - 1);
        let a = advanced_agent(cfg, agents[n - 1], dirs[n - 1], elapsed_ms);
        if fires(cfg, agents[n - 1], elapsed_ms) {
            prev.push(
                Marker { x: a.x, y: a.y, strength: cfg.initial_strength, owner: Some((n - 1) as usize) },
            )
        } else {
            prev
        }
    }
}

/// Whether `after` is `before` steered with these bearings and some random
/// draws `draws`, each in `[-turn_strength, turn_strength)`.
pub open spec fn steered_by(
    cfg: SimConfig,
    before: Seq<Agent>,
    after: Seq<Agent>,
    bearings: Seq<Option<i64>>,
    draws: Seq<i64>,
) -> bool {
    &&& draws.len() == before.len()
    &&& after.len() == before.len()
    &&& forall|i: int| 0 <= i < draws.len() ==> -cfg.turn_strength <= #[trigger] draws[i] < cfg.turn_strength
    &&& forall|i: int|
        0 <= i < before.len() ==> #[trigger] after[i] == steered_agent(cfg, before[i], bearings[i], draws[i])
}

/// Whether `r` is the offset from agent `agent` (that is, `a`) to the marker
/// it follows, or `None` when it follows none.
pub open spec fn target_of(
    cfg: SimConfig,
    ms: Seq<Marker>,
    a: Agent,
    agent: usize,
    r: Option<(i64, i64)>,
) -> bool {
    match r {
        None => none_eligible(ms, a.x as int, a.y as int, cfg.follow_radius as int, agent),
        Some(o) => exists|j: int|
            is_nearest(ms, a.x as int, a.y as int, cfg.follow_radius as int, agent, j) && o.0
                == ms[j].x - a.x && o.1 == ms[j].y - a.y,
    }
}

/// The state of a run: its configuration, its agents, its scent field and
/// its random generator.
pub struct Simulation {
    config: SimConfig,
    agents: Vec<Agent>,
    field: ScentField,
    rng: StdRng,
}

impl Simulation {
    /// The configuration of the run.
    pub closed spec fn cfg(&self) -> SimConfig {
        self.config
    }

    /// The agents, indexed by their identity.
    pub closed spec fn agent_seq(&self) -> Seq<Agent> {
        self.agents@
    }

    /// The live markers, oldest first.
    pub closed spec fn marker_seq(&self) -> Seq<Marker> {
        self.field@
    }

    /// A valid configuration and valid agents; every marker alive and
    /// already faded at least once; and, since each agent lays at most one
    /// marker per pass, at most one marker per agent in any strength window
    /// of the width of one fade.
    pub open spec fn wf(&self) -> bool {
        &&& self.cfg().wf()
        &&& forall|i: int| 0 <= i < self.agent_seq().len() ==> (#[trigger] self.agent_seq()[i]).wf(self.cfg())
        &&& all_alive(self.marker_seq())
        &&& forall|i: int|
            0 <= i < self.marker_seq().len() ==> #[trigger] self.marker_seq()[i].strength
                <= self.cfg().initial_strength - self.cfg().fade_rate
        &&& crowding_at_most(
            self.marker_seq(),
            self.cfg().fade_rate as int,
            self.agent_seq().len() as int,
        )
    }

    /// The most markers that can be alive at once: one per agent for each
    /// pass that a fresh marker survives.
    pub open spec fn marker_capacity(&self) -> int {
        self.agent_seq().len() * ((self.cfg().initial_strength - 1) / self.cfg().fade_rate as int)
    }

    /// A run of `agent_count` agents spawned at the origin with random
    /// headings, speeds and timer phases drawn from a generator seeded with
    /// `seed`, and an empty scent field.
    pub fn new(config: SimConfig, agent_count: usize, seed: u64) -> (r: Simulation)
        requires
            config.wf(),
        ensures
            r.wf(),
            r.cfg() == config,
            r.agent_seq().len() == agent_count,
            forall|i: int| 0 <= i < agent_count ==> (#[trigger] r.agent_seq()[i]).x == 0 && r.agent_seq()[i].y == 0,
            r.marker_seq() == Seq::<Marker>::empty(),
    {
        let mut rng = seeded_rng(seed);
        let agents = Agent::batch_gen(agent_count, &mut rng, &config);
        assert forall|i: int| 0 <= i < agent_count implies (#[trigger] agents@[i]).x == 0 && agents@[i].y
            == 0 && agents@[i].wf(config) by {
            assert(agents@[i].wf(config));
        }
        Simulation { config, agents, field: ScentField::new(), rng }
    }

    /// The configuration.
    pub fn config(&self) -> (r: SimConfig)
        ensures
            r == self.cfg(),
    {
        self.config
    }

    /// The agents, for reading positions and headings.
    pub fn agents(&self) -> (r: &Vec<Agent>)
        ensures
            r@ == self.agent_seq(),
    {
        &self.agents
    }

    /// The scent field.
    pub fn field(&self) -> (r: &ScentField)
        ensures
            r@ == self.marker_seq(),
    {
        &self.field
    }

    /// For each agent, the offset `(dx, dy)` to the marker it would follow:
    /// the nearest within the follow radius not laid by itself (the first
    /// found on a tie), or `None`.
    pub fn scent_targets(&self) -> (r: Vec<Option<(i64, i64)>>)
        requires
            self.wf(),
        ensures
            r@.len() == self.agent_seq().len(),
            forall|i: int|
                0 <= i < r@.len() ==> #[trigger] target_of(
                    self.cfg(),
                    self.marker_seq(),
                    self.agent_seq()[i],
                    i as usize,
                    r@[i],
                ),
    {
        let mut out: Vec<Option<(i64, i64)>> = Vec::new();
        let mut i: usize = 0;
        while i < self.agents.len()
            invariant
                i <= self.agents@.len(),
                out@.len() == i,
                forall|k: int|
                    0 <= k < i ==> #[trigger] target_of(
                        self.config,
                        self.field@,
                        self.agents@[k],
                        k as usize,
                        out@[k],
                    ),
            decreases self.agents@.len() - i,
        {
            let a = self.agents[i];
            let t = match self.field.nearest(a.x, a.y, self.config.follow_radius, i) {
                Some(j) => {
                    let m = self.field.get(j);
                    Some((m.x as i64 - a.x as i64, m.y as i64 - a.y as i64))
                },
                None => None,
            };
            out.push(t);
            proof {
                assert(out@[i as int] == t);
            }
            i = i + 1;
        }
        out
    }

    /// The steering phase with the random draws given: each agent turns by
    /// `steer` from its current position, with `bearings[i]` as the bearing
    /// of the marker it follows and `draws[i]` as its random turn.
    pub fn steer_with(&mut self, bearings: &Vec<Option<i64>>, draws: &Vec<i64>)
        requires
            old(self).wf(),
            bearings@.len() == old(self).agent_seq().len(),
            draws@.len() == old(self).agent_seq().len(),
            forall|i: int|
                0 <= i < bearings@.len() ==> match #[trigger] bearings@[i] {
                    Some(b) => -HALF_TURN <= b <= HALF_TURN,
                    None => true,
                },
            forall|i: int|
                0 <= i < draws@.len() ==> -old(self).cfg().turn_strength <= #[trigger] draws@[i]
                    < old(self).cfg().turn_strength,
        ensures
            final(self).wf(),
            final(self).cfg() == old(self).cfg(),
            final(self).marker_seq() == old(self).marker_seq(),
            final(self).agent_seq().len() == old(self).agent_seq().len(),
            forall|i: int|
                0 <= i < old(self).agent_seq().len() ==> #[trigger] final(self).agent_seq()[i]
                    == steered_agent(old(self).cfg(), old(self).agent_seq()[i], bearings@[i], draws@[i]),
    {
        let ghost before = self.agents@;
        let mut i: usize = 0;
        while i < self.agents.len()
            invariant
                self.config.wf(),
                all_alive(self.field@),
                self.field@ == old(self).marker_seq(),
                self.config == old(self).cfg(),
                before == old(self).agent_seq(),
                self.agents@.len() == before.len(),
                bearings@.len() == before.len(),
                draws@.len() == before.len(),
                i <= before.len(),
                forall|k: int|
                    0 <= k < bearings@.len() ==> match #[trigger] bearings@[k] {
                        Some(b) => -HALF_TURN <= b <= HALF_TURN,
                        None => true,
                    },
                forall|k: int|
                    0 <= k < draws@.len() ==> -self.config.turn_strength <= #[trigger] draws@[k]
                        < self.config.turn_strength,
                forall|k: int| 0 <= k < before.len() ==> (#[trigger] before[k]).wf(self.config),
                forall|k: int|
                    0 <= k < i ==> #[trigger] self.agents@[k] == steered_agent(
                        self.config,
                        before[k],
                        bearings@[k],
                        draws@[k],
                    ),
                forall|k: int| i <= k < before.len() ==> #[trigger] self.agents@[k] == before[k],
                forall|k: int| 0 <= k < before.len() ==> (#[trigger] self.agents@[k]).wf(self.config),
            decreases before.len() - i,
        {
            let a = self.agents[i];
            let inside = self.config.arena.is_inside(a.x, a.y);
            let b = bearings[i];
            let d = draws[i];
            assert(-HALF_TURN <= d <= HALF_TURN);
            let t = TurnInput { inside, bearing: b, draw: d };
            let h = steer(a.heading, t);
            self.agents.set(i, Agent { heading: h, ..a });
            i = i + 1;
        }
    }

    /// The steering phase: each agent draws its random turn uniformly from
    /// `[-turn_strength, turn_strength)` (a continuous draw, not a coin flip
    /// between two fixed turns) and turns as `steer_with` says.
    pub fn steer(&mut self, bearings: &Vec<Option<i64>>)
        requires
            old(self).wf(),
            bearings@.len() == old(self).agent_seq().len(),
            forall|i: int|
                0 <= i < bearings@.len() ==> match #[trigger] bearings@[i] {
                    Some(b) => -HALF_TURN <= b <= HALF_TURN,
                    None => true,
                },
        ensures
            final(self).wf(),
            final(self).cfg() == old(self).cfg(),
            final(self).marker_seq() == old(self).marker_seq(),
            final(self).agent_seq().len() == old(self).agent_seq().len(),
            exists|draws: Seq<i64>|
                #[trigger] steered_by(
                    old(self).cfg(),
                    old(self).agent_seq(),
                    final(self).agent_seq(),
                    bearings@,
                    draws,
                ),
    {
        let n = self.agents.len();
        let ts = self.config.turn_strength;
        let mut draws: Vec<i64> = Vec::new();
        let mut i: usize = 0;
        while i < n
            invariant
                self.config == old(self).cfg(),
                ts == self.config.turn_strength,
                self.config.wf(),
                i <= n,
                draws@.len() == i,
                forall|k: int| 0 <= k < i ==> -ts <= #[trigger] draws@[k] < ts,
                self.agents@ == old(self).agent_seq(),
                self.field@ == old(self).marker_seq(),
            decreases n - i,
        {
            let d = draw_in(&mut self.rng, -ts, ts);
            draws.push(d);
            i = i + 1;
        }
        self.steer_with(bearings, &draws);
        assert(steered_by(old(self).cfg(), old(self).agent_seq(), self.agents@, bearings@, draws@));
    }

    /// The movement, deposition and decay phases: each agent moves along
    /// `dirs[i]` for `elapsed_ms` (clamped to the arena) and advances its
    /// deposition timer; each agent whose timer fired lays a marker at its
    /// new position; then every marker, new ones included, decays once.
    pub fn advance(&mut self, dirs: &Vec<Direction>, elapsed_ms: u64)
        requires
            old(self).wf(),
            dirs@.len() == old(self).agent_seq().len(),
            forall|i: int| 0 <= i < dirs@.len() ==> (#[trigger] dirs@[i]).wf(),
        ensures
            final(self).wf(),
            final(self).cfg() == old(self).cfg(),
            final(self).agent_seq().len() == old(self).agent_seq().len(),
            forall|i: int|
                0 <= i < old(self).agent_seq().len() ==> #[trigger] final(self).agent_seq()[i]
                    == advanced_agent(old(self).cfg(), old(self).agent_seq()[i], dirs@[i], elapsed_ms as int),
            final(self).marker_seq() == decayed(
                old(self).marker_seq() + deposits(
                    old(self).cfg(),
                    old(self).agent_seq(),
                    dirs@,
                    elapsed_ms as int,
                    old(self).agent_seq().len() as int,
                ),
                old(self).cfg().fade_rate as int,
            ),
            final(self).marker_seq().len() <= old(self).marker_seq().len() + old(self).agent_seq().len(),
            final(self).marker_seq().len() <= final(self).marker_capacity(),
    {
        let ghost before = self.agents@;
        let ghost ms0 = self.field@;
        let mut i: usize = 0;
        while i < self.agents.len()
            invariant
                self.config.wf(),
                self.config == old(self).cfg(),
                before == old(self).agent_seq(),
                ms0 == old(self).marker_seq(),
                self.agents@.len() == before.len(),
                dirs@.len() == before.len(),
                i <= before.len(),
                forall|k: int| 0 <= k < dirs@.len() ==> (#[trigger] dirs@[k]).wf(),
                forall|k: int| 0 <= k < before.len() ==> (#[trigger] before[k]).wf(self.config),
                forall|k: int|
                    0 <= k < i ==> #[trigger] self.agents@[k] == advanced_agent(
                        self.config,
                        before[k],
                        dirs@[k],
                        elapsed_ms as int,
                    ),
                forall|k: int| i <= k < before.len() ==> #[trigger] self.agents@[k] == before[k],
                forall|k: int| 0 <= k < before.len() ==> (#[trigger] self.agents@[k]).wf(self.config),
                self.field.wf(),
                self.field@ == ms0 + deposits(self.config, before, dirs@, elapsed_ms as int, i as int),
            decreases before.len() - i,
        {
            let a = self.agents[i];
            let (x, y) = self.config.arena.integrate(a.x, a.y, a.speed, dirs[i], elapsed_ms);
            let (timer, fired) = tick_timer(a.timer_ms, elapsed_ms, self.config.deposit_period_ms);
            let moved = Agent { x, y, timer_ms: timer, ..a };
            self.agents.set(i, moved);
            if fired {
                let m = Marker { x, y, strength: self.config.initial_strength, owner: Some(i) };
                self.field.deposit(m);
                proof {
                    assert(ms0 + deposits(self.config, before, dirs@, elapsed_ms as int, i + 1) == (ms0
                        + deposits(self.config, before, dirs@, elapsed_ms as int, i as int)).push(m));
                }
            }
            i = i + 1;
        }
        let ghost deps = deposits(self.config, before, dirs@, elapsed_ms as int, before.len() as int);
        let ghost comb = self.field@;
        let ghost s0 = self.config.initial_strength as int;
        let ghost f = self.config.fade_rate as int;
        let ghost n = before.len() as int;
        proof {
            lemma_deposits_len(self.config, before, dirs@, elapsed_ms as int, n);
            lemma_decayed_len(comb, f);
            assert forall|i: int| 0 <= i < comb.len() implies #[trigger] comb[i].strength <= s0 by {
                if i < ms0.len() {
                    assert(comb[i] == ms0[i]);
                } else {
                    assert(comb[i] == deps[i - ms0.len()]);
                }
            }
            assert forall|lo: int| #[trigger] count_in(comb, lo, lo + f) <= n by {
                lemma_count_concat(ms0, deps, lo, lo + f);
                lemma_count_le_len(deps, lo, lo + f);
                if lo <= s0 < lo + f {
                    assert forall|i: int| 0 <= i < ms0.len() implies !(lo <= #[trigger] ms0[i].strength
                        < lo + f) by {}
                    lemma_count_none(ms0, lo, lo + f);
                } else {
                    assert forall|i: int| 0 <= i < deps.len() implies !(lo <= #[trigger] deps[i].strength
                        < lo + f) by {}
                    lemma_count_none(deps, lo, lo + f);
                }
            }
        }
        self.field.decay(self.config.fade_rate);
        proof {
            let new = self.field@;
            lemma_decayed_below(comb, f, s0);
            assert forall|lo: int| #[trigger] count_in(new, lo, lo + f) <= n by {
                lemma_count_decayed(comb, f, lo, lo + f);
                assert(count_in(comb, lo + f, lo + f + f) <= n);
            }
            lemma_live_markers_bounded(new, s0, f, n);
        }
    }
}

/// At most one marker per agent is laid in one advance.
proof fn lemma_deposits_len(
    cfg: SimConfig,
    agents: Seq<Agent>,
    dirs: Seq<Direction>,
    elapsed_ms: int,
    n: int,
)
    requires
        n >= 0,
    ensures
        deposits(cfg, agents, dirs, elapsed_ms, n).len() <= n,
        forall|i: int|
            0 <= i < deposits(cfg, agents, dirs, elapsed_ms, n).len() ==> (#[trigger] deposits(
                cfg,
                agents,
                dirs,
                elapsed_ms,
                n,
            )[i]).strength == cfg.initial_strength,
    decreases n,
{
    if n > 0 {
        lemma_deposits_len(cfg, agents, dirs, elapsed_ms, n - 1);
        let prev = deposits(cfg, agents, dirs, elapsed_ms, n - 1);
        let a = advanced_agent(cfg, agents[n - 1], dirs[n - 1], elapsed_ms);
        let m = Marker { x: a.x, y: a.y, strength: cfg.initial_strength, owner: Some((n - 1) as usize) };
        assert forall|i: int| 0 <= i < prev.len() implies #[trigger] prev.push(m)[i] == prev[i] by {}
    }
}

/// A decay pass never adds markers.
proof fn lemma_decayed_len(ms: Seq<Marker>, f: int)
    ensures
        decayed(ms, f).len() <= ms.len(),
    decreases ms.len(),
{
    if ms.len() > 0 {
        lemma_decayed_len(ms.drop_last(), f);
    }
}

} // verus!
