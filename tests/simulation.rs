use ant_sim::{Agent, Direction, SimConfig, Simulation, HALF_TURN};

fn direction(heading: i64) -> Direction {
    let rad = (heading as f64 / 1000.0).to_radians();
    Direction {
        cos: (rad.cos() * 1_000_000.0).round().clamp(-1_000_000.0, 1_000_000.0) as i32,
        sin: (rad.sin() * 1_000_000.0).round().clamp(-1_000_000.0, 1_000_000.0) as i32,
    }
}

fn bearing(dx: i64, dy: i64) -> i64 {
    (((dy as f64).atan2(dx as f64).to_degrees() * 1000.0).round() as i64).clamp(-HALF_TURN, HALF_TURN)
}

fn dirs(sim: &Simulation) -> Vec<Direction> {
    sim.agents().iter().map(|a: &Agent| direction(a.heading)).collect()
}

#[test]
fn new_spawns_agents_at_origin() {
    let sim = Simulation::new(SimConfig::standard(), 20, 1);
    assert_eq!(sim.agents().len(), 20);
    assert!(sim.agents().iter().all(|a| a.x == 0 && a.y == 0 && a.timer_ms < 100));
    assert_eq!(sim.field().len(), 0);
    assert_eq!(sim.config(), SimConfig::standard());
}

#[test]
fn same_seed_same_run() {
    let run = || {
        let mut sim = Simulation::new(SimConfig::standard(), 10, 77);
        for _ in 0..50 {
            let none = vec![None; 10];
            sim.steer(&none);
            let d = dirs(&sim);
            sim.advance(&d, 100);
        }
        sim.agents().clone()
    };
    assert_eq!(run(), run());
}

#[test]
fn different_seeds_differ() {
    let a = Simulation::new(SimConfig::standard(), 10, 1);
    let b = Simulation::new(SimConfig::standard(), 10, 2);
    assert_ne!(a.agents(), b.agents());
}

#[test]
fn one_period_lays_one_marker() {
    let mut sim = Simulation::new(SimConfig::standard(), 1, 5);
    let d = dirs(&sim);
    sim.advance(&d, 100);
    assert_eq!(sim.field().len(), 1);
    let m = sim.field().get(0);
    let a = sim.agents()[0];
    assert_eq!((m.x, m.y), (a.x, a.y));
    assert_eq!(m.owner, Some(0));
    assert_eq!(m.strength, 1_000_000 - 1_000);
    assert_eq!(a.timer_ms, 0);
}

#[test]
fn three_periods_lay_one_marker() {
    let mut sim = Simulation::new(SimConfig::standard(), 1, 6);
    let d = dirs(&sim);
    sim.advance(&d, 300);
    assert_eq!(sim.field().len(), 1);
    assert_eq!(sim.agents()[0].timer_ms, 0);
    let d = dirs(&sim);
    sim.advance(&d, 300);
    assert_eq!(sim.field().len(), 2);
}

#[test]
fn short_step_lays_nothing_and_keeps_time() {
    let mut sim = Simulation::new(SimConfig::standard(), 1, 6);
    let t0 = sim.agents()[0].timer_ms;
    let d = dirs(&sim);
    sim.advance(&d, 0);
    assert_eq!(sim.field().len(), 0);
    assert_eq!(sim.agents()[0].timer_ms, t0);
}

#[test]
fn agents_move_by_speed_and_heading() {
    let mut sim = Simulation::new(SimConfig::standard(), 3, 8);
    let before = sim.agents().clone();
    let d = vec![Direction { cos: 1_000_000, sin: 0 }; 3];
    sim.advance(&d, 100);
    for (a, b) in before.iter().zip(sim.agents().iter()) {
        assert_eq!(b.x, a.x + (a.speed as i32) / 10);
        assert_eq!(b.y, a.y);
        assert_eq!(b.heading, a.heading);
    }
}

#[test]
fn steering_follows_other_agents_markers() {
    let cfg = SimConfig::new(1_000_000, 500_000, 30_000, 100_000, 18_000, 100, 1_000_000, 1_000, 1_000_000).unwrap();
    let mut sim = Simulation::new(cfg, 2, 4);
    // Agent 1 stays put while agent 0 walks east and lays a marker.
    let d = vec![Direction { cos: 1_000_000, sin: 0 }, Direction { cos: 0, sin: 0 }];
    sim.advance(&d, 1_000);
    let targets = sim.scent_targets();
    let a0 = sim.agents()[0];
    let m0 = sim.field().get(0);
    assert_eq!(m0.owner, Some(0));
    // Agent 1 sees the marker of agent 0, straight east.
    let (dx, dy) = targets[1].unwrap();
    assert!(dx > 0 && dy == 0);
    assert_eq!(targets[0], Some((0 - a0.x as i64, 0)));
    let h1 = sim.agents()[1].heading;
    let bearings: Vec<Option<i64>> = targets.iter().map(|t| t.map(|(x, y)| bearing(x, y))).collect();
    assert_eq!(bearings[1], Some(0));
    sim.steer(&bearings);
    assert_eq!(sim.agents()[1].heading, h1);
}

#[test]
fn steer_with_given_draws() {
    let mut sim = Simulation::new(SimConfig::standard(), 2, 2);
    let h: Vec<i64> = sim.agents().iter().map(|a| a.heading).collect();
    sim.steer_with(&vec![None, Some(-180_000)], &vec![-18_000, 17_999]);
    // Both agents sit at the origin, inside the arena.
    assert_eq!(sim.agents()[0].heading, (h[0] - 18_000).rem_euclid(360_000));
    assert_eq!(sim.agents()[1].heading, (h[1] - 90_000).rem_euclid(360_000));
}

#[test]
fn hundred_agents_thousand_ticks_stay_in_bounds() {
    let cfg = SimConfig::new(500_000, 250_000, 30_000, 100_000, 18_000, 100, 1_000_000, 1_000, 0).unwrap();
    let mut sim = Simulation::new(cfg, 100, 2024);
    assert!(sim.agents().iter().all(|a| a.heading >= 0 && a.heading < 360_000));
    let lifetime_ticks = (1_000_000 / 1_000) as usize;
    for tick in 1..=1000usize {
        sim.steer(&vec![None; 100]);
        let d = dirs(&sim);
        sim.advance(&d, 100);
        for a in sim.agents() {
            assert!(a.x.abs() <= 500_000 && a.y.abs() <= 250_000);
            assert!(a.speed >= 30_000 && a.speed < 100_000);
        }
        assert!(sim.field().len() <= 100 * tick.min(lifetime_ticks));
    }
    assert!(sim.field().len() > 0);
}
