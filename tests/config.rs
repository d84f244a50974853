use ant_sim::{ConfigError, SimConfig, HALF_TURN};

fn make(hw: i32, smin: u32, smax: u32, turn: i64, period: u32, s: i64, f: i64, r: i64) -> Result<SimConfig, ConfigError> {
    SimConfig::new(hw, 500_000, smin, smax, turn, period, s, f, r)
}

#[test]
fn valid_config_keeps_values() {
    let c = make(1_000_000, 30_000, 100_000, 18_000, 100, 1_000_000, 1_000, 50_000).unwrap();
    assert_eq!(c.arena.half_width, 1_000_000);
    assert_eq!(c.arena.half_height, 500_000);
    assert_eq!(c.follow_radius, 50_000);
    assert_eq!(c.fade_rate, 1_000);
}

#[test]
fn each_rule_has_its_error() {
    assert_eq!(make(0, 1, 2, 1, 1, 1, 1, 0), Err(ConfigError::NonPositiveExtent));
    assert_eq!(make(1, 2, 2, 1, 1, 1, 1, 0), Err(ConfigError::EmptySpeedRange));
    assert_eq!(make(1, 1, 2, 0, 1, 1, 1, 0), Err(ConfigError::TurnStrengthOutOfRange));
    assert_eq!(make(1, 1, 2, HALF_TURN + 1, 1, 1, 1, 0), Err(ConfigError::TurnStrengthOutOfRange));
    assert_eq!(make(1, 1, 2, 1, 0, 1, 1, 0), Err(ConfigError::NonPositivePeriod));
    assert_eq!(make(1, 1, 2, 1, 1, 0, 1, 0), Err(ConfigError::NonPositiveStrength));
    assert_eq!(make(1, 1, 2, 1, 1, 1, 0, 0), Err(ConfigError::NonPositiveFadeRate));
    assert_eq!(make(1, 1, 2, 1, 1, 1, -5, 0), Err(ConfigError::NonPositiveFadeRate));
    assert_eq!(make(1, 1, 2, 1, 1, 1, 1, -1), Err(ConfigError::NegativeFollowRadius));
    assert!(make(1, 1, 2, HALF_TURN, 1, 1, 1, 0).is_ok());
}

#[test]
fn standard_config_values() {
    let c = SimConfig::standard();
    assert_eq!(c.arena.half_width, 1_000_000);
    assert_eq!(c.arena.half_height, 500_000);
    assert_eq!(c.speed_min, 30_000);
    assert_eq!(c.speed_max, 100_000);
    assert_eq!(c.turn_strength, 18_000);
    assert_eq!(c.deposit_period_ms, 100);
    assert_eq!(c.initial_strength, 1_000_000);
    assert_eq!(c.fade_rate, 1_000);
}
