use ant_sim::{clamp, follow_turn, normalize_angle, turn_penalty, Arena, Direction, FULL_TURN, HALF_TURN};

fn arena() -> Arena {
    Arena { half_width: 1_000_000, half_height: 500_000 }
}

#[test]
fn inside_points_are_inside() {
    let a = arena();
    assert!(a.is_inside(0, 0));
    assert!(a.is_inside(999_999, 499_999));
    assert!(a.is_inside(-999_999, -499_999));
}

#[test]
fn boundary_counts_as_outside() {
    let a = arena();
    assert!(!a.is_inside(1_000_000, 0));
    assert!(!a.is_inside(-1_000_000, 0));
    assert!(!a.is_inside(0, 500_000));
    assert!(!a.is_inside(0, -500_000));
    assert!(!a.is_inside(1_000_001, 600_000));
    assert!(!a.is_inside(i32::MIN, i32::MAX));
}

#[test]
fn clamp_limits_values() {
    assert_eq!(clamp(-10, 10, 5), 5);
    assert_eq!(clamp(-10, 10, 11), 10);
    assert_eq!(clamp(-10, 10, -11), -10);
    assert_eq!(clamp(-10, 10, 10), 10);
}

#[test]
fn normalize_wraps_into_one_turn() {
    assert_eq!(normalize_angle(-1), FULL_TURN - 1);
    assert_eq!(normalize_angle(FULL_TURN), 0);
    assert_eq!(normalize_angle(FULL_TURN + 5), 5);
    assert_eq!(normalize_angle(42), 42);
}

#[test]
fn follow_turn_is_half_the_bearing() {
    assert_eq!(follow_turn(0), 0);
    assert_eq!(follow_turn(90_000), 45_000);
    assert_eq!(follow_turn(-90_000), -45_000);
    assert_eq!(follow_turn(-3), -1);
    assert_eq!(follow_turn(HALF_TURN), 90_000);
}

#[test]
fn turn_penalty_reverses_outside() {
    assert_eq!(turn_penalty(false, 18_000), HALF_TURN);
    assert_eq!(turn_penalty(true, 18_000), 18_000);
}

#[test]
fn integrate_moves_by_speed_times_time() {
    let a = arena();
    // 50 units per second for 100 ms: 5 units.
    let r = a.integrate(0, 0, 50_000, Direction { cos: 1_000_000, sin: 0 }, 100);
    assert_eq!(r, (5_000, 0));
    let r = a.integrate(0, 0, 50_000, Direction { cos: 0, sin: -1_000_000 }, 100);
    assert_eq!(r, (0, -5_000));
    let r = a.integrate(100, 100, 30_000, Direction { cos: -500_000, sin: 866_025 }, 1_000);
    assert_eq!(r, (100 - 15_000, 100 + 25_980));
}

#[test]
fn integrate_clamps_to_the_arena() {
    let a = arena();
    let r = a.integrate(999_000, -499_000, 100_000, Direction { cos: 1_000_000, sin: -1_000_000 }, 100);
    assert_eq!(r, (1_000_000, -500_000));
    let r = a.integrate(0, 0, u32::MAX, Direction { cos: -1_000_000, sin: 1_000_000 }, u64::MAX);
    assert_eq!(r, (-1_000_000, 500_000));
}
