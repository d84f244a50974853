use ant_sim::{follow_turn, Marker, ScentField};

fn marker(x: i32, y: i32, strength: i64, owner: Option<usize>) -> Marker {
    Marker { x, y, strength, owner }
}

fn bearing(dx: i64, dy: i64) -> i64 {
    ((dy as f64).atan2(dx as f64).to_degrees() * 1000.0).round() as i64
}

#[test]
fn decay_subtracts_fade_each_pass() {
    let mut f = ScentField::new();
    f.deposit(marker(0, 0, 5_000, None));
    for n in 1..5 {
        f.decay(1_000);
        assert_eq!(f.len(), 1);
        assert_eq!(f.get(0).strength, 5_000 - n * 1_000);
    }
    f.decay(1_000);
    assert_eq!(f.len(), 0);
}

#[test]
fn decay_removes_only_spent_markers_and_keeps_order() {
    let mut f = ScentField::new();
    f.deposit(marker(1, 0, 3, None));
    f.deposit(marker(2, 0, 1, None));
    f.deposit(marker(3, 0, 2, Some(4)));
    f.decay(1);
    assert_eq!(f.len(), 2);
    assert_eq!(f.get(0), marker(1, 0, 2, None));
    assert_eq!(f.get(1), marker(3, 0, 1, Some(4)));
    f.decay(1);
    assert_eq!(f.len(), 1);
    assert_eq!(f.get(0), marker(1, 0, 1, None));
}

#[test]
fn standard_fade_lifetime() {
    let mut f = ScentField::new();
    f.deposit(marker(0, 0, 1_000_000, None));
    for _ in 0..999 {
        f.decay(1_000);
    }
    assert_eq!(f.get(0).strength, 1_000);
    f.decay(1_000);
    assert_eq!(f.len(), 0);
}

#[test]
fn nearest_picks_the_closest_eligible() {
    let mut f = ScentField::new();
    f.deposit(marker(50, 0, 10, Some(1)));
    f.deposit(marker(10, 0, 10, Some(0)));
    f.deposit(marker(0, 30, 10, None));
    f.deposit(marker(1_000, 0, 10, Some(2)));
    assert_eq!(f.nearest(0, 0, 100, 0), Some(2));
    assert_eq!(f.nearest(0, 0, 100, 1), Some(1));
    assert_eq!(f.nearest(0, 0, 20, 0), None);
    assert_eq!(f.nearest(0, 0, 10, 1), Some(1));
    assert_eq!(f.nearest(1_000, 0, 0, 0), Some(3));
    assert_eq!(f.nearest(1_000, 0, 0, 2), None);
}

#[test]
fn nearest_tie_goes_to_first_found() {
    let mut f = ScentField::new();
    f.deposit(marker(0, 5, 10, None));
    f.deposit(marker(5, 0, 10, None));
    f.deposit(marker(-3, -4, 10, None));
    assert_eq!(f.nearest(0, 0, 5, 9), Some(0));
}

#[test]
fn nearest_in_empty_field_is_none() {
    let f = ScentField::new();
    assert_eq!(f.nearest(0, 0, i64::MAX, 0), None);
}

#[test]
fn follow_bearing_straight_ahead_is_no_turn() {
    let mut f = ScentField::new();
    f.deposit(marker(10_000, 0, 10, Some(1)));
    let i = f.nearest(0, 0, 100_000, 0).unwrap();
    let m = f.get(i);
    let b = bearing(m.x as i64, m.y as i64);
    assert_eq!(b, 0);
    assert_eq!(follow_turn(b), 0);
}

#[test]
fn follow_bearing_quarter_turn_gives_eighth_turn() {
    let mut f = ScentField::new();
    f.deposit(marker(0, 10_000, 10, Some(1)));
    let i = f.nearest(0, 0, 100_000, 0).unwrap();
    let m = f.get(i);
    let b = bearing(m.x as i64, m.y as i64);
    assert_eq!(b, 90_000);
    assert_eq!(follow_turn(b), 45_000);
}
