use vstd::prelude::*;

verus! {

/// One full turn, in millidegrees.
pub const FULL_TURN: i64 = 360_000;

/// Half a turn (a reversal), in millidegrees.
pub const HALF_TURN: i64 = 180_000;

/// The scale of the components of a `Direction`: a unit vector has length `DIR_SCALE`.
pub const DIR_SCALE: i64 = 1_000_000;

/// `value` limited to `[min, max]`.
pub open spec fn clamp_spec(min: int, max: int, value: int) -> int {
    if value < min {
        min
    } else if value > max {
        max
    } else {
        value
    }
}

/// An angle brought into `[0, FULL_TURN)`.
pub open spec fn normalized(a: int) -> int {
    a % (FULL_TURN as int)
}

/// Integer division of `a` by a positive `b`, rounded toward zero.
pub open spec fn div_toward_zero(a: int, b: int) -> int {
    if a >= 0 {
        a / b
    } else {
        -((-a) / b)
    }
}

/// The damped turn toward a marker seen at `bearing`: half of the bearing.
pub open spec fn follow_turn_spec(bearing: int) -> int {
    div_toward_zero(bearing, 2)
}

/// The turn imposed by the boundary: a reversal outside, the normal magnitude inside.
pub open spec fn turn_penalty_spec(inside: bool, turn_strength: int) -> int {
    if inside {
        turn_strength
    } else {
        HALF_TURN as int
    }
}

/// `value` limited to `[min, max]`.
pub fn clamp(min: i64, max: i64, value: i64) -> (r: i64)
    requires
        min <= max,
    ensures
        r == clamp_spec(min as int, max as int, value as int),
{
    if value < min {
        min
    } else if value > max {
        max
    } else {
        value
    }
}

/// Brings an angle that lies within one turn of `[0, FULL_TURN)` back into it.
pub fn normalize_angle(a: i64) -> (r: i64)
    requires
        -FULL_TURN <= a < 2 * FULL_TURN,
    ensures
        r == normalized(a as int),
        0 <= r < FULL_TURN,
{
    if a < 0 {
        a + FULL_TURN
    } else if a >= FULL_TURN {
        a - FULL_TURN
    } else {
        a
    }
}

/// The turn toward a marker at absolute `bearing` (millidegrees): half of it,
/// rounded toward zero.
pub fn follow_turn(bearing: i64) -> (r: i64)
    requires
        -HALF_TURN <= bearing <= HALF_TURN,
    ensures
        r == follow_turn_spec(bearing as int),
{
    if bearing >= 0 {
        bearing / 2
    } else {
        -((-bearing) / 2)
    }
}

/// The turn magnitude that the boundary allows: `HALF_TURN` outside the
/// arena, `turn_strength` inside it.
pub fn turn_penalty(inside: bool, turn_strength: i64) -> (r: i64)
    ensures
        r == turn_penalty_spec(inside, turn_strength as int),
{
    if inside {
        turn_strength
    } else {
        HALF_TURN
    }
}

/// A heading as a vector: `cos` and `sin` of the heading, scaled by `DIR_SCALE`.
#[derive(Clone, Copy, Debug, PartialEq, Eq)]
pub struct Direction {
    pub cos: i32,
    pub sin: i32,
}

impl Direction {
    pub open spec fn wf(self) -> bool {
        &&& -DIR_SCALE <= self.cos <= DIR_SCALE
        &&& -DIR_SCALE <= self.sin <= DIR_SCALE
    }
}

/// The distance covered along one axis: `speed` (thousandths of a unit per
/// second) times the direction component times the elapsed milliseconds,
/// rounded toward zero.
pub open spec fn displacement(speed: int, component: int, elapsed_ms: int) -> int {
    div_toward_zero(speed * component * elapsed_ms, DIR_SCALE * 1000)
}

/// A rectangle centred at the origin, given by its half-extents.
#[derive(Clone, Copy, Debug, PartialEq, Eq)]
pub struct Arena {
    pub half_width: i32,
    pub half_height: i32,
}

/// Strictly inside the rectangle of half-extents `hw`, `hh`: the boundary counts as outside.
pub open spec fn inside_spec(hw: int, hh: int, x: int, y: int) -> bool {
    -hw < x < hw && -hh < y < hh
}

impl Arena {
    pub open spec fn wf(self) -> bool {
        self.half_width > 0 && self.half_height > 0
    }

    /// Whether a point lies strictly inside: -half_width < x < half_width and
    /// -half_height < y < half_height.
    pub open spec fn contains(self, x: int, y: int) -> bool {
        inside_spec(self.half_width as int, self.half_height as int, x, y)
    }

    /// Whether a point lies in the closed rectangle, boundary included.
    pub open spec fn covers(self, x: int, y: int) -> bool {
        -self.half_width <= x <= self.half_width && -self.half_height <= y <= self.half_height
    }

    /// The position after moving from `(x, y)` along `dir` at `speed` for
    /// `elapsed_ms`, each axis clamped to the closed rectangle.
    pub open spec fn moved(
        self,
        x: int,
        y: int,
        speed: int,
        dir: Direction,
        elapsed_ms: int,
    ) -> (int, int) {
        (
            clamp_spec(
                -self.half_width,
                self.half_width as int,
                x + displacement(speed, dir.cos as int, elapsed_ms),
            ),
            clamp_spec(
                -self.half_height,
                self.half_height as int,
                y + displacement(speed, dir.sin as int, elapsed_ms),
            ),
        )
    }

    /// Whether `(x, y)` lies strictly inside the arena.
    pub fn is_inside(&self, x: i32, y: i32) -> (r: bool)
        ensures
            r == self.contains(x as int, y as int),
    {
        let (x, y) = (x as i64, y as i64);
        let (hw, hh) = (self.half_width as i64, self.half_height as i64);
        x > -hw && x < hw && y > -hh && y < hh
    }

    /// Moves a point along `dir` at `speed` for `elapsed_ms` and clamps it to
    /// the closed rectangle.
    pub fn integrate(&self, x: i32, y: i32, speed: u32, dir: Direction, elapsed_ms: u64) -> (r: (
        i32,
        i32,
    ))
        requires
            self.wf(),
            dir.wf(),
        ensures
            (r.0 as int, r.1 as int) == self.moved(
                x as int,
                y as int,
                speed as int,
                dir,
                elapsed_ms as int,
            ),
            self.covers(r.0 as int, r.1 as int),
    {
        let nx = integrate_axis(x, speed, dir.cos, elapsed_ms, self.half_width);
        let ny = integrate_axis(y, speed, dir.sin, elapsed_ms, self.half_height);
        (nx, ny)
    }
}

/// One axis of `Arena::integrate`.
fn integrate_axis(pos: i32, speed: u32, component: i32, elapsed_ms: u64, half_extent: i32) -> (r:
    i32)
    requires
        half_extent > 0,
        -DIR_SCALE <= component <= DIR_SCALE,
    ensures
        r as int == clamp_spec(
            -half_extent,
            half_extent as int,
            pos + displacement(speed as int, component as int, elapsed_ms as int),
        ),
{
    let mag: u64 = if component < 0 {
        (-(component as i64)) as u64
    } else {
        component as u64
    };
    assert(speed * mag <= 4294967295u64 * 1_000_000u64) by (nonlinear_arith)
        requires
            speed <= 4294967295u64,
            mag <= 1_000_000u64,
    ;
    let sm: u128 = (speed as u128) * (mag as u128);
    assert(sm * elapsed_ms <= 4294967295u128 * 1_000_000u128 * 18446744073709551615u128)
        by (nonlinear_arith)
        requires
            sm <= 4294967295u128 * 1_000_000u128,
            elapsed_ms <= 18446744073709551615u128,
    ;
    let prod: u128 = sm * (elapsed_ms as u128);
    let q: u128 = prod / 1_000_000_000u128;
    assert(q <= 1u128 << 100u128) by (bit_vector)
        requires
            q == prod / 1_000_000_000u128,
    ;
    let he = half_extent as i128;
    let target: i128 = if component < 0 {
        pos as i128 - q as i128
    } else {
        pos as i128 + q as i128
    };
    proof {
        let p = speed as int * component as int * elapsed_ms as int;
        if component < 0 {
            assert(p == -(speed as int * mag as int * elapsed_ms as int)) by (nonlinear_arith)
                requires
                    mag == -component,
                    p == speed as int * component as int * elapsed_ms as int,
            ;
        } else {
            assert(p == speed as int * mag as int * elapsed_ms as int);
        }
    }
    if target < -he {
        -half_extent
    } else if target > he {
        half_extent
    } else {
        target as i32
    }
}

} // verus!
