//! Integer geometry: distances, ranges, and steps toward a point.
use vstd::prelude::*;
use crate::grid::WorldPos;

verus! {

/// How far from the origin a position may lie, in world units.
pub const POS_LIMIT: i64 = 2_000_000_000_000_000;

/// Fastest step, in world units per frame.
pub const SPEED_LIMIT: i64 = 1_000_000;

/// A position within the world's bounds.
pub open spec fn in_world(p: WorldPos) -> bool {
    -POS_LIMIT <= p.x <= POS_LIMIT && -POS_LIMIT <= p.y <= POS_LIMIT
}

/// The squared distance between two positions.
pub open spec fn dist2(a: WorldPos, b: WorldPos) -> int {
    (a.x - b.x) * (a.x - b.x) + (a.y - b.y) * (a.y - b.y)
}

/// Whether `r` is the integer square root of `n`, rounded down.
pub open spec fn is_floor_sqrt(n: int, r: int) -> bool {
    0 <= r && r * r <= n < (r + 1) * (r + 1)
}

/// The integer square root, rounded down.
pub open spec fn floor_sqrt(n: int) -> int {
    choose|r: int| is_floor_sqrt(n, r)
}

/// `d * speed / len`, rounded toward zero.
pub open spec fn scaled(d: int, speed: int, len: int) -> int {
    if d >= 0 {
        (d * speed) / len
    } else {
        -(((-d) * speed) / len)
    }
}

/// `v` held within the world's bounds.
pub open spec fn clamp_coord(v: int) -> int {
    if v < -POS_LIMIT {
        -POS_LIMIT as int
    } else if v > POS_LIMIT {
        POS_LIMIT as int
    } else {
        v
    }
}

/// One step of length `speed` (rounded toward zero on each axis) from `from`
/// toward `to`, held within the world; `from` itself where the two coincide.
pub open spec fn step_toward(from: WorldPos, to: WorldPos, speed: int) -> WorldPos {
    let len = floor_sqrt(dist2(from, to));
    if len == 0 {
        from
    } else {
        WorldPos {
            x: clamp_coord(from.x + scaled(to.x - from.x, speed, len)) as i64,
            y: clamp_coord(from.y + scaled(to.y - from.y, speed, len)) as i64,
        }
    }
}

proof fn lemma_floor_sqrt_unique(n: int, r: int)
    requires
        is_floor_sqrt(n, r),
    ensures
        floor_sqrt(n) == r,
{
    let s = floor_sqrt(n);
    assert(is_floor_sqrt(n, s));
    if s < r {
        assert((s + 1) * (s + 1) <= r * r) by (nonlinear_arith)
            requires
                0 <= s,
                s + 1 <= r,
        ;
    } else if r < s {
        assert((r + 1) * (r + 1) <= s * s) by (nonlinear_arith)
            requires
                0 <= r,
                r + 1 <= s,
        ;
    }
}

proof fn lemma_square_bound(d: int, b: int)
    requires
        -b <= d <= b,
        0 <= b,
    ensures
        0 <= d * d <= b * b,
{
    assert(0 <= d * d <= b * b) by (nonlinear_arith)
        requires
            -b <= d <= b,
            0 <= b,
    ;
}

/// The squared distance between two positions of the world.
pub fn distance_squared(a: WorldPos, b: WorldPos) -> (r: u128)
    requires
        in_world(a),
        in_world(b),
    ensures
        r == dist2(a, b),
        r <= 32_000_000_000_000_000_000_000_000_000_000,
{
    let dx = a.x as i128 - b.x as i128;
    let dy = a.y as i128 - b.y as i128;
    proof {
        lemma_square_bound(dx as int, 4_000_000_000_000_000);
        lemma_square_bound(dy as int, 4_000_000_000_000_000);
    }
    (dx * dx + dy * dy) as u128
}

/// Whether two positions lie at most `radius` apart.
pub fn within(a: WorldPos, b: WorldPos, radius: i64) -> (r: bool)
    requires
        in_world(a),
        in_world(b),
        0 <= radius <= POS_LIMIT,
    ensures
        r == (dist2(a, b) <= radius * radius),
{
    proof {
        lemma_square_bound(radius as int, POS_LIMIT as int);
    }
    distance_squared(a, b) <= (radius as u128) * (radius as u128)
}

/// The integer square root of `n`, rounded down.
pub fn isqrt(n: u128) -> (r: u128)
    requires
        n <= 32_000_000_000_000_000_000_000_000_000_000,
    ensures
        is_floor_sqrt(n as int, r as int),
        r == floor_sqrt(n as int),
        r <= 6_000_000_000_000_000,
{
    let mut lo: u128 = 0;
    let mut hi: u128 = 6_000_000_000_000_000;
    assert(hi * hi > n) by (nonlinear_arith)
        requires
            hi == 6_000_000_000_000_000,
            n <= 32_000_000_000_000_000_000_000_000_000_000,
    ;
    while hi - lo > 1
        invariant
            lo < hi <= 6_000_000_000_000_000,
            lo * lo <= n,
            n < hi * hi,
        decreases hi - lo,
    {
        let mid = lo + (hi - lo) / 2;
        assert(mid * mid <= 36_000_000_000_000_000_000_000_000_000_000) by (nonlinear_arith)
            requires
                mid <= 6_000_000_000_000_000,
        ;
        if mid * mid <= n {
            lo = mid;
        } else {
            hi = mid;
        }
    }
    assert(hi == lo + 1);
    proof {
        lemma_floor_sqrt_unique(n as int, lo as int);
    }
    lo
}

proof fn lemma_scaled_bound(d: int, speed: int, len: int)
    requires
        0 <= speed,
        0 < len,
        d * d <= len * len + 2 * len,
    ensures
        -speed <= scaled(d, speed, len) <= speed,
{
    let a = if d >= 0 {
        d
    } else {
        -d
    };
    assert(a * a == d * d) by (nonlinear_arith)
        requires
            a == d || a == -d,
    ;
    assert(a <= len) by (nonlinear_arith)
        requires
            a >= 0,
            a * a == d * d,
            d * d <= len * len + 2 * len,
            0 < len,
    ;
    assert(a * speed <= len * speed) by (nonlinear_arith)
        requires
            0 <= a <= len,
            0 <= speed,
    ;
    assert((a * speed) / len <= speed) by (nonlinear_arith)
        requires
            a * speed <= len * speed,
            0 < len,
            0 <= a * speed,
    ;
    assert(0 <= (a * speed) / len) by (nonlinear_arith)
        requires
            0 <= a * speed,
            0 < len,
    ;
}

fn scale(d: i128, speed: i128, len: i128) -> (r: i128)
    requires
        -4_000_000_000_000_000 <= d <= 4_000_000_000_000_000,
        0 <= speed <= SPEED_LIMIT,
        0 < len,
        d * d <= len * len + 2 * len,
    ensures
        r == scaled(d as int, speed as int, len as int),
        -speed <= r <= speed,
{
    proof {
        lemma_scaled_bound(d as int, speed as int, len as int);
    }
    if d >= 0 {
        assert(d * speed <= 4_000_000_000_000_000 * 1_000_000) by (nonlinear_arith)
            requires
                0 <= d <= 4_000_000_000_000_000,
                0 <= speed <= 1_000_000,
        ;
        (d * speed) / len
    } else {
        assert((-d) * speed <= 4_000_000_000_000_000 * 1_000_000) by (nonlinear_arith)
            requires
                0 <= -d <= 4_000_000_000_000_000,
                0 <= speed <= 1_000_000,
        ;
        -(((-d) * speed) / len)
    }
}

fn clamp(v: i128) -> (r: i64)
    ensures
        r == clamp_coord(v as int),
{
    if v < -(POS_LIMIT as i128) {
        -POS_LIMIT
    } else if v > POS_LIMIT as i128 {
        POS_LIMIT
    } else {
        v as i64
    }
}

/// One step of length `speed` from `from` toward `to`.
pub fn move_toward(from: WorldPos, to: WorldPos, speed: i64) -> (r: WorldPos)
    requires
        in_world(from),
        in_world(to),
        0 <= speed <= SPEED_LIMIT,
    ensures
        r == step_toward(from, to, speed as int),
        in_world(r),
{
    let n = distance_squared(from, to);
    let len = isqrt(n);
    if len == 0 {
        return from;
    }
    let dx = to.x as i128 - from.x as i128;
    let dy = to.y as i128 - from.y as i128;
    assert(dx * dx + dy * dy == n && 0 <= dx * dx && 0 <= dy * dy) by (nonlinear_arith)
        requires
            dx == to.x - from.x,
            dy == to.y - from.y,
            n == (from.x - to.x) * (from.x - to.x) + (from.y - to.y) * (from.y - to.y),
    ;
    assert(dx * dx <= len * len + 2 * len && dy * dy <= len * len + 2 * len) by (nonlinear_arith)
        requires
            dx * dx + dy * dy == n,
            n < (len + 1) * (len + 1),
            0 <= dx * dx,
            0 <= dy * dy,
    ;
    let sx = scale(dx, speed as i128, len as i128);
    let sy = scale(dy, speed as i128, len as i128);
    WorldPos { x: clamp(from.x as i128 + sx), y: clamp(from.y as i128 + sy) }
}

} // verus!
