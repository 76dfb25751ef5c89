//! Integer geometry and deterministic random helpers.
use vstd::prelude::*;

verus! {

/// A map position in game units.
pub type EntityPos = (u64, u64);

/// `r` is the floor of the square root of `v`.
pub open spec fn is_floor_sqrt(v: int, r: int) -> bool {
    &&& 0 <= r
    &&& r * r <= v
    &&& v < (r + 1) * (r + 1)
}

proof fn lemma_mid_le_div(value: u64, mid: u64)
    requires
        mid > 0,
    ensures
        (mid <= value / mid) <==> (mid * mid <= value),
{
    assert((mid <= value / mid) <==> (mid * mid <= value)) by (nonlinear_arith)
        requires
            mid > 0,
    {
        let q = value / mid;
        let r = value % mid;
        assert(value == mid * q + r);
        assert(0 <= r < mid);
        if mid <= q {
            assert(mid * mid <= mid * q);
        } else {
            assert(q + 1 <= mid);
            assert(mid * (q + 1) <= mid * mid);
        }
    }
}

/// Floor of the square root of `value`, by bisection.
pub fn integer_sqrt(value: u64) -> (r: u64)
    ensures
        is_floor_sqrt(value as int, r as int),
{
    if value == 0 {
        assert(is_floor_sqrt(0, 0)) by (nonlinear_arith);
        return 0;
    }
    let mut low: u64 = 0;
    let mut high: u64 = if value < u64::MAX { value + 1 } else { u64::MAX };
    assert(value < high * high) by (nonlinear_arith)
        requires
            value > 0,
            high >= value,
            high >= 2 || value == 1,
            value == 1 ==> high == 2,
    ;
    while low + 1 < high
        invariant
            value > 0,
            low < high,
            low * low <= value,
            value < high * high,
        decreases high - low,
    {
        let mid = low + (high - low) / 2;
        assert(low < mid < high);
        proof {
            lemma_mid_le_div(value, mid);
        }
        if mid <= value / mid {
            low = mid;
        } else {
            high = mid;
        }
    }
    low
}

/// Exact value of `bounded_force_move_speed`.
pub open spec fn spec_bounded_force_move_speed(speed: int, ticks: int, distance: int) -> int {
    if speed == 0 || ticks == 0 || distance == 0 {
        0
    } else {
        let padded = if distance + ticks - 1 > u64::MAX { u64::MAX as int } else { distance + ticks - 1 };
        let required = if padded / ticks < 1 { 1 } else { padded / ticks };
        if speed < required { speed } else { required }
    }
}

/// The per-tick speed that covers `distance` in `ticks` ticks (rounded up,
/// at least one), never faster than `speed`; zero when any input is zero.
pub fn bounded_force_move_speed(speed: u64, ticks: u64, distance: u64) -> (r: u64)
    ensures
        r == spec_bounded_force_move_speed(speed as int, ticks as int, distance as int),
{
    if speed == 0 || ticks == 0 || distance == 0 {
        return 0;
    }
    let padded = distance.saturating_add(ticks - 1);
    let q = padded / ticks;
    let required = if q < 1 { 1 } else { q };
    if speed < required { speed } else { required }
}

/// Largest value whose square fits in an `i128`.
pub const I128_SQRT_MAX: i128 = 13043817825332782212;

/// `x * x` clamped to `i128::MAX`.
pub open spec fn sat_square(x: int) -> int {
    if x * x > i128::MAX { i128::MAX as int } else { x * x }
}

/// `x * x + y * y` clamped to `i128::MAX`.
pub open spec fn spec_squared_len(x: int, y: int) -> int {
    if x * x + y * y > i128::MAX { i128::MAX as int } else { x * x + y * y }
}

proof fn lemma_square_bound(x: int)
    ensures
        (-I128_SQRT_MAX <= x <= I128_SQRT_MAX) ==> x * x <= i128::MAX,
        !(-I128_SQRT_MAX <= x <= I128_SQRT_MAX) ==> x * x > i128::MAX,
{
    let b = I128_SQRT_MAX as int;
    assert(b * b <= i128::MAX) by (nonlinear_arith)
        requires
            b == 13043817825332782212int,
    ;
    assert((b + 1) * (b + 1) > i128::MAX) by (nonlinear_arith)
        requires
            b == 13043817825332782212int,
    ;
    if -b <= x <= b {
        assert(x * x <= b * b) by (nonlinear_arith)
            requires
                -b <= x <= b,
        ;
    } else {
        assert(x * x >= (b + 1) * (b + 1)) by (nonlinear_arith)
            requires
                x > b || x < -b,
                b > 0,
        ;
    }
}

fn saturating_square_i128(x: i128) -> (r: i128)
    ensures
        r == sat_square(x as int),
        r >= 0,
{
    proof {
        lemma_square_bound(x as int);
    }
    if -I128_SQRT_MAX <= x && x <= I128_SQRT_MAX {
        assert(x * x >= 0) by (nonlinear_arith);
        x * x
    } else {
        i128::MAX
    }
}

/// Squared length of `(x, y)`, saturating at `i128::MAX`.
pub fn squared_len_i128(x: i128, y: i128) -> (r: i128)
    ensures
        r == spec_squared_len(x as int, y as int),
        r >= 0,
{
    let xx = saturating_square_i128(x);
    let yy = saturating_square_i128(y);
    assert(x * x >= 0 && y * y >= 0) by (nonlinear_arith);
    if xx > i128::MAX - yy {
        i128::MAX
    } else {
        xx + yy
    }
}

/// Squared euclidean distance of two positions, clamped to `u64::MAX`.
pub open spec fn spec_distance_sq(a: EntityPos, b: EntityPos) -> int {
    let dx = a.0 - b.0;
    let dy = a.1 - b.1;
    if dx * dx + dy * dy > u64::MAX { u64::MAX as int } else { dx * dx + dy * dy }
}

/// Squared euclidean distance between two positions, saturating at `u64::MAX`.
pub fn distance_sq(a: EntityPos, b: EntityPos) -> (r: u64)
    ensures
        r == spec_distance_sq(a, b),
{
    let dx = a.0 as i128 - b.0 as i128;
    let dy = a.1 as i128 - b.1 as i128;
    let len = squared_len_i128(dx, dy);
    if len > u64::MAX as i128 {
        u64::MAX
    } else {
        len as u64
    }
}


/// `v` fits in an `i128`.
pub open spec fn in_i128(v: int) -> bool {
    i128::MIN <= v <= i128::MAX
}

/// The projection parameter `t` (scaled by the squared segment length),
/// clamped onto the segment.
pub open spec fn segment_t(point: EntityPos, start: EntityPos, end: EntityPos) -> int {
    let abx = end.0 - start.0;
    let aby = end.1 - start.1;
    let len = spec_squared_len(abx, aby);
    let dot = (point.0 - start.0) * abx + (point.1 - start.1) * aby;
    if dot < 0 { 0 } else if dot > len { len } else { dot }
}

/// Every intermediate product of `distance_to_segment_sq` fits in an `i128`
/// (the computation overflows otherwise).
pub open spec fn segment_arith_fits(point: EntityPos, start: EntityPos, end: EntityPos) -> bool {
    let px = point.0 as int;
    let py = point.1 as int;
    let ax = start.0 as int;
    let ay = start.1 as int;
    let abx = end.0 - ax;
    let aby = end.1 - ay;
    let len = spec_squared_len(abx, aby);
    let t = segment_t(point, start, end);
    len <= 0 || {
        &&& in_i128((px - ax) * abx)
        &&& in_i128((py - ay) * aby)
        &&& in_i128((px - ax) * abx + (py - ay) * aby)
        &&& in_i128(px * len)
        &&& in_i128(ax * len)
        &&& in_i128(abx * t)
        &&& in_i128(ax * len + abx * t)
        &&& in_i128(px * len - (ax * len + abx * t))
        &&& in_i128(py * len)
        &&& in_i128(ay * len)
        &&& in_i128(aby * t)
        &&& in_i128(ay * len + aby * t)
        &&& in_i128(py * len - (ay * len + aby * t))
    }
}

/// Squared distance from `point` to the segment `start..end`, computed on
/// numerators scaled by the squared segment length and clamped to `u64::MAX`.
pub open spec fn spec_distance_to_segment_sq(point: EntityPos, start: EntityPos, end: EntityPos) -> int {
    let px = point.0 as int;
    let py = point.1 as int;
    let ax = start.0 as int;
    let ay = start.1 as int;
    let abx = end.0 - ax;
    let aby = end.1 - ay;
    let len = spec_squared_len(abx, aby);
    let t = segment_t(point, start, end);
    if len <= 0 || len * len > i128::MAX {
        spec_distance_sq(point, start)
    } else {
        let dxn = px * len - (ax * len + abx * t);
        let dyn_ = py * len - (ay * len + aby * t);
        let q = spec_squared_len(dxn, dyn_) / (len * len);
        if q > u64::MAX { u64::MAX as int } else { q }
    }
}

/// Squared distance from `point` to the closest point of the segment
/// `start..end` (to `start` when the segment is degenerate).
pub fn distance_to_segment_sq(point: EntityPos, start: EntityPos, end: EntityPos) -> (r: u64)
    requires
        segment_arith_fits(point, start, end),
    ensures
        r == spec_distance_to_segment_sq(point, start, end),
{
    let px = point.0 as i128;
    let py = point.1 as i128;
    let ax = start.0 as i128;
    let ay = start.1 as i128;
    let abx = end.0 as i128 - ax;
    let aby = end.1 as i128 - ay;
    let ab_len_sq = squared_len_i128(abx, aby);
    if ab_len_sq <= 0 {
        return distance_sq(point, start);
    }
    let dot = (px - ax) * abx + (py - ay) * aby;
    let t_num = if dot < 0 { 0 } else if dot > ab_len_sq { ab_len_sq } else { dot };
    let dx_num = px * ab_len_sq - (ax * ab_len_sq + abx * t_num);
    let dy_num = py * ab_len_sq - (ay * ab_len_sq + aby * t_num);
    proof {
        lemma_square_bound(ab_len_sq as int);
    }
    if ab_len_sq > I128_SQRT_MAX {
        return distance_sq(point, start);
    }
    assert(ab_len_sq * ab_len_sq > 0) by (nonlinear_arith)
        requires
            ab_len_sq > 0,
    ;
    let denominator = ab_len_sq * ab_len_sq;
    let len = squared_len_i128(dx_num, dy_num);
    let q = (len as u128) / (denominator as u128);
    if q > u64::MAX as u128 {
        u64::MAX
    } else {
        q as u64
    }
}

/// The splitmix64 finalizer, with wrapping arithmetic.
pub open spec fn spec_splitmix64(value: u64) -> u64 {
    let v = value.wrapping_add(0x9e3779b97f4a7c15);
    let z1 = (v ^ (v >> 30u64)).wrapping_mul(0xbf58476d1ce4e5b9);
    let z2 = (z1 ^ (z1 >> 27u64)).wrapping_mul(0x94d049bb133111eb);
    z2 ^ (z2 >> 31u64)
}

/// The splitmix64 mixing function.
pub fn splitmix64(value: u64) -> (r: u64)
    ensures
        r == spec_splitmix64(value),
{
    let v = value.wrapping_add(0x9e3779b97f4a7c15);
    let mut z = v;
    z = (z ^ (z >> 30u64)).wrapping_mul(0xbf58476d1ce4e5b9);
    z = (z ^ (z >> 27u64)).wrapping_mul(0x94d049bb133111eb);
    z ^ (z >> 31u64)
}

/// The value `chance_percent` mixes from its seed, ids and tick.
pub open spec fn chance_roll(seed: u64, caster_id: usize, target_id: usize, tick: usize) -> u64 {
    spec_splitmix64(
        seed ^ ((caster_id as u64) << 40u64) ^ ((target_id as u64) << 16u64) ^ (tick as u64)
            ^ 0xa11ceu64,
    )
}

/// Exact value of `chance_percent`.
pub open spec fn spec_chance_percent(
    seed: u64,
    caster_id: usize,
    target_id: usize,
    tick: usize,
    percent: usize,
) -> bool {
    percent >= 100 || chance_roll(seed, caster_id, target_id, tick) % 100 < percent
}

/// Deterministic percentage roll: always true from 100 up, otherwise true
/// when the mixed value modulo 100 is below `percent`.
pub fn chance_percent(seed: u64, caster_id: usize, target_id: usize, tick: usize, percent: usize) -> (r: bool)
    ensures
        r == spec_chance_percent(seed, caster_id, target_id, tick, percent),
{
    if percent >= 100 {
        return true;
    }
    let mixed = splitmix64(
        seed ^ ((caster_id as u64) << 40u64) ^ ((target_id as u64) << 16u64) ^ (tick as u64)
            ^ 0xa11ceu64,
    );
    mixed % 100 < percent as u64
}

/// Exact value of `seeded_index`.
pub open spec fn spec_seeded_index(seed: u64, salt: u64, len: usize) -> usize {
    if len <= 1 {
        0
    } else {
        ((spec_splitmix64(seed ^ salt) as usize) % len) as usize
    }
}

/// Deterministically selects an index in `0..len` from a seed and a salt.
pub fn seeded_index(seed: u64, salt: u64, len: usize) -> (r: usize)
    ensures
        r == spec_seeded_index(seed, salt, len),
{
    if len <= 1 {
        return 0;
    }
    (splitmix64(seed ^ salt) as usize) % len
}

/// Squared distance from `point` to the segment `start..end`, or `None` when
/// an intermediate product of `distance_to_segment_sq` would overflow an
/// `i128`.
pub fn checked_distance_to_segment_sq(point: EntityPos, start: EntityPos, end: EntityPos) -> (r: Option<u64>)
    ensures
        segment_arith_fits(point, start, end) ==> r == Some(spec_distance_to_segment_sq(point, start, end) as u64),
        !segment_arith_fits(point, start, end) ==> r is None,
{
    let px = point.0 as i128;
    let py = point.1 as i128;
    let ax = start.0 as i128;
    let ay = start.1 as i128;
    let abx = end.0 as i128 - ax;
    let aby = end.1 as i128 - ay;
    let len = squared_len_i128(abx, aby);
    if len > 0 {
        let Some(m1) = (px - ax).checked_mul(abx) else { return None; };
        let Some(m2) = (py - ay).checked_mul(aby) else { return None; };
        let Some(dot) = m1.checked_add(m2) else { return None; };
        let t = if dot < 0 { 0 } else if dot > len { len } else { dot };
        assert(t == segment_t(point, start, end));
        let Some(a1) = px.checked_mul(len) else { return None; };
        let Some(a2) = ax.checked_mul(len) else { return None; };
        let Some(a3) = abx.checked_mul(t) else { return None; };
        let Some(a4) = a2.checked_add(a3) else { return None; };
        let Some(_a5) = a1.checked_sub(a4) else { return None; };
        let Some(b1) = py.checked_mul(len) else { return None; };
        let Some(b2) = ay.checked_mul(len) else { return None; };
        let Some(b3) = aby.checked_mul(t) else { return None; };
        let Some(b4) = b2.checked_add(b3) else { return None; };
        let Some(_b5) = b1.checked_sub(b4) else { return None; };
    }
    let d = distance_to_segment_sq(point, start, end);
    Some(d)
}

} // verus!
