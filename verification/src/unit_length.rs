//! How close to one the length of a unit vector is.
//!
//! Squares, square roots and quotients all round toward zero, so the length
//! of a unit vector is not exactly one. This module bounds the error.

use crate::fixed::{
    floor_sqrt, lemma_floor_sqrt_exists, magnitude, product, trunc_div, ONE_RAW,
};
use crate::vec3::{largest, lifted, room, Vec3};
use vstd::prelude::*;

verus! {

/// The square of a scalar, rounded toward zero: `p` with
/// `p * 2^32 <= x^2 < (p + 1) * 2^32`, or the largest scalar where `p` exceeds it.
proof fn lemma_square(x: int) -> (p: int)
    ensures
        p >= 0,
        p * 0x1_0000_0000 <= magnitude(x) * magnitude(x) < p * 0x1_0000_0000 + 0x1_0000_0000,
        p <= i64::MAX ==> product(x, x) == p,
        p > i64::MAX ==> product(x, x) == i64::MAX,
{
    let q = x * x;
    let a = magnitude(x);
    assert(q >= 0 && q == a * a) by (nonlinear_arith)
        requires
            q == x * x,
            a == x || a == -x,
    ;
    let p = q / 0x1_0000_0000;
    assert(q / (ONE_RAW as int) == p);
    p
}

/// The quotient of `x` by a positive `len`, rounded toward zero: its
/// magnitude `m` has `m * len <= |x| * 2^32 < (m + 1) * len`.
proof fn lemma_component(x: int, len: int) -> (m: int)
    requires
        len > 0,
    ensures
        m >= 0,
        m == magnitude(trunc_div(x * ONE_RAW, len)),
        m * len <= magnitude(x) * 0x1_0000_0000 < m * len + len,
{
    let a = magnitude(x);
    let n = a * 0x1_0000_0000;
    let m = n / len;
    assert(0 <= m && m * len <= n < m * len + len) by (nonlinear_arith)
        requires
            n >= 0,
            len > 0,
            m == n / len,
    ;
    assert(x * ONE_RAW == x * 0x1_0000_0000) by (nonlinear_arith)
        requires
            ONE_RAW == 0x1_0000_0000,
    ;
    m
}

/// What rounding a quotient toward zero does to its square: with `m` the
/// rounded quotient of `a * w` by `len`, the square of `m * len` falls short
/// of the square of `a * w` by less than `2 * w * len * a`.
proof fn lemma_component_square(a: int, m: int, len: int, w: int)
    requires
        a >= 0,
        m >= 0,
        len > 0,
        w > 0,
        m * len <= a * w < m * len + len,
    ensures
        (m * m) * (len * len) <= (w * w) * (a * a),
        (m * m) * (len * len) >= (w * w) * (a * a) - 2 * (w * (len * a)),
{
    let t = m * len;
    let u = a * w;
    assert(t >= 0) by (nonlinear_arith)
        requires
            t == m * len,
            m >= 0,
            len > 0,
    ;
    assert(t * t <= u * u) by (nonlinear_arith)
        requires
            0 <= t <= u,
    ;
    assert(t * t >= u * u - 2 * (u * len)) by (nonlinear_arith)
        requires
            0 <= t <= u,
            u < t + len,
            len > 0,
    ;
    assert(t * t == (m * m) * (len * len)) by (nonlinear_arith)
        requires
            t == m * len,
    ;
    assert(u * u == (w * w) * (a * a)) by (nonlinear_arith)
        requires
            u == a * w,
    ;
    assert(u * len == w * (len * a)) by (nonlinear_arith)
        requires
            u == a * w,
    ;
}

/// The rounded squares `px`, `py`, `pz` of three magnitudes and the floor
/// square root `len` of their sum, times `2^32`.
spec fn is_length(ax: int, ay: int, az: int, px: int, py: int, pz: int, len: int) -> bool {
    &&& ax >= 0 && ay >= 0 && az >= 0
    &&& px * 0x1_0000_0000 <= ax * ax < px * 0x1_0000_0000 + 0x1_0000_0000
    &&& py * 0x1_0000_0000 <= ay * ay < py * 0x1_0000_0000 + 0x1_0000_0000
    &&& pz * 0x1_0000_0000 <= az * az < pz * 0x1_0000_0000 + 0x1_0000_0000
    &&& len >= 0
    &&& len * len <= (px + py + pz) * 0x1_0000_0000 < (len + 1) * (len + 1)
}

/// The magnitudes `mx`, `my`, `mz` of the quotients of three magnitudes by `len`.
spec fn is_unit(ax: int, ay: int, az: int, len: int, mx: int, my: int, mz: int) -> bool {
    &&& mx >= 0 && my >= 0 && mz >= 0
    &&& mx * len <= ax * 0x1_0000_0000 < mx * len + len
    &&& my * len <= ay * 0x1_0000_0000 < my * len + len
    &&& mz * len <= az * 0x1_0000_0000 < mz * len + len
}

/// The sum of the squares of the rounded quotients, times `len^2`, falls
/// short of `2^64` times the exact sum of squares by at most
/// `2 * 2^32 * len * (ax + ay + az)`.
proof fn lemma_unit_square_sum(ax: int, ay: int, az: int, len: int, mx: int, my: int, mz: int)
    requires
        ax >= 0 && ay >= 0 && az >= 0,
        len > 0,
        is_unit(ax, ay, az, len, mx, my, mz),
    ensures
        (mx * mx + my * my + mz * mz) * (len * len) <= 0x1_0000_0000_0000_0000 * (ax * ax + ay * ay
            + az * az),
        (mx * mx + my * my + mz * mz) * (len * len) >= 0x1_0000_0000_0000_0000 * (ax * ax + ay * ay
            + az * az) - 0x2_0000_0000 * (len * (ax + ay + az)),
{
    lemma_component_square(ax, mx, len, 0x1_0000_0000);
    lemma_component_square(ay, my, len, 0x1_0000_0000);
    lemma_component_square(az, mz, len, 0x1_0000_0000);
    let d = len * len;
    let (sx, sy, sz) = (mx * mx, my * my, mz * mz);
    assert((sx + sy + sz) * d == sx * d + sy * d + sz * d) by (nonlinear_arith);
    assert(len * (ax + ay + az) == len * ax + len * ay + len * az) by (nonlinear_arith);
}

/// The vector lifted from one that is not zero has its largest magnitude
/// between `2^61` and `2^63`.
proof fn lemma_lifted(x: int, y: int, z: int)
    requires
        0 < largest(x, y, z) <= 0x8000_0000_0000_0000,
    ensures
        0x2000_0000_0000_0000 <= largest(lifted(x, y, z).0, lifted(x, y, z).1, lifted(x, y, z).2)
            <= 0x8000_0000_0000_0000,
    decreases room(x, y, z),
{
    if largest(x, y, z) < 0x2000_0000_0000_0000 {
        assert(largest(2 * x, 2 * y, 2 * z) == 2 * largest(x, y, z));
        lemma_lifted(2 * x, 2 * y, 2 * z);
    }
}

/// A magnitude whose square is at most `q` is at most the floor square root of `q`.
proof fn lemma_below_root(a: int, len: int, q: int)
    requires
        a >= 0,
        len >= 0,
        a * a <= q < (len + 1) * (len + 1),
    ensures
        a <= len,
{
    if a >= len + 1 {
        assert(a * a >= (len + 1) * (len + 1)) by (nonlinear_arith)
            requires
                a >= len + 1,
                len >= 0,
        ;
    }
}

/// The sum `q2` of the squares of the rounded quotients of a lifted vector
/// by its length is close to `2^64`, the square of one, and no quotient
/// exceeds one.
proof fn lemma_unit_sum_bounds(
    ax: int,
    ay: int,
    az: int,
    len: int,
    mx: int,
    my: int,
    mz: int,
)
    requires
        ax >= 0 && ay >= 0 && az >= 0,
        0x2000_0000_0000_0000 <= largest(ax, ay, az),
        len >= 0,
        len * len <= ax * ax + ay * ay + az * az < (len + 1) * (len + 1),
        is_unit(ax, ay, az, len, mx, my, mz),
    ensures
        0xffff_fff3_0000_0000 <= mx * mx + my * my + mz * mz <= 0x1_0000_0000_0000_0010,
        mx <= 0x1_0000_0000 && my <= 0x1_0000_0000 && mz <= 0x1_0000_0000,
{
    let d = len * len;
    let q = ax * ax + ay * ay + az * az;
    let q2 = mx * mx + my * my + mz * mz;
    let a = ax + ay + az;
    let la = len * a;
    assert(ax * ax >= 0 && ay * ay >= 0 && az * az >= 0) by (nonlinear_arith);
    lemma_below_root(ax, len, q);
    lemma_below_root(ay, len, q);
    lemma_below_root(az, len, q);
    assert(len >= 0x2000_0000_0000_0000);
    lemma_unit_square_sum(ax, ay, az, len, mx, my, mz);
    assert((len + 1) * (len + 1) == d + 2 * len + 1) by (nonlinear_arith)
        requires
            d == len * len,
    ;
    assert(d >= 0x2000_0000_0000_0000 * len) by (nonlinear_arith)
        requires
            d == len * len,
            len >= 0x2000_0000_0000_0000,
    ;
    assert(la <= 3 * d) by (nonlinear_arith)
        requires
            la == len * a,
            d == len * len,
            0 <= a <= 3 * len,
            len >= 0,
    ;
    if q2 < 0xffff_fff3_0000_0000 {
        assert(q2 * d <= 0xffff_fff2_ffff_ffff * d) by (nonlinear_arith)
            requires
                q2 <= 0xffff_fff2_ffff_ffff,
                d > 0,
        ;
        assert(false);
    }
    if q2 > 0x1_0000_0000_0000_0010 {
        assert(q2 * d >= 0x1_0000_0000_0000_0011 * d) by (nonlinear_arith)
            requires
                q2 >= 0x1_0000_0000_0000_0011,
                d > 0,
        ;
        assert(false);
    }
    lemma_quotient_below_one(ax, mx, len);
    lemma_quotient_below_one(ay, my, len);
    lemma_quotient_below_one(az, mz, len);
}

/// The rounded quotient of a magnitude by a length that is not less is at most one.
proof fn lemma_quotient_below_one(a: int, m: int, len: int)
    requires
        0 <= a <= len,
        len > 0,
        m >= 0,
        m * len <= a * 0x1_0000_0000,
    ensures
        m <= 0x1_0000_0000,
{
    if m > 0x1_0000_0000 {
        assert(m * len >= 0x1_0000_0001 * len) by (nonlinear_arith)
            requires
                m >= 0x1_0000_0001,
                len > 0,
        ;
    }
}

/// The length of a vector whose squares sum up to an exact `q2` close to
/// `2^64` is close to `2^32`.
proof fn lemma_length_near_one(mx: int, my: int, mz: int, rx: int, ry: int, rz: int, len2: int)
    requires
        is_length(mx, my, mz, rx, ry, rz, len2),
        0xffff_fff3_0000_0000 <= mx * mx + my * my + mz * mz <= 0x1_0000_0000_0000_0010,
    ensures
        0x1_0000_0000 - 16 <= len2 <= 0x1_0000_0000,
        1 <= rx + ry + rz <= 0x1_0000_0000,
{
    let up = (len2 + 1) * (len2 + 1);
    let d = len2 * len2;
    if len2 < 0x1_0000_0000 - 16 {
        assert(up <= 0xffff_ffe0_0000_0100) by (nonlinear_arith)
            requires
                up == (len2 + 1) * (len2 + 1),
                0 <= len2 + 1 <= 0xffff_fff0,
        ;
        assert(false);
    }
    if len2 > 0x1_0000_0000 {
        assert(d >= 0x1_0000_0002_0000_0001) by (nonlinear_arith)
            requires
                d == len2 * len2,
                len2 >= 0x1_0000_0001,
        ;
        assert(false);
    }
}

/// A unit vector has a length close to one. Every vector but the zero
/// vector has a unit vector; no component of that exceeds one in magnitude,
/// and its length falls short of one by at most `16 * 2^-32` and does not
/// exceed one.
pub proof fn lemma_unit_vector_length(v: Vec3)
    requires
        v@ != (0int, 0int, 0int),
    ensures
        v.unit_spec() matches Ok(unit) && ONE_RAW - 16 <= unit.length_spec()@ <= ONE_RAW
            && magnitude(unit.x@) <= ONE_RAW && magnitude(unit.y@) <= ONE_RAW && magnitude(
            unit.z@,
        ) <= ONE_RAW && 1 <= unit.squared_length_spec()@ <= ONE_RAW,
{
    reveal(Vec3::unit_spec);
    lemma_lifted(v.x@, v.y@, v.z@);
    let c = lifted(v.x@, v.y@, v.z@);
    let (ax, ay, az) = (magnitude(c.0), magnitude(c.1), magnitude(c.2));
    let q = c.0 * c.0 + c.1 * c.1 + c.2 * c.2;
    assert(c.0 * c.0 == ax * ax && c.1 * c.1 == ay * ay && c.2 * c.2 == az * az)
        by (nonlinear_arith)
        requires
            ax == c.0 || ax == -c.0,
            ay == c.1 || ay == -c.1,
            az == c.2 || az == -c.2,
    ;
    assert(ax * ax >= 0 && ay * ay >= 0 && az * az >= 0) by (nonlinear_arith);
    lemma_floor_sqrt_exists(q);
    let len = floor_sqrt(q);
    let big = largest(ax, ay, az);
    assert(big * big <= q);
    if len < big {
        assert((len + 1) * (len + 1) <= big * big) by (nonlinear_arith)
            requires
                0 <= len,
                len + 1 <= big,
        ;
        assert(false);
    }
    let mx = lemma_component(c.0, len);
    let my = lemma_component(c.1, len);
    let mz = lemma_component(c.2, len);
    assert(is_unit(ax, ay, az, len, mx, my, mz));
    lemma_unit_sum_bounds(ax, ay, az, len, mx, my, mz);
    let unit = Vec3::saturating(
        trunc_div(c.0 * ONE_RAW, len),
        trunc_div(c.1 * ONE_RAW, len),
        trunc_div(c.2 * ONE_RAW, len),
    );
    assert(v.unit_spec() == Ok::<Vec3, crate::vec3::DegenerateVectorError>(unit));
    assert(magnitude(unit.x@) == mx && magnitude(unit.y@) == my && magnitude(unit.z@) == mz);
    let rx = lemma_square(unit.x@);
    let ry = lemma_square(unit.y@);
    let rz = lemma_square(unit.z@);
    lemma_square_below(mx, rx);
    lemma_square_below(my, ry);
    lemma_square_below(mz, rz);
    let s2 = unit.squared_length_spec()@;
    assert(s2 == rx + ry + rz);
    lemma_floor_sqrt_exists(s2 * ONE_RAW);
    let len2 = floor_sqrt(s2 * ONE_RAW);
    assert(s2 * ONE_RAW == s2 * 0x1_0000_0000) by (nonlinear_arith)
        requires
            ONE_RAW == 0x1_0000_0000,
    ;
    assert(is_length(mx, my, mz, rx, ry, rz, len2));
    lemma_length_near_one(mx, my, mz, rx, ry, rz, len2);
    assert(unit.length_spec()@ == len2);
}

/// The zero vector has no unit vector.
pub proof fn lemma_unit_of_zero(v: Vec3)
    requires
        v@ == (0int, 0int, 0int),
    ensures
        v.unit_spec() is Err,
{
    reveal(Vec3::unit_spec);
}

/// The unit vector does not depend on the length of a vector: a vector
/// whose largest component is below `2^61` in raw value and its double have
/// the same unit vector.
pub proof fn lemma_unit_of_double(v: Vec3)
    requires
        largest(v.x@, v.y@, v.z@) < 0x2000_0000_0000_0000,
    ensures
        Vec3::saturating(2 * v.x@, 2 * v.y@, 2 * v.z@).unit_spec() == v.unit_spec(),
{
    reveal(Vec3::unit_spec);
    let w = Vec3::saturating(2 * v.x@, 2 * v.y@, 2 * v.z@);
    assert(w@ == (2 * v.x@, 2 * v.y@, 2 * v.z@));
    if v@ != (0int, 0int, 0int) {
        assert(lifted(v.x@, v.y@, v.z@) == lifted(2 * v.x@, 2 * v.y@, 2 * v.z@));
    }
}

/// The rounded square of a magnitude of at most `2^32` is at most `2^32`.
proof fn lemma_square_below(m: int, r: int)
    requires
        0 <= m <= 0x1_0000_0000,
        r * 0x1_0000_0000 <= m * m,
    ensures
        r <= 0x1_0000_0000,
{
    assert(m * m <= 0x1_0000_0000_0000_0000) by (nonlinear_arith)
        requires
            0 <= m <= 0x1_0000_0000,
    ;
}

} // verus!
