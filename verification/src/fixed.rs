//! Signed fixed-point scalars with 32 fractional bits.
//!
//! A [`Fixed`] stands for the rational `raw / 2^32`. Its view is the integer
//! `raw`, so a contract such as `r@ == saturate(a@ + b@)` is a statement about
//! plain integers. No operation fails: a result outside the representable
//! range is replaced by the nearest end of it, and a quotient or product that
//! is not representable exactly is rounded toward zero.

use vstd::prelude::*;

verus! {

/// Number of fractional bits.
pub const FRACTION_BITS: u32 = 32;

/// The raw value of the scalar one.
pub const ONE_RAW: i64 = 0x1_0000_0000;

/// The nearest integer to `v` that an `i64` can hold.
pub open spec fn saturate(v: int) -> int {
    if v > i64::MAX {
        i64::MAX as int
    } else if v < i64::MIN {
        i64::MIN as int
    } else {
        v
    }
}

/// The quotient of `n` by `d`, rounded toward zero.
pub open spec fn trunc_div(n: int, d: int) -> int
    recommends
        d != 0,
{
    if n >= 0 {
        n / d
    } else {
        -((-n) / d)
    }
}

/// The raw value of the product of the scalars with raw values `a` and `b`.
pub open spec fn product(a: int, b: int) -> int {
    saturate(trunc_div(a * b, ONE_RAW as int))
}

/// The raw value of the quotient of the scalars with raw values `a` and `b`.
/// Division by zero saturates by the sign of the dividend; zero by zero is zero.
pub open spec fn quotient(a: int, b: int) -> int {
    if b != 0 {
        saturate(trunc_div(a * ONE_RAW, b))
    } else if a > 0 {
        i64::MAX as int
    } else if a < 0 {
        i64::MIN as int
    } else {
        0
    }
}

/// One is neutral for the product.
pub proof fn lemma_product_one(a: int)
    requires
        i64::MIN <= a <= i64::MAX,
    ensures
        product(ONE_RAW as int, a) == a,
        product(a, ONE_RAW as int) == a,
{
    let one = ONE_RAW as int;
    if a >= 0 {
        assert((one * a) / one == a) by (nonlinear_arith)
            requires
                one > 0,
        ;
        assert((a * one) / one == a) by (nonlinear_arith)
            requires
                one > 0,
        ;
    } else {
        assert(-(one * a) == one * (-a)) by (nonlinear_arith);
        assert(-(a * one) == (-a) * one) by (nonlinear_arith);
        assert((one * (-a)) / one == -a) by (nonlinear_arith)
            requires
                one > 0,
        ;
        assert(((-a) * one) / one == -a) by (nonlinear_arith)
            requires
                one > 0,
        ;
    }
}

/// The product with two is the double, where that is representable.
pub proof fn lemma_product_two(a: int)
    requires
        i64::MIN <= 2 * a <= i64::MAX,
    ensures
        product(2 * ONE_RAW, a) == 2 * a,
{
    let m = if a >= 0 { a } else { -a };
    assert(((2 * ONE_RAW) * m) / (ONE_RAW as int) == 2 * m) by (nonlinear_arith)
        requires
            ONE_RAW == 0x1_0000_0000,
            m >= 0,
    ;
    assert((2 * ONE_RAW) * (-a) == -((2 * ONE_RAW) * a)) by (nonlinear_arith);
    assert((2 * ONE_RAW) * a >= 0 <==> a >= 0) by (nonlinear_arith)
        requires
            ONE_RAW == 0x1_0000_0000,
    ;
}

/// A blend of a scalar `s` in `[0, 1]` with one, by a factor `t` in `[0, 1]`,
/// lies between `s` and one, and is one where `s` is.
pub proof fn lemma_blend(t: int, s: int)
    requires
        0 <= t <= ONE_RAW,
        0 <= s <= ONE_RAW,
    ensures
        s <= product(ONE_RAW - t, s) + product(t, ONE_RAW as int) <= ONE_RAW,
        s == ONE_RAW ==> product(ONE_RAW - t, s) + product(t, ONE_RAW as int) == ONE_RAW,
{
    lemma_product_one(t);
    let u = ONE_RAW - t;
    let us = u * s;
    assert(0x1_0000_0000 * (s - t) <= us <= 0x1_0000_0000 * u && us >= 0) by (nonlinear_arith)
        requires
            us == u * s,
            u == 0x1_0000_0000 - t,
            0 <= t <= 0x1_0000_0000,
            0 <= s <= 0x1_0000_0000,
    ;
    assert(us / (ONE_RAW as int) == us / 0x1_0000_0000);
}

/// No square is negative.
pub proof fn lemma_product_square(a: int)
    ensures
        product(a, a) >= 0,
{
    assert(a * a >= 0) by (nonlinear_arith);
    lemma_trunc_div_bound(a * a, ONE_RAW as int);
}

/// The product with one half is the half, rounded toward zero.
pub proof fn lemma_product_half(a: int)
    requires
        i64::MIN <= a <= i64::MAX,
    ensures
        product(ONE_RAW / 2, a) == trunc_div(a, 2),
{
    let half = ONE_RAW / 2;
    let m = if a >= 0 { a } else { -a };
    assert((half * m) / (ONE_RAW as int) == m / 2) by (nonlinear_arith)
        requires
            half == 0x8000_0000,
            ONE_RAW == 0x1_0000_0000,
            m >= 0,
    ;
    assert(half * (-a) == -(half * a)) by (nonlinear_arith);
    assert(half * a >= 0 <==> a >= 0) by (nonlinear_arith)
        requires
            half > 0,
    ;
    lemma_trunc_div_bound(a, 2);
}

/// A quotient rounded toward zero is no larger in magnitude than the dividend.
pub proof fn lemma_trunc_div_bound(n: int, d: int)
    requires
        d != 0,
    ensures
        n >= 0 ==> -n <= trunc_div(n, d) <= n,
        n < 0 ==> n <= trunc_div(n, d) <= -n,
{
    let m = if n >= 0 { n } else { -n };
    assert(-m <= m / d <= m) by (nonlinear_arith)
        requires
            m >= 0,
            d != 0,
    ;
}

/// `r` is the largest integer whose square does not exceed `n`.
pub open spec fn is_floor_sqrt(n: int, r: int) -> bool {
    0 <= r && r * r <= n < (r + 1) * (r + 1)
}

/// The largest integer whose square does not exceed `n` (for `n >= 0`).
pub closed spec fn floor_sqrt(n: int) -> int {
    choose|r: int| is_floor_sqrt(n, r)
}

/// Two floor square roots of one number are equal.
pub proof fn lemma_floor_sqrt_unique(n: int, r1: int, r2: int)
    requires
        is_floor_sqrt(n, r1),
        is_floor_sqrt(n, r2),
    ensures
        r1 == r2,
{
    if r1 < r2 {
        assert((r1 + 1) * (r1 + 1) <= r2 * r2) by (nonlinear_arith)
            requires
                0 <= r1,
                r1 + 1 <= r2,
        ;
    } else if r2 < r1 {
        assert((r2 + 1) * (r2 + 1) <= r1 * r1) by (nonlinear_arith)
            requires
                0 <= r2,
                r2 + 1 <= r1,
        ;
    }
}

/// Every number that is not negative has a floor square root.
pub proof fn lemma_floor_sqrt_exists(n: int)
    requires
        n >= 0,
    ensures
        is_floor_sqrt(n, floor_sqrt(n)),
    decreases n,
{
    if n == 0 {
        assert(is_floor_sqrt(0, 0));
    } else {
        lemma_floor_sqrt_exists(n - 1);
        let r = floor_sqrt(n - 1);
        if (r + 1) * (r + 1) <= n {
            assert((r + 1) * (r + 1) == n);
            assert(n < (r + 2) * (r + 2)) by (nonlinear_arith)
                requires
                    (r + 1) * (r + 1) == n,
                    r >= 0,
            ;
            assert(is_floor_sqrt(n, r + 1));
        } else {
            assert(is_floor_sqrt(n, r));
        }
    }
}

/// Whoever exhibits a floor square root of `n` knows the value of `floor_sqrt(n)`.
pub proof fn lemma_floor_sqrt_is(n: int, r: int)
    requires
        is_floor_sqrt(n, r),
    ensures
        floor_sqrt(n) == r,
{
    lemma_floor_sqrt_unique(n, r, floor_sqrt(n));
}

/// The raw value of the square root of the scalar with raw value `a`: of a
/// negative number zero, else the largest scalar whose square does not exceed it.
pub open spec fn root(a: int) -> int {
    if a <= 0 {
        0
    } else {
        saturate(floor_sqrt(a * ONE_RAW))
    }
}

/// Clamps a wide intermediate result into the `i64` range.
pub(crate) fn clamp_wide(v: i128) -> (r: i64)
    ensures
        r == saturate(v as int),
{
    if v > i64::MAX as i128 {
        i64::MAX
    } else if v < i64::MIN as i128 {
        i64::MIN
    } else {
        v as i64
    }
}

/// The largest `r` with `r * r <= n`, found by bisection.
pub(crate) fn floor_sqrt_wide(n: u128) -> (r: u128)
    ensures
        is_floor_sqrt(n as int, r as int),
        r < 0x1_0000_0000_0000_0000,
{
    let mut lo: u128 = 0;
    let mut hi: u128 = 0x1_0000_0000_0000_0000;
    assert(0x1_0000_0000_0000_0000int * 0x1_0000_0000_0000_0000int
        == 0x1_0000_0000_0000_0000_0000_0000_0000_0000int);
    while hi - lo > 1
        invariant
            lo < hi <= 0x1_0000_0000_0000_0000,
            lo * lo <= n < hi * hi,
        decreases hi - lo,
    {
        let mid: u128 = lo + (hi - lo) / 2;
        assert(mid * mid <= 0xffff_ffff_ffff_fffe_0000_0000_0000_0001) by (nonlinear_arith)
            requires
                mid <= 0xffff_ffff_ffff_ffff,
        ;
        if mid * mid <= n {
            lo = mid;
        } else {
            hi = mid;
        }
    }
    lo
}

/// The magnitude of `x`.
pub open spec fn magnitude(x: int) -> int {
    if x >= 0 {
        x
    } else {
        -x
    }
}

/// The magnitude of a wide number.
pub(crate) fn magnitude_wide(x: i128) -> (r: u128)
    requires
        x > i128::MIN,
    ensures
        r == magnitude(x as int),
{
    if x >= 0 {
        x as u128
    } else {
        (-x) as u128
    }
}

/// A signed fixed-point number: the rational `raw / 2^32`.
#[derive(Clone, Copy, Debug, PartialEq, Eq, Structural)]
pub struct Fixed {
    pub raw: i64,
}

impl View for Fixed {
    type V = int;

    open spec fn view(&self) -> int {
        self.raw as int
    }
}

impl Fixed {
    /// The scalar whose raw value is `v`, or the nearest representable one.
    pub open spec fn saturating(v: int) -> Fixed {
        Fixed { raw: saturate(v) as i64 }
    }

    /// The sum, saturated.
    pub open spec fn plus(self, rhs: Fixed) -> Fixed {
        Fixed::saturating(self@ + rhs@)
    }

    /// The difference, saturated.
    pub open spec fn minus(self, rhs: Fixed) -> Fixed {
        Fixed::saturating(self@ - rhs@)
    }

    /// The negation; that of the least scalar saturates to the largest.
    pub open spec fn negated(self) -> Fixed {
        Fixed::saturating(-self@)
    }

    /// The product, rounded toward zero and saturated.
    pub open spec fn times(self, rhs: Fixed) -> Fixed {
        Fixed::saturating(product(self@, rhs@))
    }

    /// The quotient, rounded toward zero and saturated.
    pub open spec fn over(self, rhs: Fixed) -> Fixed {
        Fixed::saturating(quotient(self@, rhs@))
    }

    /// The square root, rounded toward zero; that of a negative scalar is zero.
    pub open spec fn sqrt_spec(self) -> Fixed {
        Fixed::saturating(root(self@))
    }

    /// The scalar `raw / 2^32`.
    pub fn from_raw(raw: i64) -> (r: Fixed)
        ensures
            r@ == raw,
    {
        Fixed { raw }
    }

    /// The whole number `n` as a scalar; every `i32` is representable.
    pub fn from_int(n: i32) -> (r: Fixed)
        ensures
            r@ == n * ONE_RAW,
    {
        assert(-0x8000_0000_0000_0000 <= n * ONE_RAW <= 0x7fff_ffff_0000_0000) by (nonlinear_arith)
            requires
                -0x8000_0000 <= n <= 0x7fff_ffff,
                ONE_RAW == 0x1_0000_0000,
        ;
        Fixed { raw: (n as i64) * ONE_RAW }
    }

    /// The count `n` as a scalar, or the largest scalar where `n` exceeds it.
    pub fn from_index(n: u32) -> (r: Fixed)
        ensures
            r@ == saturate(n * ONE_RAW),
    {
        assert(0 <= n * ONE_RAW <= 0xffff_ffff_0000_0000) by (nonlinear_arith)
            requires
                0 <= n <= 0xffff_ffff,
                ONE_RAW == 0x1_0000_0000,
        ;
        Fixed { raw: clamp_wide((n as i128) * (ONE_RAW as i128)) }
    }

    /// The scalar zero.
    pub fn zero() -> (r: Fixed)
        ensures
            r@ == 0,
    {
        Fixed { raw: 0 }
    }

    /// The scalar one.
    pub fn one() -> (r: Fixed)
        ensures
            r@ == ONE_RAW,
    {
        Fixed { raw: ONE_RAW }
    }

    /// The largest representable scalar.
    pub fn max_value() -> (r: Fixed)
        ensures
            r@ == i64::MAX,
    {
        Fixed { raw: i64::MAX }
    }

    /// The square root, rounded toward zero; that of a negative scalar is zero.
    pub fn sqrt(self) -> (r: Fixed)
        ensures
            r == self.sqrt_spec(),
            r@ == root(self@),
            self@ <= 0 ==> r@ == 0,
            self@ > 0 ==> is_floor_sqrt(self@ * ONE_RAW, r@),
    {
        if self.raw <= 0 {
            return Fixed { raw: 0 };
        }
        assert(0 < self.raw * ONE_RAW < 0x8000_0000_0000_0000_0000_0000) by (nonlinear_arith)
            requires
                0 < self.raw <= 0x7fff_ffff_ffff_ffff,
                ONE_RAW == 0x1_0000_0000,
        ;
        let n: u128 = (self.raw as u128) * (ONE_RAW as u128);
        let root = floor_sqrt_wide(n);
        proof {
            lemma_floor_sqrt_is(self@ * ONE_RAW, root as int);
            if root >= 0x1_0000_0000_0000 {
                assert(root * root >= 0x1_0000_0000_0000_0000_0000_0000) by (nonlinear_arith)
                    requires
                        root >= 0x1_0000_0000_0000,
                ;
            }
        }
        Fixed { raw: root as i64 }
    }
}

/// Whether the saturating sums `(a + b) + c` and `a + (b + c)` agree. They
/// differ exactly where one of the inner sums saturates and the third number
/// pulls back from the end that it saturated at.
pub open spec fn sums_associate(a: int, b: int, c: int) -> bool {
    &&& !(a + b > i64::MAX && c < 0)
    &&& !(a + b < i64::MIN && c > 0)
    &&& !(b + c > i64::MAX && a < 0)
    &&& !(b + c < i64::MIN && a > 0)
}

/// The sum of two scalars does not depend on their order.
pub proof fn lemma_plus_commutative(a: Fixed, b: Fixed)
    ensures
        a.plus(b) == b.plus(a),
{
}

/// Zero is neutral for the sum.
pub proof fn lemma_plus_zero(a: Fixed)
    ensures
        a.plus(Fixed::saturating(0)) == a,
        Fixed::saturating(0).plus(a) == a,
{
}

/// The sum of three scalars does not depend on the grouping, but where a
/// saturated inner sum is pulled back: see `sums_associate`.
pub proof fn lemma_plus_associative(a: Fixed, b: Fixed, c: Fixed)
    ensures
        a.plus(b).plus(c) == a.plus(b.plus(c)) <==> sums_associate(a@, b@, c@),
        i64::MIN <= a@ + b@ <= i64::MAX && i64::MIN <= b@ + c@ <= i64::MAX ==> a.plus(b).plus(c)
            == a.plus(b.plus(c)),
{
}

impl core::ops::Add for Fixed {
    type Output = Fixed;

    fn add(self, rhs: Fixed) -> (r: Fixed)
        ensures
            r == self.plus(rhs),
            r@ == saturate(self@ + rhs@),
    {
        Fixed { raw: clamp_wide(self.raw as i128 + rhs.raw as i128) }
    }
}

impl vstd::std_specs::ops::AddSpecImpl for Fixed {
    open spec fn obeys_add_spec() -> bool {
        true
    }

    open spec fn add_req(self, rhs: Fixed) -> bool {
        true
    }

    open spec fn add_spec(self, rhs: Fixed) -> Fixed {
        self.plus(rhs)
    }
}

impl core::ops::Sub for Fixed {
    type Output = Fixed;

    fn sub(self, rhs: Fixed) -> (r: Fixed)
        ensures
            r == self.minus(rhs),
            r@ == saturate(self@ - rhs@),
    {
        Fixed { raw: clamp_wide(self.raw as i128 - rhs.raw as i128) }
    }
}

impl vstd::std_specs::ops::SubSpecImpl for Fixed {
    open spec fn obeys_sub_spec() -> bool {
        true
    }

    open spec fn sub_req(self, rhs: Fixed) -> bool {
        true
    }

    open spec fn sub_spec(self, rhs: Fixed) -> Fixed {
        self.minus(rhs)
    }
}

impl core::ops::Neg for Fixed {
    type Output = Fixed;

    fn neg(self) -> (r: Fixed)
        ensures
            r == self.negated(),
            r@ == saturate(-self@),
    {
        Fixed { raw: clamp_wide(-(self.raw as i128)) }
    }
}

impl vstd::std_specs::ops::NegSpecImpl for Fixed {
    open spec fn obeys_neg_spec() -> bool {
        true
    }

    open spec fn neg_req(self) -> bool {
        true
    }

    open spec fn neg_spec(self) -> Fixed {
        self.negated()
    }
}

impl core::ops::Mul for Fixed {
    type Output = Fixed;

    fn mul(self, rhs: Fixed) -> (r: Fixed)
        ensures
            r == self.times(rhs),
            r@ == product(self@, rhs@),
    {
        let a: i128 = self.raw as i128;
        let b: i128 = rhs.raw as i128;
        assert(-0x4000_0000_0000_0000_0000_0000_0000_0000 <= a * b
            <= 0x4000_0000_0000_0000_0000_0000_0000_0000) by (nonlinear_arith)
            requires
                -0x8000_0000_0000_0000 <= a <= 0x7fff_ffff_ffff_ffff,
                -0x8000_0000_0000_0000 <= b <= 0x7fff_ffff_ffff_ffff,
        ;
        Fixed { raw: clamp_wide((a * b) / (ONE_RAW as i128)) }
    }
}

impl vstd::std_specs::ops::MulSpecImpl for Fixed {
    open spec fn obeys_mul_spec() -> bool {
        true
    }

    open spec fn mul_req(self, rhs: Fixed) -> bool {
        true
    }

    open spec fn mul_spec(self, rhs: Fixed) -> Fixed {
        self.times(rhs)
    }
}

impl core::ops::Div for Fixed {
    type Output = Fixed;

    fn div(self, rhs: Fixed) -> (r: Fixed)
        ensures
            r == self.over(rhs),
            r@ == quotient(self@, rhs@),
    {
        if rhs.raw == 0 {
            if self.raw > 0 {
                Fixed { raw: i64::MAX }
            } else if self.raw < 0 {
                Fixed { raw: i64::MIN }
            } else {
                Fixed { raw: 0 }
            }
        } else {
            assert(-0x8000_0000_0000_0000_0000_0000 <= self.raw * ONE_RAW
                < 0x8000_0000_0000_0000_0000_0000) by (nonlinear_arith)
                requires
                    -0x8000_0000_0000_0000 <= self.raw <= 0x7fff_ffff_ffff_ffff,
                    ONE_RAW == 0x1_0000_0000,
            ;
            let n: i128 = (self.raw as i128) * (ONE_RAW as i128);
            let d: i128 = rhs.raw as i128;
            proof {
                lemma_trunc_div_bound(n as int, d as int);
            }
            let q: i128 = n / d;
            Fixed { raw: clamp_wide(q) }
        }
    }
}

impl vstd::std_specs::ops::DivSpecImpl for Fixed {
    open spec fn obeys_div_spec() -> bool {
        true
    }

    open spec fn div_req(self, rhs: Fixed) -> bool {
        true
    }

    open spec fn div_spec(self, rhs: Fixed) -> Fixed {
        self.over(rhs)
    }
}

} // verus!
