//! Three-component vectors over [`Fixed`] scalars.
//!
//! A vector serves as a position, a direction or a colour. Every operation is
//! defined component by component through the scalar operations, so it rounds
//! and saturates exactly as they do.

use crate::fixed::{
    clamp_wide, floor_sqrt, floor_sqrt_wide, lemma_floor_sqrt_exists, lemma_floor_sqrt_is,
    lemma_plus_associative, lemma_product_square, lemma_trunc_div_bound, magnitude,
    magnitude_wide, product, quotient, saturate, sums_associate, trunc_div, Fixed, ONE_RAW,
};
use crate::unit_length::lemma_unit_vector_length;
use core::ops::{AddAssign, MulAssign, Neg, SubAssign};
use vstd::prelude::*;

verus! {

/// The failure of normalising the zero vector.
#[derive(Clone, Copy, Debug, PartialEq, Eq, Structural)]
pub struct DegenerateVectorError {}

/// A vector of three scalars.
#[derive(Clone, Copy, Debug, PartialEq, Eq, Structural)]
pub struct Vec3 {
    pub x: Fixed,
    pub y: Fixed,
    pub z: Fixed,
}

impl View for Vec3 {
    type V = (int, int, int);

    /// The raw values of the three components.
    open spec fn view(&self) -> (int, int, int) {
        (self.x@, self.y@, self.z@)
    }
}

impl Vec3 {
    /// The vector whose components have the raw values `x`, `y`, `z`,
    /// each replaced by the nearest representable one.
    pub open spec fn saturating(x: int, y: int, z: int) -> Vec3 {
        Vec3 { x: Fixed::saturating(x), y: Fixed::saturating(y), z: Fixed::saturating(z) }
    }

    /// The zero vector.
    pub open spec fn zeroes_spec() -> Vec3 {
        Vec3::saturating(0, 0, 0)
    }

    /// The vector whose components are all one.
    pub open spec fn ones_spec() -> Vec3 {
        Vec3::saturating(ONE_RAW as int, ONE_RAW as int, ONE_RAW as int)
    }

    /// The componentwise sum.
    pub open spec fn plus(self, rhs: Vec3) -> Vec3 {
        Vec3::saturating(self.x@ + rhs.x@, self.y@ + rhs.y@, self.z@ + rhs.z@)
    }

    /// The componentwise difference.
    pub open spec fn minus(self, rhs: Vec3) -> Vec3 {
        Vec3::saturating(self.x@ - rhs.x@, self.y@ - rhs.y@, self.z@ - rhs.z@)
    }

    /// The vector with every component negated.
    pub open spec fn negated(self) -> Vec3 {
        Vec3::saturating(-self.x@, -self.y@, -self.z@)
    }

    /// The componentwise (Hadamard) product.
    pub open spec fn hadamard(self, rhs: Vec3) -> Vec3 {
        Vec3::saturating(
            product(self.x@, rhs.x@),
            product(self.y@, rhs.y@),
            product(self.z@, rhs.z@),
        )
    }

    /// Every component multiplied by the scalar `k`.
    pub open spec fn scaled(self, k: Fixed) -> Vec3 {
        Vec3::saturating(product(k@, self.x@), product(k@, self.y@), product(k@, self.z@))
    }

    /// The componentwise quotient.
    pub open spec fn quotients(self, rhs: Vec3) -> Vec3 {
        Vec3::saturating(
            quotient(self.x@, rhs.x@),
            quotient(self.y@, rhs.y@),
            quotient(self.z@, rhs.z@),
        )
    }

    /// Every component divided by the scalar `k`.
    pub open spec fn divided(self, k: Fixed) -> Vec3 {
        Vec3::saturating(quotient(self.x@, k@), quotient(self.y@, k@), quotient(self.z@, k@))
    }

    /// The components added up, from left to right.
    pub open spec fn sum_spec(self) -> Fixed {
        Fixed::saturating(saturate(self.x@ + self.y@) + self.z@)
    }

    /// The dot product of the vector with itself.
    pub open spec fn squared_length_spec(self) -> Fixed {
        dot_spec(self, self)
    }

    /// The square root of the squared length.
    pub open spec fn length_spec(self) -> Fixed {
        self.squared_length_spec().sqrt_spec()
    }

    /// The unit vector that points the same way; the zero vector has none.
    /// The vector is measured after it was lifted, so that a short vector
    /// loses nothing to rounding: each component of the lifted vector is
    /// divided by the floor square root of the exact sum of its squares.
    #[verifier::opaque]
    pub open spec fn unit_spec(self) -> Result<Vec3, DegenerateVectorError> {
        if self@ == (0int, 0int, 0int) {
            Err(DegenerateVectorError {  })
        } else {
            let c = lifted(self.x@, self.y@, self.z@);
            let n = floor_sqrt(c.0 * c.0 + c.1 * c.1 + c.2 * c.2);
            Ok(
                Vec3::saturating(
                    trunc_div(c.0 * ONE_RAW, n),
                    trunc_div(c.1 * ONE_RAW, n),
                    trunc_div(c.2 * ONE_RAW, n),
                ),
            )
        }
    }

    /// The vector with the components `x`, `y`, `z`.
    pub fn new(x: Fixed, y: Fixed, z: Fixed) -> (r: Vec3)
        ensures
            r == (Vec3 { x, y, z }),
            r@ == (x@, y@, z@),
    {
        Vec3 { x, y, z }
    }

    /// The zero vector.
    pub fn zeroes() -> (r: Vec3)
        ensures
            r == Vec3::zeroes_spec(),
            r@ == (0int, 0int, 0int),
    {
        Vec3 { x: Fixed::zero(), y: Fixed::zero(), z: Fixed::zero() }
    }

    /// The vector whose components are all one.
    pub fn ones() -> (r: Vec3)
        ensures
            r == Vec3::ones_spec(),
            r@ == (ONE_RAW as int, ONE_RAW as int, ONE_RAW as int),
    {
        Vec3 { x: Fixed::one(), y: Fixed::one(), z: Fixed::one() }
    }

    /// The components added up, from left to right.
    pub fn sum(&self) -> (r: Fixed)
        ensures
            r == self.sum_spec(),
            r@ == saturate(saturate(self.x@ + self.y@) + self.z@),
    {
        self.x + self.y + self.z
    }

    /// The length: the square root of the squared length. The squares are
    /// rounded before they are added, so the length of a vector shorter than
    /// `2^-16` is zero; `make_unit_vector` measures a vector without that loss.
    pub fn length(&self) -> (r: Fixed)
        ensures
            r == self.length_spec(),
            r == self.squared_length_spec().sqrt_spec(),
            r@ >= 0,
    {
        let squared = self.squared_length();
        proof {
            if squared@ > 0 {
                lemma_floor_sqrt_exists(squared@ * ONE_RAW);
            }
        }
        squared.sqrt()
    }

    /// The squared length: the dot product of the vector with itself.
    pub fn squared_length(&self) -> (r: Fixed)
        ensures
            r == self.squared_length_spec(),
            r == dot_spec(*self, *self),
            r@ >= 0,
    {
        proof {
            lemma_product_square(self.x@);
            lemma_product_square(self.y@);
            lemma_product_square(self.z@);
        }
        (*self * *self).sum()
    }

    /// The unit vector that points the same way. Only the zero vector has
    /// none. The components are those of the vector, doubled until the
    /// largest has a raw value of at least `2^61`, divided by the length of the lifted
    /// vector, which is taken from the exact sum of its squares.
    pub fn make_unit_vector(&self) -> (r: Result<Vec3, DegenerateVectorError>)
        ensures
            r == self.unit_spec(),
            r is Err <==> self@ == (0int, 0int, 0int),
            r matches Ok(unit) ==> ONE_RAW - 16 <= unit.length_spec()@ <= ONE_RAW && magnitude(
                unit.x@,
            ) <= ONE_RAW && magnitude(unit.y@) <= ONE_RAW && magnitude(unit.z@) <= ONE_RAW,
    {
        proof {
            reveal(Vec3::unit_spec);
        }
        if self.x.raw == 0 && self.y.raw == 0 && self.z.raw == 0 {
            return Err(DegenerateVectorError {  });
        }
        proof {
            lemma_unit_vector_length(*self);
        }
        let mut cx: i128 = self.x.raw as i128;
        let mut cy: i128 = self.y.raw as i128;
        let mut cz: i128 = self.z.raw as i128;
        while magnitude_wide(cx) < 0x2000_0000_0000_0000 && magnitude_wide(cy)
            < 0x2000_0000_0000_0000 && magnitude_wide(cz) < 0x2000_0000_0000_0000
            invariant
                0 < largest(cx as int, cy as int, cz as int) <= 0x8000_0000_0000_0000,
                lifted(cx as int, cy as int, cz as int) == lifted(self.x@, self.y@, self.z@),
            decreases room(cx as int, cy as int, cz as int),
        {
            proof {
                assert(largest(2 * cx, 2 * cy, 2 * cz) == 2 * largest(
                    cx as int,
                    cy as int,
                    cz as int,
                ));
            }
            cx = cx * 2;
            cy = cy * 2;
            cz = cz * 2;
        }
        let ax = magnitude_wide(cx);
        let ay = magnitude_wide(cy);
        let az = magnitude_wide(cz);
        proof {
            lemma_square_fits(ax as int);
            lemma_square_fits(ay as int);
            lemma_square_fits(az as int);
            assert(ax * ax == cx * cx && ay * ay == cy * cy && az * az == cz * cz)
                by (nonlinear_arith)
                requires
                    ax == cx || ax == -cx,
                    ay == cy || ay == -cy,
                    az == cz || az == -cz,
            ;
        }
        let q: u128 = ax * ax + ay * ay + az * az;
        let n = floor_sqrt_wide(q);
        proof {
            lemma_floor_sqrt_is(cx * cx + cy * cy + cz * cz, n as int);
            assert(n > 0) by {
                if n == 0 {
                    assert((n + 1) * (n + 1) == 1) by (nonlinear_arith)
                        requires
                            n == 0,
                    ;
                }
                if ax > 0 {
                    assert(ax * ax >= 1) by (nonlinear_arith)
                        requires
                            ax >= 1,
                    ;
                } else if ay > 0 {
                    assert(ay * ay >= 1) by (nonlinear_arith)
                        requires
                            ay >= 1,
                    ;
                } else {
                    assert(az * az >= 1) by (nonlinear_arith)
                        requires
                            az >= 1,
                    ;
                }
            }
        }
        Ok(Vec3 { x: unit_component(cx, n), y: unit_component(cy, n), z: unit_component(cz, n) })
    }
}

/// The largest magnitude among three raw values.
pub open spec fn largest(x: int, y: int, z: int) -> int {
    if magnitude(x) >= magnitude(y) && magnitude(x) >= magnitude(z) {
        magnitude(x)
    } else if magnitude(y) >= magnitude(z) {
        magnitude(y)
    } else {
        magnitude(z)
    }
}

/// How far the largest magnitude among three raw values is below `2^61`.
pub open spec fn room(x: int, y: int, z: int) -> nat {
    if largest(x, y, z) < 0x2000_0000_0000_0000 {
        (0x2000_0000_0000_0000 - largest(x, y, z)) as nat
    } else {
        0
    }
}

/// Three raw values, doubled together until the largest magnitude among
/// them is at least `2^61`. Zeroes stay as they are.
pub open spec fn lifted(x: int, y: int, z: int) -> (int, int, int)
    decreases room(x, y, z),
{
    if 0 < largest(x, y, z) < 0x2000_0000_0000_0000 {
        lifted(2 * x, 2 * y, 2 * z)
    } else {
        (x, y, z)
    }
}

/// The square of a magnitude of at most `2^63` is at most `2^126`.
proof fn lemma_square_fits(a: int)
    requires
        0 <= a <= 0x8000_0000_0000_0000,
    ensures
        0 <= a * a <= 0x4000_0000_0000_0000_0000_0000_0000_0000,
{
    assert(0 <= a * a <= 0x4000_0000_0000_0000_0000_0000_0000_0000) by (nonlinear_arith)
        requires
            0 <= a <= 0x8000_0000_0000_0000,
    ;
}

/// One component of a unit vector: `c` divided by the length `n`.
fn unit_component(c: i128, n: u128) -> (r: Fixed)
    requires
        -0x8000_0000_0000_0000 <= c <= 0x8000_0000_0000_0000,
        0 < n < 0x1_0000_0000_0000_0000,
    ensures
        r == Fixed::saturating(trunc_div(c * ONE_RAW, n as int)),
{
    assert(-0x8000_0000_0000_0000_0000_0000 <= c * ONE_RAW <= 0x8000_0000_0000_0000_0000_0000)
        by (nonlinear_arith)
        requires
            -0x8000_0000_0000_0000 <= c <= 0x8000_0000_0000_0000,
            ONE_RAW == 0x1_0000_0000,
    ;
    let numerator: i128 = c * (ONE_RAW as i128);
    let divisor: i128 = n as i128;
    proof {
        lemma_trunc_div_bound(numerator as int, divisor as int);
    }
    Fixed { raw: clamp_wide(numerator / divisor) }
}

/// The componentwise products added up, from left to right.
pub open spec fn dot_spec(v1: Vec3, v2: Vec3) -> Fixed {
    v1.hadamard(v2).sum_spec()
}

/// The cross product: each component the difference of two products.
pub open spec fn cross_spec(v1: Vec3, v2: Vec3) -> Vec3 {
    Vec3 {
        x: Fixed::saturating(product(v1.y@, v2.z@) - product(v1.z@, v2.y@)),
        y: Fixed::saturating(product(v1.z@, v2.x@) - product(v1.x@, v2.z@)),
        z: Fixed::saturating(product(v1.x@, v2.y@) - product(v1.y@, v2.x@)),
    }
}

/// The dot product.
pub fn dot(v1: &Vec3, v2: &Vec3) -> (r: Fixed)
    ensures
        r == dot_spec(*v1, *v2),
{
    (*v1 * *v2).sum()
}

/// The cross product.
pub fn cross(v1: &Vec3, v2: &Vec3) -> (r: Vec3)
    ensures
        r == cross_spec(*v1, *v2),
{
    Vec3 {
        x: v1.y * v2.z - v1.z * v2.y,
        y: v1.z * v2.x - v1.x * v2.z,
        z: v1.x * v2.y - v1.y * v2.x,
    }
}

/// The sum of two vectors does not depend on their order.
pub proof fn lemma_add_commutative(a: Vec3, b: Vec3)
    ensures
        a.plus(b) == b.plus(a),
{
}

/// The zero vector is neutral for the sum.
pub proof fn lemma_add_zero(a: Vec3)
    ensures
        a.plus(Vec3::zeroes_spec()) == a,
        Vec3::zeroes_spec().plus(a) == a,
{
}

/// The sum of three vectors does not depend on the grouping exactly where
/// that holds of each component: everywhere but where a saturated inner sum
/// is pulled back by the third vector. It holds in particular where neither
/// inner sum saturates.
pub proof fn lemma_add_associative(a: Vec3, b: Vec3, c: Vec3)
    ensures
        a.plus(b).plus(c) == a.plus(b.plus(c)) <==> sums_associate(a.x@, b.x@, c.x@)
            && sums_associate(a.y@, b.y@, c.y@) && sums_associate(a.z@, b.z@, c.z@),
        a.plus(b)@ == (a.x@ + b.x@, a.y@ + b.y@, a.z@ + b.z@) && b.plus(c)@ == (
            b.x@ + c.x@,
            b.y@ + c.y@,
            b.z@ + c.z@,
        ) ==> a.plus(b).plus(c) == a.plus(b.plus(c)),
{
    lemma_plus_associative(a.x, b.x, c.x);
    lemma_plus_associative(a.y, b.y, c.y);
    lemma_plus_associative(a.z, b.z, c.z);
}

impl core::ops::Add for Vec3 {
    type Output = Vec3;

    fn add(self, rhs: Vec3) -> (r: Vec3)
        ensures
            r == self.plus(rhs),
    {
        Vec3 { x: self.x + rhs.x, y: self.y + rhs.y, z: self.z + rhs.z }
    }
}

impl vstd::std_specs::ops::AddSpecImpl for Vec3 {
    open spec fn obeys_add_spec() -> bool {
        true
    }

    open spec fn add_req(self, rhs: Vec3) -> bool {
        true
    }

    open spec fn add_spec(self, rhs: Vec3) -> Vec3 {
        self.plus(rhs)
    }
}

impl AddAssign for Vec3 {
    fn add_assign(&mut self, rhs: Vec3)
        ensures
            *final(self) == old(self).plus(rhs),
    {
        let r = *self + rhs;
        *self = r;
    }
}

impl core::ops::Sub for Vec3 {
    type Output = Vec3;

    fn sub(self, rhs: Vec3) -> (r: Vec3)
        ensures
            r == self.minus(rhs),
    {
        Vec3 { x: self.x - rhs.x, y: self.y - rhs.y, z: self.z - rhs.z }
    }
}

impl vstd::std_specs::ops::SubSpecImpl for Vec3 {
    open spec fn obeys_sub_spec() -> bool {
        true
    }

    open spec fn sub_req(self, rhs: Vec3) -> bool {
        true
    }

    open spec fn sub_spec(self, rhs: Vec3) -> Vec3 {
        self.minus(rhs)
    }
}

impl SubAssign for Vec3 {
    fn sub_assign(&mut self, rhs: Vec3)
        ensures
            *final(self) == old(self).minus(rhs),
    {
        let r = *self - rhs;
        *self = r;
    }
}

/// The componentwise (Hadamard) product.
impl core::ops::Mul for Vec3 {
    type Output = Vec3;

    fn mul(self, rhs: Vec3) -> (r: Vec3)
        ensures
            r == self.hadamard(rhs),
    {
        Vec3 { x: self.x * rhs.x, y: self.y * rhs.y, z: self.z * rhs.z }
    }
}

impl vstd::std_specs::ops::MulSpecImpl for Vec3 {
    open spec fn obeys_mul_spec() -> bool {
        true
    }

    open spec fn mul_req(self, rhs: Vec3) -> bool {
        true
    }

    open spec fn mul_spec(self, rhs: Vec3) -> Vec3 {
        self.hadamard(rhs)
    }
}

impl MulAssign for Vec3 {
    fn mul_assign(&mut self, rhs: Vec3)
        ensures
            *final(self) == old(self).hadamard(rhs),
    {
        let r = *self * rhs;
        *self = r;
    }
}

/// A scalar times a vector.
impl core::ops::Mul<Vec3> for Fixed {
    type Output = Vec3;

    fn mul(self, rhs: Vec3) -> (r: Vec3)
        ensures
            r == rhs.scaled(self),
    {
        Vec3 { x: self * rhs.x, y: self * rhs.y, z: self * rhs.z }
    }
}

impl vstd::std_specs::ops::MulSpecImpl<Vec3> for Fixed {
    open spec fn obeys_mul_spec() -> bool {
        true
    }

    open spec fn mul_req(self, rhs: Vec3) -> bool {
        true
    }

    open spec fn mul_spec(self, rhs: Vec3) -> Vec3 {
        rhs.scaled(self)
    }
}

/// A vector divided by a scalar.
impl core::ops::Div<Fixed> for Vec3 {
    type Output = Vec3;

    fn div(self, rhs: Fixed) -> (r: Vec3)
        ensures
            r == self.divided(rhs),
    {
        Vec3 { x: self.x / rhs, y: self.y / rhs, z: self.z / rhs }
    }
}

impl vstd::std_specs::ops::DivSpecImpl<Fixed> for Vec3 {
    open spec fn obeys_div_spec() -> bool {
        true
    }

    open spec fn div_req(self, rhs: Fixed) -> bool {
        true
    }

    open spec fn div_spec(self, rhs: Fixed) -> Vec3 {
        self.divided(rhs)
    }
}

/// The componentwise quotient of two vectors.
impl core::ops::Div for Vec3 {
    type Output = Vec3;

    fn div(self, rhs: Vec3) -> (r: Vec3)
        ensures
            r == self.quotients(rhs),
    {
        Vec3 { x: self.x / rhs.x, y: self.y / rhs.y, z: self.z / rhs.z }
    }
}

impl vstd::std_specs::ops::DivSpecImpl for Vec3 {
    open spec fn obeys_div_spec() -> bool {
        true
    }

    open spec fn div_req(self, rhs: Vec3) -> bool {
        true
    }

    open spec fn div_spec(self, rhs: Vec3) -> Vec3 {
        self.quotients(rhs)
    }
}

/// The componentwise (Hadamard) product of two vectors behind references.
impl core::ops::Mul for &Vec3 {
    type Output = Vec3;

    fn mul(self, rhs: &Vec3) -> (r: Vec3)
        ensures
            r == self.hadamard(*rhs),
    {
        Vec3 { x: self.x * rhs.x, y: self.y * rhs.y, z: self.z * rhs.z }
    }
}

impl vstd::std_specs::ops::MulSpecImpl for &Vec3 {
    open spec fn obeys_mul_spec() -> bool {
        true
    }

    open spec fn mul_req(self, rhs: &Vec3) -> bool {
        true
    }

    open spec fn mul_spec(self, rhs: &Vec3) -> Vec3 {
        self.hadamard(*rhs)
    }
}

impl core::ops::Neg for Vec3 {
    type Output = Vec3;

    fn neg(self) -> (r: Vec3)
        ensures
            r == self.negated(),
    {
        Vec3 { x: self.x.neg(), y: self.y.neg(), z: self.z.neg() }
    }
}

impl vstd::std_specs::ops::NegSpecImpl for Vec3 {
    open spec fn obeys_neg_spec() -> bool {
        true
    }

    open spec fn neg_req(self) -> bool {
        true
    }

    open spec fn neg_spec(self) -> Vec3 {
        self.negated()
    }
}

} // verus!
