use raytracer::fixed::Fixed;
use raytracer::vec3::{cross as cross_product, dot as dot_product, DegenerateVectorError, Vec3};

fn fx(v: f64) -> Fixed {
    Fixed::from_raw((v * 4294967296.0) as i64)
}

fn v3(x: f64, y: f64, z: f64) -> Vec3 {
    Vec3 { x: fx(x), y: fx(y), z: fx(z) }
}

#[test]
fn add() {
    assert_eq!(
        Vec3 { x: fx(1.0), y: fx(0.0), z: fx(2.0) } + Vec3 { x: fx(2.0), y: fx(1.0), z: fx(2.0) },
        Vec3 { x: fx(3.0), y: fx(1.0), z: fx(4.0) }
    );
}

#[test]
fn add_assign() {
    let mut x = Vec3::new(fx(0.0), fx(0.0), fx(0.0));
    let y = Vec3::new(fx(1.0), fx(2.0), fx(3.0));
    x += y;
    assert_eq!(x, Vec3 { x: fx(1.0), y: fx(2.0), z: fx(3.0) });
}

#[test]
fn cross() {
    assert_eq!(
        cross_product(
            &Vec3 { x: fx(1.0), y: fx(0.0), z: fx(2.0) },
            &Vec3 { x: fx(2.0), y: fx(1.0), z: fx(2.0) }
        ),
        Vec3 { x: fx(-2.0), y: fx(2.0), z: fx(1.0) }
    )
}

#[test]
fn dot() {
    assert_eq!(
        dot_product(
            &Vec3 { x: fx(1.0), y: fx(0.0), z: fx(2.0) },
            &Vec3 { x: fx(2.0), y: fx(1.0), z: fx(2.0) }
        ),
        fx(6.0)
    );
}

#[test]
fn length() {
    let v = Vec3 { x: fx(-2.0), y: fx(-2.0), z: fx(-1.0) };
    let u = Vec3 { x: fx(0.0), y: fx(0.0), z: fx(-1.0) };
    assert_eq!(v.length(), fx(3.0));
    assert_eq!(u.length(), fx(1.0));
}

#[test]
fn squared_length() {
    let v = Vec3 { x: fx(-2.0), y: fx(-2.0), z: fx(-1.0) };
    let u = Vec3 { x: fx(0.0), y: fx(0.0), z: fx(-1.0) };
    assert_eq!(v.squared_length(), fx(9.0));
    assert_eq!(u.squared_length(), fx(1.0));
}

#[test]
fn mul() {
    assert_eq!(
        fx(3.0) * Vec3 { x: fx(1.0), y: fx(2.0), z: fx(3.0) },
        Vec3 { x: fx(3.0), y: fx(6.0), z: fx(9.0) }
    );
}

#[test]
fn hadamard() {
    let lhs = Vec3::new(fx(1.0), fx(1.0), fx(1.0));
    let rhs = Vec3::new(fx(2.0), fx(3.0), fx(4.0));
    println!("{:?}", lhs * rhs);
    assert_eq!(lhs * rhs, Vec3::new(fx(2.0), fx(3.0), fx(4.0)));
}

#[test]
fn neg() {
    assert_eq!(
        -Vec3 { x: fx(1.0), y: fx(-2.0), z: fx(3.0) },
        Vec3 { x: fx(-1.0), y: fx(2.0), z: fx(-3.0) }
    );
}

#[test]
fn sub() {
    assert_eq!(
        Vec3 { x: fx(1.0), y: fx(0.0), z: fx(2.0) } - Vec3 { x: fx(2.0), y: fx(1.0), z: fx(2.0) },
        Vec3 { x: fx(-1.0), y: fx(-1.0), z: fx(0.0) }
    );
}

#[test]
fn zeroes_and_ones() {
    assert_eq!(Vec3::zeroes(), v3(0.0, 0.0, 0.0));
    assert_eq!(Vec3::ones(), v3(1.0, 1.0, 1.0));
    assert_eq!(Vec3::new(fx(1.5), fx(-2.25), fx(0.0)), v3(1.5, -2.25, 0.0));
}

#[test]
fn sum_adds_the_components() {
    assert_eq!(v3(1.5, -2.25, 4.0).sum(), fx(3.25));
}

#[test]
fn sub_assign_and_mul_assign() {
    let mut a = v3(5.0, 7.0, 9.0);
    a -= v3(1.0, 2.0, 3.0);
    assert_eq!(a, v3(4.0, 5.0, 6.0));
    a *= v3(0.5, 2.0, -1.0);
    assert_eq!(a, v3(2.0, 10.0, -6.0));
}

#[test]
fn divide_by_scalar() {
    assert_eq!(v3(3.0, -6.0, 9.0) / fx(3.0), v3(1.0, -2.0, 3.0));
    assert_eq!(v3(1.0, 0.0, -1.0) / fx(4.0), v3(0.25, 0.0, -0.25));
}

#[test]
fn cross_of_the_axes() {
    let x = v3(1.0, 0.0, 0.0);
    let y = v3(0.0, 1.0, 0.0);
    let z = v3(0.0, 0.0, 1.0);
    assert_eq!(cross_product(&x, &y), z);
    assert_eq!(cross_product(&y, &z), x);
    assert_eq!(cross_product(&z, &x), y);
    assert_eq!(cross_product(&y, &x), -z);
    assert_eq!(cross_product(&v3(0.0, 3.0, 0.0), &v3(2.0, 0.0, 0.0)), v3(0.0, 0.0, -6.0));
}

#[test]
fn addition_commutes() {
    let a = v3(1.25, -7.5, 100.0);
    let b = v3(-3.0, 0.125, 2.0);
    assert_eq!(a + b, b + a);
    let big = Vec3 { x: Fixed::max_value(), y: Fixed::from_raw(i64::MIN), z: fx(1.0) };
    assert_eq!(big + a, a + big);
}

#[test]
fn addition_associates_where_no_sum_saturates() {
    let a = v3(1.25, -7.5, 100.0);
    let b = v3(-3.0, 0.125, 2.0);
    let c = v3(8.0, 8.0, -0.5);
    assert_eq!((a + b) + c, a + (b + c));
    assert_eq!((a + b) + c, v3(6.25, 0.625, 101.5));
}

#[test]
fn addition_does_not_associate_across_saturation() {
    let top = Vec3 { x: Fixed::max_value(), y: fx(0.0), z: fx(0.0) };
    let one = v3(1.0, 0.0, 0.0);
    let minus_one = v3(-1.0, 0.0, 0.0);
    assert_eq!((top + one) + minus_one, top - one);
    assert_eq!(top + (one + minus_one), top);
    assert_ne!((top + one) + minus_one, top + (one + minus_one));
}

#[test]
fn zero_is_neutral_for_addition() {
    let a = v3(1.25, -7.5, 100.0);
    assert_eq!(a + Vec3::zeroes(), a);
    assert_eq!(Vec3::zeroes() + a, a);
    let big = Vec3 { x: Fixed::max_value(), y: Fixed::from_raw(i64::MIN), z: fx(1.0) };
    assert_eq!(big + Vec3::zeroes(), big);
}

#[test]
fn unit_vector_of_an_axis_multiple() {
    assert_eq!(v3(0.0, 5.0, 0.0).make_unit_vector(), Ok(v3(0.0, 1.0, 0.0)));
    assert_eq!(v3(0.0, 0.0, -0.25).make_unit_vector(), Ok(v3(0.0, 0.0, -1.0)));
    assert_eq!(v3(3.0, 0.0, 4.0).make_unit_vector(), Ok(v3(0.6, 0.0, 0.8)));
}

#[test]
fn unit_vector_has_length_close_to_one() {
    let one = 4294967296i64;
    for v in [
        v3(1.0, 2.0, 3.0),
        v3(-0.3, 0.7, 0.1),
        v3(100.0, -250.0, 3.5),
        v3(0.01, 0.02, -0.03),
        v3(-20000.0, 20000.0, 20000.0),
        v3(0.015625, 0.0, 0.0),
        v3(0.001, 0.002, -0.003),
        v3(0.0, 0.00002, 0.0),
        Vec3 { x: Fixed::from_raw(98304), y: fx(0.0), z: fx(0.0) },
        Vec3 { x: Fixed::from_raw(1), y: Fixed::from_raw(-1), z: Fixed::from_raw(1) },
        Vec3 { x: Fixed::from_raw(3), y: Fixed::from_raw(0), z: Fixed::from_raw(-2) },
        Vec3 { x: Fixed::max_value(), y: Fixed::from_raw(i64::MIN), z: Fixed::max_value() },
        Vec3 { x: Fixed::from_raw(i64::MIN), y: fx(0.0), z: fx(1.0) },
    ] {
        let unit = v.make_unit_vector().unwrap();
        let len = unit.length().raw;
        assert!(one - 16 <= len && len <= one, "{:?} has length {}", unit, len);
        for c in [unit.x.raw, unit.y.raw, unit.z.raw] {
            assert!(-one <= c && c <= one, "{:?}", unit);
        }
    }
}

#[test]
fn short_vectors_have_exact_unit_vectors() {
    let short = Vec3 { x: Fixed::from_raw(98304), y: fx(0.0), z: fx(0.0) };
    assert_eq!(short.make_unit_vector(), Ok(v3(1.0, 0.0, 0.0)));
    let least = Vec3 { x: fx(0.0), y: Fixed::from_raw(-1), z: fx(0.0) };
    assert_eq!(least.make_unit_vector(), Ok(v3(0.0, -1.0, 0.0)));
    let tiny = Vec3 { x: Fixed::from_raw(3), y: Fixed::from_raw(0), z: Fixed::from_raw(-4) };
    assert_eq!(tiny.length(), fx(0.0));
    assert_eq!(tiny.make_unit_vector(), Ok(v3(0.6, 0.0, -0.8)));
    let long = Vec3 { x: Fixed::from_raw(i64::MIN), y: fx(0.0), z: fx(0.0) };
    assert_eq!(long.make_unit_vector(), Ok(v3(-1.0, 0.0, 0.0)));
}

#[test]
fn unit_vector_does_not_depend_on_the_length() {
    let raw = |x: i64, y: i64, z: i64| Vec3 {
        x: Fixed::from_raw(x),
        y: Fixed::from_raw(y),
        z: Fixed::from_raw(z),
    };
    let unit = raw(1000, -333, 77).make_unit_vector().unwrap();
    assert_eq!(raw(2000, -666, 154).make_unit_vector(), Ok(unit));
    assert_eq!(raw(1000 << 20, -(333 << 20), 77 << 20).make_unit_vector(), Ok(unit));
    assert_eq!(raw(1000 << 50, -(333 << 50), 77 << 50).make_unit_vector(), Ok(unit));
    let one = 4294967296i64;
    let other = v3(0.3, -0.4, 1.2).make_unit_vector().unwrap();
    let half = (fx(0.5) * v3(0.3, -0.4, 1.2)).make_unit_vector().unwrap();
    for (a, b) in [(other.x, half.x), (other.y, half.y), (other.z, half.z)] {
        assert!((a.raw - b.raw).abs() <= one >> 24);
    }
}

#[test]
fn zero_vector_has_no_unit_vector() {
    assert_eq!(Vec3::zeroes().make_unit_vector(), Err(DegenerateVectorError {}));
    assert_eq!(v3(0.0, 0.0, 0.0).make_unit_vector(), Err(DegenerateVectorError {}));
}

#[test]
fn divide_by_vector() {
    assert_eq!(v3(3.0, -6.0, 9.0) / v3(3.0, 2.0, -4.5), v3(1.0, -3.0, -2.0));
    assert_eq!(v3(1.0, 1.0, 1.0) / v3(2.0, 4.0, 8.0), v3(0.5, 0.25, 0.125));
    assert_eq!(
        v3(1.0, -1.0, 0.0) / v3(0.0, 0.0, 0.0),
        Vec3 { x: Fixed::max_value(), y: Fixed::from_raw(i64::MIN), z: fx(0.0) }
    );
}

#[test]
fn hadamard_of_references() {
    let lhs = v3(1.5, -2.0, 0.5);
    let rhs = v3(2.0, 3.0, 4.0);
    assert_eq!(&lhs * &rhs, v3(3.0, -6.0, 2.0));
    assert_eq!(&lhs * &rhs, lhs * rhs);
}
