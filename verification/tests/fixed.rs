use raytracer::fixed::{Fixed, FRACTION_BITS, ONE_RAW};

fn fx(v: f64) -> Fixed {
    Fixed::from_raw((v * 4294967296.0) as i64)
}

#[test]
fn one_has_thirty_two_fraction_bits() {
    assert_eq!(ONE_RAW, 1i64 << FRACTION_BITS);
    assert_eq!(Fixed::one().raw, 4294967296);
    assert_eq!(Fixed::zero().raw, 0);
    assert_eq!(Fixed::max_value().raw, i64::MAX);
}

#[test]
fn from_int_scales_by_one() {
    assert_eq!(Fixed::from_int(3), fx(3.0));
    assert_eq!(Fixed::from_int(-7).raw, -7 * 4294967296);
    assert_eq!(Fixed::from_int(i32::MIN).raw, i64::MIN);
    assert_eq!(Fixed::from_int(i32::MAX).raw, 2147483647 * 4294967296);
}

#[test]
fn from_index_saturates() {
    assert_eq!(Fixed::from_index(0), fx(0.0));
    assert_eq!(Fixed::from_index(1920), fx(1920.0));
    assert_eq!(Fixed::from_index(2147483647).raw, 2147483647 * 4294967296);
    assert_eq!(Fixed::from_index(2147483648), Fixed::max_value());
    assert_eq!(Fixed::from_index(u32::MAX), Fixed::max_value());
}

#[test]
fn scalar_sum_and_difference() {
    assert_eq!(fx(1.5) + fx(2.25), fx(3.75));
    assert_eq!(fx(1.5) - fx(2.25), fx(-0.75));
    assert_eq!(-fx(1.5), fx(-1.5));
}

#[test]
fn scalar_sum_saturates() {
    assert_eq!(Fixed::max_value() + fx(1.0), Fixed::max_value());
    assert_eq!(Fixed::from_raw(i64::MIN) - fx(1.0), Fixed::from_raw(i64::MIN));
    assert_eq!(Fixed::from_raw(i64::MIN) + Fixed::from_raw(i64::MIN), Fixed::from_raw(i64::MIN));
    assert_eq!(-Fixed::from_raw(i64::MIN), Fixed::max_value());
    assert_eq!(-Fixed::max_value(), Fixed::from_raw(i64::MIN + 1));
}

#[test]
fn scalar_product_rounds_toward_zero() {
    assert_eq!(fx(1.5) * fx(-2.5), fx(-3.75));
    assert_eq!(Fixed::from_raw(3) * fx(0.5), Fixed::from_raw(1));
    assert_eq!(Fixed::from_raw(-3) * fx(0.5), Fixed::from_raw(-1));
    assert_eq!(Fixed::from_raw(-1) * fx(0.5), Fixed::from_raw(0));
    assert_eq!(Fixed::from_raw(1) * Fixed::from_raw(1), Fixed::from_raw(0));
}

#[test]
fn scalar_product_saturates() {
    assert_eq!(fx(65536.0) * fx(65536.0), Fixed::max_value());
    assert_eq!(fx(65536.0) * fx(-65536.0), Fixed::from_raw(i64::MIN));
    assert_eq!(Fixed::from_raw(i64::MIN) * Fixed::from_raw(i64::MIN), Fixed::max_value());
    assert_eq!(fx(46340.0) * fx(46340.0), fx(2147395600.0));
}

#[test]
fn scalar_quotient_rounds_toward_zero() {
    assert_eq!(fx(7.5) / fx(2.5), fx(3.0));
    assert_eq!(fx(1.0) / fx(3.0), Fixed::from_raw(1431655765));
    assert_eq!(fx(-1.0) / fx(3.0), Fixed::from_raw(-1431655765));
    assert_eq!(fx(1.0) / fx(-3.0), Fixed::from_raw(-1431655765));
    assert_eq!(fx(-1.0) / fx(-3.0), Fixed::from_raw(1431655765));
}

#[test]
fn scalar_quotient_saturates() {
    assert_eq!(fx(1.0) / Fixed::from_raw(1), Fixed::max_value());
    assert_eq!(fx(-1.0) / Fixed::from_raw(1), Fixed::from_raw(i64::MIN));
    assert_eq!(fx(1.0) / Fixed::from_raw(2), Fixed::max_value());
    assert_eq!(fx(1.0) / Fixed::from_raw(4), Fixed::from_raw(1i64 << 62));
}

#[test]
fn division_by_zero_saturates_by_sign() {
    assert_eq!(fx(2.0) / fx(0.0), Fixed::max_value());
    assert_eq!(fx(-2.0) / fx(0.0), Fixed::from_raw(i64::MIN));
    assert_eq!(fx(0.0) / fx(0.0), fx(0.0));
}

#[test]
fn square_root_rounds_toward_zero() {
    assert_eq!(fx(9.0).sqrt(), fx(3.0));
    assert_eq!(fx(0.25).sqrt(), fx(0.5));
    assert_eq!(fx(2.0).sqrt(), Fixed::from_raw(6074000999));
    assert_eq!(Fixed::from_raw(1).sqrt(), Fixed::from_raw(65536));
    assert_eq!(Fixed::max_value().sqrt(), Fixed::from_raw(199032864766430));
}

#[test]
fn square_root_of_nothing_positive_is_zero() {
    assert_eq!(fx(0.0).sqrt(), fx(0.0));
    assert_eq!(fx(-4.0).sqrt(), fx(0.0));
    assert_eq!(Fixed::from_raw(i64::MIN).sqrt(), fx(0.0));
}
