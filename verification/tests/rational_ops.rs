use scalargrad::rational::GradError;
use scalargrad::rational::Rat;
use scalargrad::rational::rat_add;
use scalargrad::rational::rat_div;
use scalargrad::rational::rat_mul;
use scalargrad::rational::rat_neg;
use scalargrad::rational::rat_pow;
use scalargrad::rational::rat_relu;
use scalargrad::rational::rat_sub;

fn rat(n: i64, d: i64) -> Rat {
    Rat::new(n, d).unwrap()
}

#[test]
fn new_rejects_zero_denominator() {
    assert!(Rat::new(1, 0).is_none());
}

#[test]
fn new_normalizes_negative_denominator() {
    let r = Rat::new(1, -2).unwrap();
    assert_eq!((r.num, r.den), (-1, 2));
}

#[test]
fn from_int_is_over_one() {
    let r = Rat::from_int(-7);
    assert_eq!((r.num, r.den), (-7, 1));
}

#[test]
fn eqv_ignores_representation() {
    assert!(rat(1, 2).eqv(&rat(2, 4)));
    assert!(!rat(1, 2).eqv(&rat(1, 3)));
    assert!(rat(0, 5).eqv(&Rat::from_int(0)));
}

#[test]
fn addition_is_exact() {
    let s = rat_add(&rat(1, 3), &rat(1, 6)).unwrap();
    assert!(s.eqv(&rat(1, 2)));
}

#[test]
fn subtraction_is_exact() {
    let s = rat_sub(&rat(1, 2), &rat(1, 3)).unwrap();
    assert!(s.eqv(&rat(1, 6)));
}

#[test]
fn multiplication_is_exact() {
    let p = rat_mul(&rat(2, 3), &rat(3, 4)).unwrap();
    assert!(p.eqv(&rat(1, 2)));
}

#[test]
fn division_is_exact() {
    let q = rat_div(&rat(1, 2), &rat(-3, 4)).unwrap();
    assert!(q.eqv(&rat(-2, 3)));
    assert!(q.den > 0);
}

#[test]
fn division_by_zero_is_reported() {
    assert_eq!(
        rat_div(&rat(1, 2), &Rat::from_int(0)),
        Err(GradError::DivisionByZero)
    );
}

#[test]
fn negation_is_exact() {
    let n = rat_neg(&rat(3, 7)).unwrap();
    assert!(n.eqv(&rat(-3, 7)));
}

#[test]
fn negation_overflow_is_reported() {
    let edge = Rat { num: i64::MIN, den: 1 };
    assert_eq!(rat_neg(&edge), Err(GradError::Overflow));
}

#[test]
fn power_of_fraction() {
    let p = rat_pow(&rat(2, 3), 3).unwrap();
    assert!(p.eqv(&rat(8, 27)));
}

#[test]
fn power_zero_exponent_is_one() {
    let p = rat_pow(&rat(5, 9), 0).unwrap();
    assert!(p.eqv(&Rat::from_int(1)));
}

#[test]
fn power_negative_exponent_is_reciprocal() {
    let p = rat_pow(&Rat::from_int(2), -2).unwrap();
    assert!(p.eqv(&rat(1, 4)));
    let q = rat_pow(&rat(-2, 3), -1).unwrap();
    assert!(q.eqv(&rat(-3, 2)));
    assert!(q.den > 0);
}

#[test]
fn power_of_zero_negative_exponent_is_reported() {
    assert_eq!(
        rat_pow(&Rat::from_int(0), -1),
        Err(GradError::DivisionByZero)
    );
}

#[test]
fn addition_overflow_is_reported() {
    assert_eq!(
        rat_add(&rat(1, i64::MAX), &rat(1, 2)),
        Err(GradError::Overflow)
    );
}

#[test]
fn power_overflow_is_reported() {
    assert_eq!(rat_pow(&Rat::from_int(i64::MAX), 2), Err(GradError::Overflow));
}

#[test]
fn relu_clamps_at_zero() {
    assert!(rat_relu(&rat(-3, 4)).eqv(&Rat::from_int(0)));
    assert!(rat_relu(&Rat::from_int(0)).eqv(&Rat::from_int(0)));
    assert!(rat_relu(&rat(3, 4)).eqv(&rat(3, 4)));
}
