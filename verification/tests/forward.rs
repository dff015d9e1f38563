use scalargrad::graph::Graph;
use scalargrad::rational::GradError;
use scalargrad::rational::Rat;

fn rat(n: i64, d: i64) -> Rat {
    Rat::new(n, d).unwrap()
}

#[test]
fn add_of_literals() {
    let mut g = Graph::new();
    let a = g.leaf(Rat::from_int(-4));
    let b = g.leaf(Rat::from_int(2));
    let c = g.add(a, b).unwrap();
    assert!(g.value(c).eqv(&Rat::from_int(-2)));
}

#[test]
fn mul_of_literals() {
    let mut g = Graph::new();
    let a = g.leaf(Rat::from_int(-4));
    let b = g.leaf(Rat::from_int(2));
    let m = g.mul(a, b).unwrap();
    assert!(g.value(m).eqv(&Rat::from_int(-8)));
}

#[test]
fn pow_of_literals() {
    let mut g = Graph::new();
    let b = g.leaf(Rat::from_int(2));
    let p = g.pow(b, 3).unwrap();
    assert!(g.value(p).eqv(&Rat::from_int(8)));
}

#[test]
fn pow_negative_exponent() {
    let mut g = Graph::new();
    let b = g.leaf(Rat::from_int(2));
    let p = g.pow(b, -2).unwrap();
    assert!(g.value(p).eqv(&rat(1, 4)));
}

#[test]
fn pow_of_zero_base_negative_exponent_is_rejected() {
    let mut g = Graph::new();
    let z = g.leaf(Rat::from_int(0));
    assert_eq!(g.pow(z, -1), Err(GradError::DivisionByZero));
    assert_eq!(g.len(), 1);
}

#[test]
fn relu_of_negative_is_zero() {
    let mut g = Graph::new();
    let a = g.leaf(Rat::from_int(-2));
    let r = g.relu(a);
    assert!(g.value(r).eqv(&Rat::from_int(0)));
}

#[test]
fn relu_of_positive_is_identity() {
    let mut g = Graph::new();
    let a = g.leaf(Rat::from_int(3));
    let r = g.relu(a);
    assert!(g.value(r).eqv(&Rat::from_int(3)));
}

#[test]
fn neg_of_literal() {
    let mut g = Graph::new();
    let a = g.leaf(rat(3, 2));
    let n = g.neg(a).unwrap();
    assert!(g.value(n).eqv(&rat(-3, 2)));
}

#[test]
fn sub_is_add_of_negation() {
    let mut g = Graph::new();
    let a = g.leaf(Rat::from_int(-4));
    let b = g.leaf(Rat::from_int(2));
    let s = g.sub(a, b).unwrap();
    assert!(g.value(s).eqv(&Rat::from_int(-6)));
    // two synthesized nodes: the negation and the sum
    assert_eq!(g.len(), 4);
}

#[test]
fn div_of_literals() {
    let mut g = Graph::new();
    let a = g.leaf(Rat::from_int(1));
    let b = g.leaf(Rat::from_int(2));
    let d = g.div(a, b).unwrap();
    assert!(g.value(d).eqv(&rat(1, 2)));
}

#[test]
fn div_by_zero_is_rejected() {
    let mut g = Graph::new();
    let a = g.leaf(Rat::from_int(1));
    let z = g.leaf(Rat::from_int(0));
    assert_eq!(g.div(a, z), Err(GradError::DivisionByZero));
    // a rejected constructor leaves the graph unchanged
    assert_eq!(g.len(), 2);
}

#[test]
fn add_overflow_is_rejected() {
    let mut g = Graph::new();
    let a = g.leaf(rat(1, i64::MAX));
    let b = g.leaf(rat(1, 2));
    assert_eq!(g.add(a, b), Err(GradError::Overflow));
    assert_eq!(g.len(), 2);
}

#[test]
fn pow_overflow_is_rejected() {
    let mut g = Graph::new();
    let a = g.leaf(Rat::from_int(i64::MAX));
    assert_eq!(g.pow(a, 3), Err(GradError::Overflow));
    assert_eq!(g.len(), 1);
}

#[test]
fn leaf_value_and_zero_gradient() {
    let mut g = Graph::new();
    let a = g.leaf(rat(7, 3));
    assert!(g.value(a).eqv(&rat(7, 3)));
    assert!(g.gradient(a).eqv(&Rat::from_int(0)));
}
