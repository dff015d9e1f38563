use scalargrad::graph::Graph;
use scalargrad::rational::GradError;
use scalargrad::rational::Rat;

fn rat(n: i64, d: i64) -> Rat {
    Rat::new(n, d).unwrap()
}

#[test]
fn gradient_of_identity() {
    let mut g = Graph::new();
    let x = g.leaf(Rat::from_int(5));
    g.backward(x).unwrap();
    assert!(g.gradient(x).eqv(&Rat::from_int(1)));
}

#[test]
fn sum_rule() {
    let mut g = Graph::new();
    let a = g.leaf(Rat::from_int(-4));
    let b = g.leaf(Rat::from_int(2));
    let c = g.add(a, b).unwrap();
    g.backward(c).unwrap();
    assert!(g.gradient(a).eqv(&Rat::from_int(1)));
    assert!(g.gradient(b).eqv(&Rat::from_int(1)));
}

#[test]
fn product_rule() {
    let mut g = Graph::new();
    let a = g.leaf(Rat::from_int(3));
    let b = g.leaf(Rat::from_int(5));
    let m = g.mul(a, b).unwrap();
    g.backward(m).unwrap();
    assert!(g.gradient(a).eqv(&Rat::from_int(5)));
    assert!(g.gradient(b).eqv(&Rat::from_int(3)));
}

#[test]
fn shared_node_accumulation() {
    let mut g = Graph::new();
    let x = g.leaf(Rat::from_int(7));
    let y = g.add(x, x).unwrap();
    g.backward(y).unwrap();
    assert!(g.gradient(x).eqv(&Rat::from_int(2)));
}

#[test]
fn power_rule() {
    let mut g = Graph::new();
    let b = g.leaf(Rat::from_int(2));
    let p = g.pow(b, 3).unwrap();
    g.backward(p).unwrap();
    // 3 * 2^2 == 12
    assert!(g.gradient(b).eqv(&Rat::from_int(12)));
}

#[test]
fn power_rule_negative_exponent() {
    let mut g = Graph::new();
    let b = g.leaf(Rat::from_int(2));
    let p = g.pow(b, -1).unwrap();
    g.backward(p).unwrap();
    // -1 * 2^-2 == -1/4
    assert!(g.gradient(b).eqv(&rat(-1, 4)));
}

#[test]
fn exponent_leaf_gets_no_gradient() {
    let mut g = Graph::new();
    let b = g.leaf(Rat::from_int(2));
    let p = g.pow(b, 3).unwrap();
    g.backward(p).unwrap();
    // the exponent leaf sits between base and power node
    assert!(g.gradient(p - 1).eqv(&Rat::from_int(0)));
}

#[test]
fn relu_boundary_blocks_gradient() {
    let mut g = Graph::new();
    let x = g.leaf(Rat::from_int(0));
    let r = g.relu(x);
    g.backward(r).unwrap();
    assert!(g.gradient(x).eqv(&Rat::from_int(0)));
}

#[test]
fn relu_active_passes_gradient() {
    let mut g = Graph::new();
    let x = g.leaf(Rat::from_int(3));
    let r = g.relu(x);
    g.backward(r).unwrap();
    assert!(g.gradient(x).eqv(&Rat::from_int(1)));
}

#[test]
fn neg_rule() {
    let mut g = Graph::new();
    let x = g.leaf(Rat::from_int(4));
    let n = g.neg(x).unwrap();
    g.backward(n).unwrap();
    assert!(g.gradient(x).eqv(&Rat::from_int(-1)));
}

#[test]
fn sub_rule() {
    let mut g = Graph::new();
    let a = g.leaf(Rat::from_int(-4));
    let b = g.leaf(Rat::from_int(2));
    let s = g.sub(a, b).unwrap();
    g.backward(s).unwrap();
    assert!(g.gradient(a).eqv(&Rat::from_int(1)));
    assert!(g.gradient(b).eqv(&Rat::from_int(-1)));
}

#[test]
fn div_rule() {
    let mut g = Graph::new();
    let a = g.leaf(Rat::from_int(1));
    let b = g.leaf(Rat::from_int(2));
    let d = g.div(a, b).unwrap();
    g.backward(d).unwrap();
    // d(a/b)/da == 1/b == 1/2;  d(a/b)/db == -a/b^2 == -1/4
    assert!(g.gradient(a).eqv(&rat(1, 2)));
    assert!(g.gradient(b).eqv(&rat(-1, 4)));
}

#[test]
fn composite_graph_gradients() {
    // d == a*b + b^3 at a == -4, b == 2:
    //   dd/da == b == 2;  dd/db == a + 3*b^2 == 8  (b is shared)
    let mut g = Graph::new();
    let a = g.leaf(Rat::from_int(-4));
    let b = g.leaf(Rat::from_int(2));
    let m = g.mul(a, b).unwrap();
    let p = g.pow(b, 3).unwrap();
    let d = g.add(m, p).unwrap();
    assert!(g.value(d).eqv(&Rat::from_int(0)));
    g.backward(d).unwrap();
    assert!(g.gradient(d).eqv(&Rat::from_int(1)));
    assert!(g.gradient(a).eqv(&Rat::from_int(2)));
    assert!(g.gradient(b).eqv(&Rat::from_int(8)));
}

#[test]
fn values_unchanged_by_backward() {
    let mut g = Graph::new();
    let a = g.leaf(rat(-7, 3));
    let b = g.leaf(rat(2, 5));
    let m = g.mul(a, b).unwrap();
    let r = g.relu(m);
    let before: Vec<(i64, i64)> = (0..g.len()).map(|i| {
        let v = g.value(i);
        (v.num, v.den)
    }).collect();
    g.backward(r).unwrap();
    let after: Vec<(i64, i64)> = (0..g.len()).map(|i| {
        let v = g.value(i);
        (v.num, v.den)
    }).collect();
    assert_eq!(before, after);
}

#[test]
fn backward_twice_accumulates() {
    // gradients are write-accumulated: a second pass without rebuilding the
    // graph adds its contributions on top of the first
    let mut g = Graph::new();
    let a = g.leaf(Rat::from_int(-4));
    let b = g.leaf(Rat::from_int(2));
    let c = g.add(a, b).unwrap();
    g.backward(c).unwrap();
    g.backward(c).unwrap();
    assert!(g.gradient(a).eqv(&Rat::from_int(2)));
    assert!(g.gradient(b).eqv(&Rat::from_int(2)));
}

#[test]
fn backward_overflow_is_reported() {
    // the divisor's square 1/2^128 is not representable, so the backward
    // pass must fail with an overflow, leaving every value untouched
    let mut g = Graph::new();
    let a = g.leaf(Rat::from_int(1));
    let b = g.leaf(rat(1, 1 << 32));
    let d = g.div(a, b).unwrap();
    assert!(g.value(d).eqv(&Rat::from_int(1 << 32)));
    assert_eq!(g.backward(d), Err(GradError::Overflow));
    assert!(g.value(d).eqv(&Rat::from_int(1 << 32)));
    assert!(g.value(b).eqv(&rat(1, 1 << 32)));
}
