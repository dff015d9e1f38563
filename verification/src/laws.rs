//! Laws of the backward pass, proved against the same `sweep` specification
//! that `Graph::backward`'s contract is stated over.
//!
//! Each law takes the arena as a sequence of nodes with the shape the
//! constructors produce (fresh gradients are zero), and pins down the
//! gradients that the sweep yields.

use vstd::prelude::*;

use crate::backward::grads_of;
use crate::backward::push_grads;
use crate::backward::seed;
use crate::backward::sweep;
use crate::graph::Node;
use crate::graph::Op;
use crate::graph::graph_wf;
use crate::graph::node_wf;
use crate::rational::Q;
use crate::rational::q_add;
use crate::rational::q_eq;
use crate::rational::q_int;
use crate::rational::q_mul;
use crate::rational::q_one;
use crate::rational::q_pos;
use crate::rational::q_pow;
use crate::rational::q_zero;
use crate::rational::rat_zero;

verus! {

/// One push step writes only into the operands of node `i`, which all lie
/// strictly below `i`; gradients at or above `i` are untouched.
proof fn lemma_push_preserves_high(nodes: Seq<Node>, g: Seq<Q>, i: int, k: int)
    requires
        graph_wf(nodes),
        0 <= i < nodes.len(),
        g.len() == nodes.len(),
        i <= k < g.len(),
        push_grads(nodes, g, i) is Some,
    ensures
        push_grads(nodes, g, i).unwrap().len() == g.len(),
        push_grads(nodes, g, i).unwrap()[k] == g[k],
{
    assert(node_wf(nodes, i));
}

/// The sweep from handle `i` downward touches no gradient above `i`.
proof fn lemma_sweep_preserves_high(nodes: Seq<Node>, g: Seq<Q>, i: int, k: int)
    requires
        graph_wf(nodes),
        g.len() == nodes.len(),
        i < nodes.len(),
        i < k < g.len(),
        sweep(nodes, g, i) is Some,
    ensures
        sweep(nodes, g, i).unwrap().len() == g.len(),
        sweep(nodes, g, i).unwrap()[k] == g[k],
    decreases i + 1,
{
    if i >= 0 {
        let g2 = push_grads(nodes, g, i).unwrap();
        lemma_push_preserves_high(nodes, g, i, k);
        lemma_sweep_preserves_high(nodes, g2, i - 1, k);
    }
}

/// The output's own gradient is one after any successful backward sweep:
/// d out / d out == 1.  In particular, for a graph of a single leaf the
/// sweep sets that leaf's gradient to one.
pub proof fn lemma_output_gradient_is_one(nodes: Seq<Node>, out: int, result: Seq<Q>)
    requires
        graph_wf(nodes),
        0 <= out < nodes.len(),
        sweep(nodes, seed(grads_of(nodes), out), out) == Some(result),
    ensures
        result[out] == q_one(),
{
    let g0 = seed(grads_of(nodes), out);
    assert(g0.len() == nodes.len());
    assert(g0[out] == q_one());
    let g1 = push_grads(nodes, g0, out).unwrap();
    lemma_push_preserves_high(nodes, g0, out, out);
    if out > 0 {
        lemma_sweep_preserves_high(nodes, g1, out - 1, out);
    }
}

/// The backward sweep over a graph of one fresh leaf succeeds and leaves the
/// leaf with gradient one: the derivative of a value with respect to itself.
pub proof fn lemma_identity_gradient(nodes: Seq<Node>)
    requires
        graph_wf(nodes),
        nodes.len() == 1,
        nodes[0].op == Op::Leaf,
    ensures
        sweep(nodes, seed(grads_of(nodes), 0), 0) == Some(seed(grads_of(nodes), 0)),
        seed(grads_of(nodes), 0)[0] == q_one(),
{
    let g0 = seed(grads_of(nodes), 0);
    assert(push_grads(nodes, g0, 0) == Some(g0));
    assert(sweep(nodes, g0, -1) == Some(g0));
}

/// Sum rule: backward through `add(a, b)` over two distinct fresh leaves
/// gives each leaf gradient one, whatever the leaves' values are.
pub proof fn lemma_sum_rule(nodes: Seq<Node>)
    requires
        graph_wf(nodes),
        nodes.len() == 3,
        nodes[0].op == Op::Leaf,
        nodes[1].op == Op::Leaf,
        nodes[2].op == Op::Add(0, 1),
        nodes[0].grad == rat_zero(),
        nodes[1].grad == rat_zero(),
        nodes[2].grad == rat_zero(),
    ensures
        sweep(nodes, seed(grads_of(nodes), 2), 2) == Some(seq![q_one(), q_one(), q_one()]),
{
    let g0 = seed(grads_of(nodes), 2);
    let g1 = g0.update(0, q_one());
    let g2 = g1.update(1, q_one());
    assert(q_add(q_zero(), q_one()) == q_one());
    assert(push_grads(nodes, g0, 2) == Some(g2));
    assert(push_grads(nodes, g2, 1) == Some(g2));
    assert(push_grads(nodes, g2, 0) == Some(g2));
    assert(sweep(nodes, g2, -1) == Some(g2));
    assert(sweep(nodes, g2, 0) == Some(g2));
    assert(sweep(nodes, g2, 1) == Some(g2));
    assert(sweep(nodes, g0, 2) == Some(g2));
    assert(g2 =~= seq![q_one(), q_one(), q_one()]);
}

/// Product rule: backward through `mul(a, b)` over two distinct fresh leaves
/// gives each leaf the other's value as its gradient.
pub proof fn lemma_product_rule(nodes: Seq<Node>)
    requires
        graph_wf(nodes),
        nodes.len() == 3,
        nodes[0].op == Op::Leaf,
        nodes[1].op == Op::Leaf,
        nodes[2].op == Op::Mul(0, 1),
        nodes[0].grad == rat_zero(),
        nodes[1].grad == rat_zero(),
        nodes[2].grad == rat_zero(),
    ensures
        sweep(nodes, seed(grads_of(nodes), 2), 2) == Some(
            seq![nodes[1].value@, nodes[0].value@, q_one()],
        ),
{
    let va = nodes[0].value@;
    let vb = nodes[1].value@;
    let g0 = seed(grads_of(nodes), 2);
    let g1 = g0.update(0, vb);
    let g2 = g1.update(1, va);
    assert(q_mul(q_one(), vb) == vb && q_add(q_zero(), vb) == vb);
    assert(q_mul(q_one(), va) == va && q_add(q_zero(), va) == va);
    assert(push_grads(nodes, g0, 2) == Some(g2));
    assert(push_grads(nodes, g2, 1) == Some(g2));
    assert(push_grads(nodes, g2, 0) == Some(g2));
    assert(sweep(nodes, g2, -1) == Some(g2));
    assert(sweep(nodes, g2, 0) == Some(g2));
    assert(sweep(nodes, g2, 1) == Some(g2));
    assert(sweep(nodes, g0, 2) == Some(g2));
    assert(g2 =~= seq![vb, va, q_one()]);
}

/// Shared-node accumulation: backward through `add(x, x)`, with one leaf
/// used as both operands, accumulates one contribution per use and yields
/// gradient two, not one.
pub proof fn lemma_shared_node_accumulation(nodes: Seq<Node>)
    requires
        graph_wf(nodes),
        nodes.len() == 2,
        nodes[0].op == Op::Leaf,
        nodes[1].op == Op::Add(0, 0),
        nodes[0].grad == rat_zero(),
        nodes[1].grad == rat_zero(),
    ensures
        sweep(nodes, seed(grads_of(nodes), 1), 1) == Some(seq![q_int(2), q_one()]),
{
    let g0 = seed(grads_of(nodes), 1);
    let g1 = g0.update(0, q_one());
    let g2 = g1.update(0, q_int(2));
    assert(q_add(q_zero(), q_one()) == q_one());
    assert(q_add(q_one(), q_one()) == q_int(2));
    assert(push_grads(nodes, g0, 1) == Some(g2));
    assert(push_grads(nodes, g2, 0) == Some(g2));
    assert(sweep(nodes, g2, -1) == Some(g2));
    assert(sweep(nodes, g2, 0) == Some(g2));
    assert(sweep(nodes, g0, 1) == Some(g2));
    assert(g2 =~= seq![q_int(2), q_one()]);
}

/// Power rule: whenever backward through `pow(base, k)` (a base leaf, an
/// exponent leaf and the power node) succeeds, the base's gradient equals
/// `k * base^(k-1)`, and the exponent leaf receives no gradient at all.
pub proof fn lemma_power_rule(nodes: Seq<Node>, result: Seq<Q>)
    requires
        graph_wf(nodes),
        nodes.len() == 3,
        nodes[0].op == Op::Leaf,
        nodes[1].op == Op::Leaf,
        nodes[2].op == Op::Pow(0, 1),
        nodes[0].grad == rat_zero(),
        nodes[1].grad == rat_zero(),
        nodes[2].grad == rat_zero(),
        sweep(nodes, seed(grads_of(nodes), 2), 2) == Some(result),
    ensures
        q_eq(
            result[0],
            q_mul(nodes[1].value@, q_pow(nodes[0].value@, nodes[1].value@.n - 1)),
        ),
        result[1] == q_zero(),
        result[2] == q_one(),
{
    let va = nodes[0].value@;
    let ke = nodes[1].value@;
    let k: int = ke.n;
    let g0 = seed(grads_of(nodes), 2);
    assert(node_wf(nodes, 2));
    assert(ke.d == 1);
    if k == 0 {
        assert(push_grads(nodes, g0, 2) == Some(g0));
        assert(push_grads(nodes, g0, 1) == Some(g0));
        assert(push_grads(nodes, g0, 0) == Some(g0));
        assert(sweep(nodes, g0, -1) == Some(g0));
        assert(sweep(nodes, g0, 0) == Some(g0));
        assert(sweep(nodes, g0, 1) == Some(g0));
        assert(sweep(nodes, g0, 2) == Some(g0));
        assert(result == g0);
        assert(q_mul(ke, q_pow(va, -1)).n == 0);
    } else {
        let p = q_pow(va, k - 1);
        let u = q_mul(q_int(k), p);
        let g1 = g0.update(0, u);
        assert(q_mul(q_one(), u) == u && q_add(q_zero(), u) == u);
        assert(push_grads(nodes, g0, 2) is Some);
        assert(push_grads(nodes, g0, 2) == Some(g1));
        assert(push_grads(nodes, g1, 1) == Some(g1));
        assert(push_grads(nodes, g1, 0) == Some(g1));
        assert(sweep(nodes, g1, -1) == Some(g1));
        assert(sweep(nodes, g1, 0) == Some(g1));
        assert(sweep(nodes, g1, 1) == Some(g1));
        assert(sweep(nodes, g0, 2) == Some(g1));
        assert(result == g1);
        assert(ke == q_int(k));
    }
}

/// ReLU at or below zero: when the rectifier's output is not strictly
/// positive (the kink at exactly zero counts as inactive), the operand
/// receives gradient zero.
pub proof fn lemma_relu_inactive(nodes: Seq<Node>)
    requires
        graph_wf(nodes),
        nodes.len() == 2,
        nodes[0].op == Op::Leaf,
        nodes[1].op == Op::Relu(0),
        nodes[0].grad == rat_zero(),
        nodes[1].grad == rat_zero(),
        !q_pos(nodes[1].value@),
    ensures
        sweep(nodes, seed(grads_of(nodes), 1), 1) == Some(seq![q_zero(), q_one()]),
{
    let g0 = seed(grads_of(nodes), 1);
    assert(push_grads(nodes, g0, 1) == Some(g0));
    assert(push_grads(nodes, g0, 0) == Some(g0));
    assert(sweep(nodes, g0, -1) == Some(g0));
    assert(sweep(nodes, g0, 0) == Some(g0));
    assert(sweep(nodes, g0, 1) == Some(g0));
    assert(g0 =~= seq![q_zero(), q_one()]);
}

/// ReLU above zero: when the rectifier's output is strictly positive, the
/// gradient passes through unchanged.
pub proof fn lemma_relu_active(nodes: Seq<Node>)
    requires
        graph_wf(nodes),
        nodes.len() == 2,
        nodes[0].op == Op::Leaf,
        nodes[1].op == Op::Relu(0),
        nodes[0].grad == rat_zero(),
        nodes[1].grad == rat_zero(),
        q_pos(nodes[1].value@),
    ensures
        sweep(nodes, seed(grads_of(nodes), 1), 1) == Some(seq![q_one(), q_one()]),
{
    let g0 = seed(grads_of(nodes), 1);
    let g1 = g0.update(0, q_one());
    assert(q_add(q_zero(), q_one()) == q_one());
    assert(push_grads(nodes, g0, 1) == Some(g1));
    assert(push_grads(nodes, g1, 0) == Some(g1));
    assert(sweep(nodes, g1, -1) == Some(g1));
    assert(sweep(nodes, g1, 0) == Some(g1));
    assert(sweep(nodes, g0, 1) == Some(g1));
    assert(g1 =~= seq![q_one(), q_one()]);
}

} // verus!
