//! The backward engine: reverse-mode gradient propagation.
//!
//! Because every operand handle points strictly below its node, descending
//! handle order is a topological order of the DAG: every consumer of a node
//! is processed before the node itself, and a node shared by several
//! consumers accumulates (never overwrites) one contribution per consumer.
//!
//! The pass is specified by `sweep`: seed the output's gradient with one,
//! then walk the handles from the output down to zero, applying each node's
//! local derivative rule to its operands' gradients.  Handles above the
//! output are ignored, and in a freshly built graph a node that does not
//! feed the output only ever receives zero-valued contributions.
//! `backward` returns `Ok` exactly when every exact intermediate stays
//! representable, and its final gradients are then exactly the ones `sweep`
//! describes.  Node values, operations and operands are never changed,
//! whether the pass succeeds or not; only gradients move.
//!
//! Gradients accumulate across calls: running `backward` twice without
//! rebuilding the graph adds the two passes' contributions, so a caller who
//! wants fresh gradients builds a fresh graph.

use vstd::prelude::*;
use vstd::pervasive::VecAdditionalExecFns;

use crate::graph::Graph;
use crate::graph::Node;
use crate::graph::Op;
use crate::graph::graph_wf;
use crate::graph::node_wf;
use crate::rational::GradError;
use crate::rational::Q;
use crate::rational::Rat;
use crate::rational::lemma_nonzero_mul;
use crate::rational::lemma_pos_den_sign;
use crate::rational::nat_abs;
use crate::rational::q_add;
use crate::rational::q_div;
use crate::rational::q_fits;
use crate::rational::q_int;
use crate::rational::q_mul;
use crate::rational::q_one;
use crate::rational::q_pos;
use crate::rational::q_pow;
use crate::rational::q_pow_steps_fit;
use crate::rational::q_sub;
use crate::rational::rat_add;
use crate::rational::rat_div;
use crate::rational::rat_mul;
use crate::rational::rat_pow;
use crate::rational::rat_sub;

verus! {

/// The gradients of an arena, as mathematical rationals.
pub open spec fn grads_of(nodes: Seq<Node>) -> Seq<Q> {
    Seq::new(nodes.len(), |j: int| nodes[j].grad@)
}

/// Seeding: the output's own gradient is set to one (d out / d out == 1);
/// every other gradient keeps its prior value.
pub open spec fn seed(grads: Seq<Q>, out: int) -> Seq<Q> {
    grads.update(out, q_one())
}

/// One accumulation `grads[t] += c`, or `None` when the exact sum is not
/// representable.
pub open spec fn acc_into(grads: Seq<Q>, t: int, c: Q) -> Option<Seq<Q>> {
    if q_fits(q_add(grads[t], c)) {
        Some(grads.update(t, q_add(grads[t], c)))
    } else {
        None
    }
}

/// One accumulation `grads[t] -= c`, or `None` when the exact difference is
/// not representable.
pub open spec fn acc_away(grads: Seq<Q>, t: int, c: Q) -> Option<Seq<Q>> {
    if q_fits(q_sub(grads[t], c)) {
        Some(grads.update(t, q_sub(grads[t], c)))
    } else {
        None
    }
}

/// The local derivative rule of the node at handle `i`, pushed into its
/// operands' gradients; `None` when an exact intermediate is not
/// representable.
///
/// With `g` the node's own gradient, `va`/`vb` its operands' values and `v`
/// its value:
/// - `Add(a, b)`:  `a += g`, then `b += g`;
/// - `Neg(a)`:     `a -= g`;
/// - `Mul(a, b)`:  `a += g * vb`, then `b += g * va`;
/// - `Div(a, b)`:  `a += g / vb`, then `b -= g * (va / vb^2)`;
/// - `Pow(a, e)`:  `a += g * (k * va^(k-1))` for exponent `k != 0`, nothing
///   for `k == 0`; the exponent leaf `e` never receives a gradient;
/// - `Relu(a)`:    `a += g` when `v` is strictly positive, nothing otherwise;
/// - `Leaf`:       nothing.
pub open spec fn push_grads(nodes: Seq<Node>, grads: Seq<Q>, i: int) -> Option<Seq<Q>> {
    let g = grads[i];
    match nodes[i].op {
        Op::Leaf => Some(grads),
        Op::Add(a, b) => match acc_into(grads, a as int, g) {
            Some(g1) => acc_into(g1, b as int, g),
            None => None,
        },
        Op::Neg(a) => acc_away(grads, a as int, g),
        Op::Mul(a, b) => {
            let va = nodes[a as int].value@;
            let vb = nodes[b as int].value@;
            if !q_fits(q_mul(g, vb)) {
                None
            } else {
                match acc_into(grads, a as int, q_mul(g, vb)) {
                    Some(g1) => if !q_fits(q_mul(g, va)) {
                        None
                    } else {
                        acc_into(g1, b as int, q_mul(g, va))
                    },
                    None => None,
                }
            }
        },
        Op::Div(a, b) => {
            let va = nodes[a as int].value@;
            let vb = nodes[b as int].value@;
            if !q_fits(q_div(g, vb)) {
                None
            } else {
                match acc_into(grads, a as int, q_div(g, vb)) {
                    Some(g1) => {
                        if !q_fits(q_mul(vb, vb)) {
                            None
                        } else if !q_fits(q_div(va, q_mul(vb, vb))) {
                            None
                        } else if !q_fits(q_mul(g, q_div(va, q_mul(vb, vb)))) {
                            None
                        } else {
                            acc_away(g1, b as int, q_mul(g, q_div(va, q_mul(vb, vb))))
                        }
                    },
                    None => None,
                }
            }
        },
        Op::Pow(a, e) => {
            let va = nodes[a as int].value@;
            let k = nodes[e as int].value@.n;
            if k == 0 {
                Some(grads)
            } else if !(q_pow_steps_fit(va, nat_abs(k - 1)) && q_fits(q_pow(va, k - 1))) {
                None
            } else if !q_fits(q_mul(q_int(k), q_pow(va, k - 1))) {
                None
            } else if !q_fits(q_mul(g, q_mul(q_int(k), q_pow(va, k - 1)))) {
                None
            } else {
                acc_into(grads, a as int, q_mul(g, q_mul(q_int(k), q_pow(va, k - 1))))
            }
        },
        Op::Relu(a) => {
            if q_pos(nodes[i].value@) {
                acc_into(grads, a as int, g)
            } else {
                Some(grads)
            }
        },
    }
}

/// The whole backward walk: apply `push_grads` at handles `i, i-1, .., 0`.
/// `None` as soon as one exact intermediate is not representable.
pub open spec fn sweep(nodes: Seq<Node>, grads: Seq<Q>, i: int) -> Option<Seq<Q>>
    decreases i + 1,
{
    if i < 0 {
        Some(grads)
    } else {
        match push_grads(nodes, grads, i) {
            Some(g2) => sweep(nodes, g2, i - 1),
            None => None,
        }
    }
}

/// Overwriting one gradient keeps the arena well-formed: values, operations
/// and operands are untouched.
proof fn lemma_wf_set_grad(s: Seq<Node>, t: int, g: Rat)
    requires
        graph_wf(s),
        0 <= t < s.len(),
        g.wf(),
    ensures
        graph_wf(s.update(t, (Node { value: s[t].value, grad: g, op: s[t].op }))),
{
    let s2 = s.update(t, Node { value: s[t].value, grad: g, op: s[t].op });
    assert forall|i: int| 0 <= i < s2.len() implies node_wf(s2, i) by {
        assert(node_wf(s, i));
        assert(s2[i].op == s[i].op && s2[i].value == s[i].value);
        match s[i].op {
            Op::Pow(a, e) => {
                assert(s2[e as int].op == s[e as int].op);
                assert(s2[e as int].value == s[e as int].value);
                assert(s2[a as int].value == s[a as int].value);
            },
            Op::Div(a, b) => {
                assert(s2[b as int].value == s[b as int].value);
            },
            _ => {},
        }
    }
}

/// `push_grads` reads only values and operations from the arena, so two
/// arenas that agree on those push identically.
proof fn lemma_push_grads_same(n1: Seq<Node>, n2: Seq<Node>, g: Seq<Q>, i: int)
    requires
        n1.len() == n2.len(),
        0 <= i < n1.len(),
        node_wf(n1, i),
        forall|j: int|
            0 <= j < n1.len() ==> (#[trigger] n1[j]).value == n2[j].value && n1[j].op == n2[j].op,
    ensures
        push_grads(n1, g, i) == push_grads(n2, g, i),
{
    assert(n1[i].op == n2[i].op);
    assert(n1[i].value == n2[i].value);
    match n1[i].op {
        Op::Mul(a, b) => {
            assert(n1[a as int].value == n2[a as int].value);
            assert(n1[b as int].value == n2[b as int].value);
        },
        Op::Div(a, b) => {
            assert(n1[a as int].value == n2[a as int].value);
            assert(n1[b as int].value == n2[b as int].value);
        },
        Op::Pow(a, e) => {
            assert(n1[a as int].value == n2[a as int].value);
            assert(n1[e as int].value == n2[e as int].value);
        },
        _ => {},
    }
}

impl Graph {
    /// Overwrite the gradient of node `t`, leaving everything else in place.
    fn set_grad(&mut self, t: usize, g: Rat)
        requires
            old(self).wf(),
            t < old(self).nodes@.len(),
            g.wf(),
        ensures
            final(self).wf(),
            final(self).nodes@ == old(self).nodes@.update(
                t as int,
                (Node {
                    value: old(self).nodes@[t as int].value,
                    grad: g,
                    op: old(self).nodes@[t as int].op,
                }),
            ),
            grads_of(final(self).nodes@) == grads_of(old(self).nodes@).update(t as int, g@),
    {
        let mut n = self.nodes[t];
        n.grad = g;
        self.nodes.set(t, n);
        proof {
            lemma_wf_set_grad(old(self).nodes@, t as int, g);
            assert(grads_of(self.nodes@) =~= grads_of(old(self).nodes@).update(t as int, g@));
        }
    }

    #[verifier::rlimit(100)]
    #[verifier::spinoff_prover]
    fn push_add(&mut self, i: usize, a: usize, b: usize) -> (r: Result<(), GradError>)
        requires
            old(self).wf(),
            i < old(self).nodes@.len(),
            old(self).nodes@[i as int].op == Op::Add(a, b),
        ensures
            final(self).wf(),
            final(self).nodes@.len() == old(self).nodes@.len(),
            forall|j: int|
                0 <= j < old(self).nodes@.len() ==> (#[trigger] final(self).nodes@[j]).value
                    == old(self).nodes@[j].value && final(self).nodes@[j].op
                    == old(self).nodes@[j].op,
            r is Ok <==> push_grads(
                old(self).nodes@,
                grads_of(old(self).nodes@),
                i as int,
            ) is Some,
            r is Ok ==> Some(grads_of(final(self).nodes@)) == push_grads(
                old(self).nodes@,
                grads_of(old(self).nodes@),
                i as int,
            ),
            r is Err ==> r == Err::<(), GradError>(GradError::Overflow),
    {
        let ghost nodes0 = old(self).nodes@;
        let ghost gs = grads_of(old(self).nodes@);
        proof {
            assert(node_wf(self.nodes@, i as int));
        }
        let g = self.nodes[i].grad;
        proof {
            assert(node_wf(self.nodes@, a as int));
        }
        let s1 = match rat_add(&self.nodes[a].grad, &g) {
                Ok(v) => v,
                Err(e) => {
                    proof {
                        assert(push_grads(nodes0, gs, i as int) is None);
                    }
                    return Err(e);
                },
        };
        self.set_grad(a, s1);
        proof {
            assert(node_wf(self.nodes@, b as int));
        }
        let s2 = match rat_add(&self.nodes[b].grad, &g) {
                Ok(v) => v,
                Err(e) => {
                    proof {
                        assert(push_grads(nodes0, gs, i as int) is None);
                    }
                    return Err(e);
                },
        };
        self.set_grad(b, s2);
        proof {
            assert(push_grads(nodes0, gs, i as int) == Some(grads_of(self.nodes@)));
        }
        Ok(())
    }

    #[verifier::rlimit(100)]
    #[verifier::spinoff_prover]
    fn push_neg(&mut self, i: usize, a: usize) -> (r: Result<(), GradError>)
        requires
            old(self).wf(),
            i < old(self).nodes@.len(),
            old(self).nodes@[i as int].op == Op::Neg(a),
        ensures
            final(self).wf(),
            final(self).nodes@.len() == old(self).nodes@.len(),
            forall|j: int|
                0 <= j < old(self).nodes@.len() ==> (#[trigger] final(self).nodes@[j]).value
                    == old(self).nodes@[j].value && final(self).nodes@[j].op
                    == old(self).nodes@[j].op,
            r is Ok <==> push_grads(
                old(self).nodes@,
                grads_of(old(self).nodes@),
                i as int,
            ) is Some,
            r is Ok ==> Some(grads_of(final(self).nodes@)) == push_grads(
                old(self).nodes@,
                grads_of(old(self).nodes@),
                i as int,
            ),
            r is Err ==> r == Err::<(), GradError>(GradError::Overflow),
    {
        let ghost nodes0 = old(self).nodes@;
        let ghost gs = grads_of(old(self).nodes@);
        proof {
            assert(node_wf(self.nodes@, i as int));
        }
        let g = self.nodes[i].grad;
        proof {
            assert(node_wf(self.nodes@, a as int));
        }
        let s1 = match rat_sub(&self.nodes[a].grad, &g) {
                Ok(v) => v,
                Err(e) => {
                    proof {
                        assert(push_grads(nodes0, gs, i as int) is None);
                    }
                    return Err(e);
                },
        };
        self.set_grad(a, s1);
        proof {
            assert(push_grads(nodes0, gs, i as int) == Some(grads_of(self.nodes@)));
        }
        Ok(())
    }

    #[verifier::rlimit(100)]
    #[verifier::spinoff_prover]
    fn push_mul(&mut self, i: usize, a: usize, b: usize) -> (r: Result<(), GradError>)
        requires
            old(self).wf(),
            i < old(self).nodes@.len(),
            old(self).nodes@[i as int].op == Op::Mul(a, b),
        ensures
            final(self).wf(),
            final(self).nodes@.len() == old(self).nodes@.len(),
            forall|j: int|
                0 <= j < old(self).nodes@.len() ==> (#[trigger] final(self).nodes@[j]).value
                    == old(self).nodes@[j].value && final(self).nodes@[j].op
                    == old(self).nodes@[j].op,
            r is Ok <==> push_grads(
                old(self).nodes@,
                grads_of(old(self).nodes@),
                i as int,
            ) is Some,
            r is Ok ==> Some(grads_of(final(self).nodes@)) == push_grads(
                old(self).nodes@,
                grads_of(old(self).nodes@),
                i as int,
            ),
            r is Err ==> r == Err::<(), GradError>(GradError::Overflow),
    {
        let ghost nodes0 = old(self).nodes@;
        let ghost gs = grads_of(old(self).nodes@);
        proof {
            assert(node_wf(self.nodes@, i as int));
        }
        let g = self.nodes[i].grad;
        proof {
            assert(node_wf(self.nodes@, a as int));
            assert(node_wf(self.nodes@, b as int));
        }
        let va = self.nodes[a].value;
        let vb = self.nodes[b].value;
        let t1 = match rat_mul(&g, &vb) {
                Ok(v) => v,
                Err(e) => {
                    proof {
                        assert(push_grads(nodes0, gs, i as int) is None);
                    }
                    return Err(e);
                },
        };
        let s1 = match rat_add(&self.nodes[a].grad, &t1) {
                Ok(v) => v,
                Err(e) => {
                    proof {
                        assert(push_grads(nodes0, gs, i as int) is None);
                    }
                    return Err(e);
                },
        };
        self.set_grad(a, s1);
        proof {
            assert(node_wf(self.nodes@, b as int));
        }
        let t2 = match rat_mul(&g, &va) {
                Ok(v) => v,
                Err(e) => {
                    proof {
                        assert(push_grads(nodes0, gs, i as int) is None);
                    }
                    return Err(e);
                },
        };
        let s2 = match rat_add(&self.nodes[b].grad, &t2) {
                Ok(v) => v,
                Err(e) => {
                    proof {
                        assert(push_grads(nodes0, gs, i as int) is None);
                    }
                    return Err(e);
                },
        };
        self.set_grad(b, s2);
        proof {
            assert(push_grads(nodes0, gs, i as int) == Some(grads_of(self.nodes@)));
        }
        Ok(())
    }

    #[verifier::rlimit(100)]
    #[verifier::spinoff_prover]
    fn push_div(&mut self, i: usize, a: usize, b: usize) -> (r: Result<(), GradError>)
        requires
            old(self).wf(),
            i < old(self).nodes@.len(),
            old(self).nodes@[i as int].op == Op::Div(a, b),
        ensures
            final(self).wf(),
            final(self).nodes@.len() == old(self).nodes@.len(),
            forall|j: int|
                0 <= j < old(self).nodes@.len() ==> (#[trigger] final(self).nodes@[j]).value
                    == old(self).nodes@[j].value && final(self).nodes@[j].op
                    == old(self).nodes@[j].op,
            r is Ok <==> push_grads(
                old(self).nodes@,
                grads_of(old(self).nodes@),
                i as int,
            ) is Some,
            r is Ok ==> Some(grads_of(final(self).nodes@)) == push_grads(
                old(self).nodes@,
                grads_of(old(self).nodes@),
                i as int,
            ),
            r is Err ==> r == Err::<(), GradError>(GradError::Overflow),
    {
        let ghost nodes0 = old(self).nodes@;
        let ghost gs = grads_of(old(self).nodes@);
        proof {
            assert(node_wf(self.nodes@, i as int));
        }
        let g = self.nodes[i].grad;
        proof {
            assert(node_wf(self.nodes@, a as int));
            assert(node_wf(self.nodes@, b as int));
        }
        let va = self.nodes[a].value;
        let vb = self.nodes[b].value;
        let t1 = match rat_div(&g, &vb) {
                Ok(v) => v,
                Err(e) => {
                    proof {
                        assert(push_grads(nodes0, gs, i as int) is None);
                    }
                    return Err(e);
                },
        };
        let s1 = match rat_add(&self.nodes[a].grad, &t1) {
                Ok(v) => v,
                Err(e) => {
                    proof {
                        assert(push_grads(nodes0, gs, i as int) is None);
                    }
                    return Err(e);
                },
        };
        self.set_grad(a, s1);
        proof {
            assert(node_wf(self.nodes@, b as int));
        }
        let u1 = match rat_mul(&vb, &vb) {
                Ok(v) => v,
                Err(e) => {
                    proof {
                        assert(push_grads(nodes0, gs, i as int) is None);
                    }
                    return Err(e);
                },
        };
        let u2 = match rat_div(&va, &u1) {
                Ok(v) => v,
                Err(e) => {
                    proof {
                        lemma_nonzero_mul(vb@.n, vb@.n);
                        assert(push_grads(nodes0, gs, i as int) is None);
                    }
                    return Err(e);
                },
        };
        let t2 = match rat_mul(&g, &u2) {
                Ok(v) => v,
                Err(e) => {
                    proof {
                        assert(push_grads(nodes0, gs, i as int) is None);
                    }
                    return Err(e);
                },
        };
        let s2 = match rat_sub(&self.nodes[b].grad, &t2) {
                Ok(v) => v,
                Err(e) => {
                    proof {
                        assert(push_grads(nodes0, gs, i as int) is None);
                    }
                    return Err(e);
                },
        };
        self.set_grad(b, s2);
        proof {
            lemma_nonzero_mul(vb@.n, vb@.n);
            assert(push_grads(nodes0, gs, i as int) == Some(grads_of(self.nodes@)));
        }
        Ok(())
    }

    #[verifier::rlimit(100)]
    #[verifier::spinoff_prover]
    fn push_pow(&mut self, i: usize, a: usize, e: usize) -> (r: Result<(), GradError>)
        requires
            old(self).wf(),
            i < old(self).nodes@.len(),
            old(self).nodes@[i as int].op == Op::Pow(a, e),
        ensures
            final(self).wf(),
            final(self).nodes@.len() == old(self).nodes@.len(),
            forall|j: int|
                0 <= j < old(self).nodes@.len() ==> (#[trigger] final(self).nodes@[j]).value
                    == old(self).nodes@[j].value && final(self).nodes@[j].op
                    == old(self).nodes@[j].op,
            r is Ok <==> push_grads(
                old(self).nodes@,
                grads_of(old(self).nodes@),
                i as int,
            ) is Some,
            r is Ok ==> Some(grads_of(final(self).nodes@)) == push_grads(
                old(self).nodes@,
                grads_of(old(self).nodes@),
                i as int,
            ),
            r is Err ==> r == Err::<(), GradError>(GradError::Overflow),
    {
        let ghost nodes0 = old(self).nodes@;
        let ghost gs = grads_of(old(self).nodes@);
        proof {
            assert(node_wf(self.nodes@, i as int));
        }
        let g = self.nodes[i].grad;
        proof {
            assert(node_wf(self.nodes@, a as int));
            assert(node_wf(self.nodes@, e as int));
        }
        let va = self.nodes[a].value;
        let krat = self.nodes[e].value;
        if krat.num != 0 {
            let p = match rat_pow(&va, krat.num - 1) {
                Ok(v) => v,
                Err(e) => {
                    proof {
                        assert(push_grads(nodes0, gs, i as int) is None);
                    }
                    return Err(e);
                },
            };
            let t1 = match rat_mul(&krat, &p) {
                Ok(v) => v,
                Err(e) => {
                    proof {
                        assert(push_grads(nodes0, gs, i as int) is None);
                    }
                    return Err(e);
                },
            };
            let t2 = match rat_mul(&g, &t1) {
                Ok(v) => v,
                Err(e) => {
                    proof {
                        assert(push_grads(nodes0, gs, i as int) is None);
                    }
                    return Err(e);
                },
            };
            let s1 = match rat_add(&self.nodes[a].grad, &t2) {
                Ok(v) => v,
                Err(e) => {
                    proof {
                        assert(push_grads(nodes0, gs, i as int) is None);
                    }
                    return Err(e);
                },
            };
            self.set_grad(a, s1);
            proof {
                assert(push_grads(nodes0, gs, i as int) == Some(grads_of(self.nodes@)));
            }
        } else {
            proof {
                assert(push_grads(nodes0, gs, i as int) == Some(gs));
            }
        }
        Ok(())
    }

    #[verifier::rlimit(100)]
    #[verifier::spinoff_prover]
    fn push_relu(&mut self, i: usize, a: usize) -> (r: Result<(), GradError>)
        requires
            old(self).wf(),
            i < old(self).nodes@.len(),
            old(self).nodes@[i as int].op == Op::Relu(a),
        ensures
            final(self).wf(),
            final(self).nodes@.len() == old(self).nodes@.len(),
            forall|j: int|
                0 <= j < old(self).nodes@.len() ==> (#[trigger] final(self).nodes@[j]).value
                    == old(self).nodes@[j].value && final(self).nodes@[j].op
                    == old(self).nodes@[j].op,
            r is Ok <==> push_grads(
                old(self).nodes@,
                grads_of(old(self).nodes@),
                i as int,
            ) is Some,
            r is Ok ==> Some(grads_of(final(self).nodes@)) == push_grads(
                old(self).nodes@,
                grads_of(old(self).nodes@),
                i as int,
            ),
            r is Err ==> r == Err::<(), GradError>(GradError::Overflow),
    {
        let ghost nodes0 = old(self).nodes@;
        let ghost gs = grads_of(old(self).nodes@);
        proof {
            assert(node_wf(self.nodes@, i as int));
        }
        let g = self.nodes[i].grad;
        proof {
            assert(node_wf(self.nodes@, a as int));
        }
        let v = self.nodes[i].value;
        proof {
            lemma_pos_den_sign(v@.n, v@.d);
        }
        if v.num > 0 {
            let s1 = match rat_add(&self.nodes[a].grad, &g) {
                Ok(w) => w,
                Err(e) => {
                    proof {
                        assert(push_grads(nodes0, gs, i as int) is None);
                    }
                    return Err(e);
                },
            };
            self.set_grad(a, s1);
            proof {
                assert(push_grads(nodes0, gs, i as int) == Some(grads_of(self.nodes@)));
            }
        } else {
            proof {
                assert(push_grads(nodes0, gs, i as int) == Some(gs));
            }
        }
        Ok(())
    }

    /// Apply the local derivative rule of node `i` once, accumulating into
    /// its operands' gradients: one step of the sweep.
    fn push_node(&mut self, i: usize) -> (r: Result<(), GradError>)
        requires
            old(self).wf(),
            i < old(self).nodes@.len(),
        ensures
            final(self).wf(),
            final(self).nodes@.len() == old(self).nodes@.len(),
            forall|j: int|
                0 <= j < old(self).nodes@.len() ==> (#[trigger] final(self).nodes@[j]).value
                    == old(self).nodes@[j].value && final(self).nodes@[j].op
                    == old(self).nodes@[j].op,
            r is Ok <==> push_grads(
                old(self).nodes@,
                grads_of(old(self).nodes@),
                i as int,
            ) is Some,
            r is Ok ==> Some(grads_of(final(self).nodes@)) == push_grads(
                old(self).nodes@,
                grads_of(old(self).nodes@),
                i as int,
            ),
            r is Err ==> r == Err::<(), GradError>(GradError::Overflow),
    {
        let ghost nodes0 = old(self).nodes@;
        let ghost gs = grads_of(old(self).nodes@);
        let op = self.nodes[i].op;
        match op {
            Op::Leaf => {
                proof {
                    assert(push_grads(nodes0, gs, i as int) == Some(gs));
                }
                Ok(())
            },
            Op::Add(a, b) => self.push_add(i, a, b),
            Op::Neg(a) => self.push_neg(i, a),
            Op::Mul(a, b) => self.push_mul(i, a, b),
            Op::Div(a, b) => self.push_div(i, a, b),
            Op::Pow(a, e) => self.push_pow(i, a, e),
            Op::Relu(a) => self.push_relu(i, a),
        }
    }

    /// Compute the gradient of the output node `out` with respect to every
    /// node of the graph, accumulating the results into the nodes' `grad`
    /// fields.
    ///
    /// Succeeds exactly when every exact intermediate of the sweep stays
    /// representable; the gradients are then exactly those of `sweep`.
    /// Values, operations and operands are never changed by this pass, even
    /// when it fails halfway; after a failure the gradients may hold a
    /// partial accumulation.
    #[verifier::loop_isolation(false)]
    pub fn backward(&mut self, out: usize) -> (r: Result<(), GradError>)
        requires
            old(self).wf(),
            out < old(self).nodes@.len(),
        ensures
            final(self).wf(),
            final(self).nodes@.len() == old(self).nodes@.len(),
            forall|j: int|
                0 <= j < old(self).nodes@.len() ==> (#[trigger] final(self).nodes@[j]).value
                    == old(self).nodes@[j].value && final(self).nodes@[j].op
                    == old(self).nodes@[j].op,
            r is Ok <==> sweep(
                old(self).nodes@,
                seed(grads_of(old(self).nodes@), out as int),
                out as int,
            ) is Some,
            r is Ok ==> Some(grads_of(final(self).nodes@)) == sweep(
                old(self).nodes@,
                seed(grads_of(old(self).nodes@), out as int),
                out as int,
            ),
            r is Err ==> r == Err::<(), GradError>(GradError::Overflow),
    {
        // the arena length is a machine integer, so `out + 1` cannot overflow
        let total: usize = self.nodes.len();
        assert(out < total);
        let ghost nodes0 = old(self).nodes@;
        let ghost target = sweep(nodes0, seed(grads_of(nodes0), out as int), out as int);
        self.set_grad(out, Rat::one());
        proof {
            assert(grads_of(self.nodes@) == seed(grads_of(nodes0), out as int));
        }
        let mut i: usize = out + 1;
        while i > 0
            invariant
                self.wf(),
                self.nodes@.len() == nodes0.len(),
                i <= nodes0.len(),
                forall|j: int|
                    0 <= j < nodes0.len() ==> (#[trigger] self.nodes@[j]).value == nodes0[j].value
                        && self.nodes@[j].op == nodes0[j].op,
                target == sweep(nodes0, grads_of(self.nodes@), i as int - 1),
            decreases i,
        {
            i = i - 1;
            let ghost cur = self.nodes@;
            let ghost gs = grads_of(self.nodes@);
            proof {
                assert(node_wf(cur, i as int));
                lemma_push_grads_same(cur, nodes0, gs, i as int);
            }
            match self.push_node(i) {
                Ok(u) => {
                    proof {
                        assert(target == sweep(nodes0, grads_of(self.nodes@), i as int - 1));
                    }
                },
                Err(e) => {
                    proof {
                        assert(push_grads(nodes0, gs, i as int) is None);
                        assert(target is None);
                    }
                    return Err(e);
                },
            }
        }
        proof {
            assert(target == Some(grads_of(self.nodes@)));
        }
        Ok(())
    }
}

} // verus!
