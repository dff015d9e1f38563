//! The computation graph: an arena of nodes indexed by handles.
//!
//! Each node holds a forward value, an accumulated gradient, and the
//! operation that produced it together with the handles of its operands.
//! Every operand handle points strictly below the node itself, so the graph
//! is acyclic by construction: neither a cyclic graph nor a node with the
//! wrong operand count for its operation can ever be built, and the backward
//! pass needs no runtime check for either.
//!
//! Forward values are computed eagerly by the constructors.  A division by
//! zero is rejected with `GradError::DivisionByZero` (exact rationals have no
//! infinities to propagate), and a result whose exact numerator or
//! denominator leaves the `i64` range is rejected with `GradError::Overflow`;
//! a rejected constructor leaves the graph unchanged.

use vstd::prelude::*;

use crate::rational::GradError;
use crate::rational::Q;
use crate::rational::Rat;
use crate::rational::nat_abs;
use crate::rational::q_add;
use crate::rational::q_div;
use crate::rational::q_fits;
use crate::rational::q_int;
use crate::rational::q_mul;
use crate::rational::q_neg;
use crate::rational::q_pow;
use crate::rational::q_pow_steps_fit;
use crate::rational::q_relu;
use crate::rational::rat_add;
use crate::rational::rat_div;
use crate::rational::rat_mul;
use crate::rational::rat_neg;
use crate::rational::rat_of;
use crate::rational::rat_pow;
use crate::rational::rat_relu;
use crate::rational::rat_zero;

verus! {

/// The operation that produced a node, with the handles of its operands.
///
/// A `Pow` node's second operand is a leaf holding the constant integer
/// exponent; it never receives a gradient.
#[derive(Clone, Copy, PartialEq, Eq, Structural, Debug)]
pub enum Op {
    /// An input constant or variable; no operands.
    Leaf,
    Add(usize, usize),
    Neg(usize),
    Mul(usize, usize),
    Div(usize, usize),
    Pow(usize, usize),
    Relu(usize),
}

/// One scalar quantity in the computation.
///
/// Equality on nodes is structural: value, gradient and provenance
/// (operation with operand handles) must all agree representation for
/// representation.  Value-level equality of two scalars, independent of
/// their representation, is `Rat::eqv`.
#[derive(Clone, Copy, PartialEq, Eq, Structural, Debug)]
pub struct Node {
    /// The forward-computed scalar, immutable once constructed.
    pub value: Rat,
    /// Accumulator for the partial derivative of the output with respect to
    /// this node; starts at zero and is written only by the backward pass.
    pub grad: Rat,
    /// How this node was produced.
    pub op: Op,
}

/// Every operand handle of a node at position `i` points strictly below `i`.
pub open spec fn operands_below(op: Op, i: int) -> bool {
    match op {
        Op::Leaf => true,
        Op::Add(a, b) => a < i && b < i,
        Op::Neg(a) => a < i,
        Op::Mul(a, b) => a < i && b < i,
        Op::Div(a, b) => a < i && b < i,
        Op::Pow(a, e) => a < i && e < i,
        Op::Relu(a) => a < i,
    }
}

/// The side conditions a `Pow` or `Div` node puts on the arena that holds
/// its operands: a `Div` node's divisor is nonzero, and a `Pow` node's
/// exponent operand is a leaf holding a plain integer (above `i64::MIN`),
/// negative only when the base is nonzero.
pub open spec fn op_side_conditions(nodes: Seq<Node>, op: Op) -> bool {
    match op {
        Op::Pow(a, e) => {
            &&& nodes[e as int].op == Op::Leaf
            &&& nodes[e as int].value@.d == 1
            &&& nodes[e as int].value@.n > i64::MIN
            &&& (nodes[e as int].value@.n < 0 ==> nodes[a as int].value@.n != 0)
        },
        Op::Div(a, b) => nodes[b as int].value@.n != 0,
        _ => true,
    }
}

/// Well-formedness of the node at position `i`:
/// - its value and gradient are well-formed rationals;
/// - its operands lie strictly below it (the graph is a DAG);
/// - a `Div` node's divisor is nonzero;
/// - a `Pow` node's exponent operand is a leaf holding a plain integer, and a
///   negative exponent comes with a nonzero base.
pub open spec fn node_wf(nodes: Seq<Node>, i: int) -> bool {
    &&& nodes[i].value.wf()
    &&& nodes[i].grad.wf()
    &&& operands_below(nodes[i].op, i)
    &&& op_side_conditions(nodes, nodes[i].op)
}

pub open spec fn graph_wf(nodes: Seq<Node>) -> bool {
    forall|i: int| 0 <= i < nodes.len() ==> #[trigger] node_wf(nodes, i)
}

/// The node a constructor appends: the given value, a zero gradient, and the
/// given provenance.
pub open spec fn fresh_node(value: Q, op: Op) -> Node {
    Node { value: rat_of(value), grad: rat_zero(), op }
}

/// A computation graph, exclusively owned by the caller that builds it.
pub struct Graph {
    pub nodes: Vec<Node>,
}

/// Appending a node whose operands lie inside the old arena preserves
/// well-formedness.
proof fn lemma_wf_push(s: Seq<Node>, n: Node)
    requires
        graph_wf(s),
        n.value.wf(),
        n.grad.wf(),
        operands_below(n.op, s.len() as int),
        op_side_conditions(s, n.op),
    ensures
        graph_wf(s.push(n)),
{
    let s2 = s.push(n);
    assert forall|i: int| 0 <= i < s2.len() implies node_wf(s2, i) by {
        if i < s.len() {
            assert(node_wf(s, i));
            assert(s2[i] == s[i]);
            match s[i].op {
                Op::Pow(a, e) => {
                    assert(s2[e as int] == s[e as int]);
                    assert(s2[a as int] == s[a as int]);
                },
                Op::Div(a, b) => {
                    assert(s2[b as int] == s[b as int]);
                },
                _ => {},
            }
        } else {
            assert(s2[i] == n);
            match n.op {
                Op::Pow(a, e) => {
                    assert(s2[e as int] == s[e as int]);
                    assert(s2[a as int] == s[a as int]);
                },
                Op::Div(a, b) => {
                    assert(s2[b as int] == s[b as int]);
                },
                _ => {},
            }
        }
    }
}

impl Graph {
    /// The arena as a whole is well-formed.
    pub open spec fn wf(self) -> bool {
        graph_wf(self.nodes@)
    }

    /// The forward value of node `i`, as a mathematical rational.
    pub open spec fn val(self, i: int) -> Q {
        self.nodes@[i].value@
    }

    pub fn new() -> (g: Graph)
        ensures
            g.wf(),
            g.nodes@.len() == 0,
    {
        Graph { nodes: Vec::new() }
    }

    pub fn len(&self) -> (n: usize)
        ensures
            n == self.nodes@.len(),
    {
        self.nodes.len()
    }

    /// The forward value of node `i`.
    pub fn value(&self, i: usize) -> (v: Rat)
        requires
            i < self.nodes@.len(),
        ensures
            v == self.nodes@[i as int].value,
    {
        self.nodes[i].value
    }

    /// The gradient accumulated at node `i`.
    pub fn gradient(&self, i: usize) -> (v: Rat)
        requires
            i < self.nodes@.len(),
        ensures
            v == self.nodes@[i as int].grad,
    {
        self.nodes[i].grad
    }

    /// A new input node holding the constant `v`.  Never fails.
    pub fn leaf(&mut self, v: Rat) -> (id: usize)
        requires
            old(self).wf(),
            v.wf(),
        ensures
            final(self).wf(),
            id == old(self).nodes@.len(),
            final(self).nodes@ == old(self).nodes@.push(fresh_node(v@, Op::Leaf)),
    {
        let id: usize = self.nodes.len();
        let n = Node { value: v, grad: Rat::zero(), op: Op::Leaf };
        proof {
            lemma_wf_push(self.nodes@, n);
        }
        self.nodes.push(n);
        id
    }

    /// A new node holding the exact sum of nodes `a` and `b`.
    pub fn add(&mut self, a: usize, b: usize) -> (r: Result<usize, GradError>)
        requires
            old(self).wf(),
            a < old(self).nodes@.len(),
            b < old(self).nodes@.len(),
        ensures
            final(self).wf(),
            ({
                let va = old(self).val(a as int);
                let vb = old(self).val(b as int);
                match r {
                    Ok(id) => {
                        &&& id == old(self).nodes@.len()
                        &&& q_fits(q_add(va, vb))
                        &&& final(self).nodes@ == old(self).nodes@.push(
                            fresh_node(q_add(va, vb), Op::Add(a, b)),
                        )
                    },
                    Err(e) => {
                        &&& e == GradError::Overflow
                        &&& !q_fits(q_add(va, vb))
                        &&& final(self).nodes@ == old(self).nodes@
                    },
                }
            }),
    {
        proof {
            assert(node_wf(self.nodes@, a as int));
            assert(node_wf(self.nodes@, b as int));
        }
        let va = self.nodes[a].value;
        let vb = self.nodes[b].value;
        match rat_add(&va, &vb) {
            Ok(v) => {
                let id: usize = self.nodes.len();
                let n = Node { value: v, grad: Rat::zero(), op: Op::Add(a, b) };
                proof {
                    lemma_wf_push(self.nodes@, n);
                }
                self.nodes.push(n);
                Ok(id)
            },
            Err(e) => Err(e),
        }
    }

    /// A new node holding the exact negation of node `a`.
    pub fn neg(&mut self, a: usize) -> (r: Result<usize, GradError>)
        requires
            old(self).wf(),
            a < old(self).nodes@.len(),
        ensures
            final(self).wf(),
            ({
                let va = old(self).val(a as int);
                match r {
                    Ok(id) => {
                        &&& id == old(self).nodes@.len()
                        &&& q_fits(q_neg(va))
                        &&& final(self).nodes@ == old(self).nodes@.push(
                            fresh_node(q_neg(va), Op::Neg(a)),
                        )
                    },
                    Err(e) => {
                        &&& e == GradError::Overflow
                        &&& !q_fits(q_neg(va))
                        &&& final(self).nodes@ == old(self).nodes@
                    },
                }
            }),
    {
        proof {
            assert(node_wf(self.nodes@, a as int));
        }
        let va = self.nodes[a].value;
        match rat_neg(&va) {
            Ok(v) => {
                let id: usize = self.nodes.len();
                let n = Node { value: v, grad: Rat::zero(), op: Op::Neg(a) };
                proof {
                    lemma_wf_push(self.nodes@, n);
                }
                self.nodes.push(n);
                Ok(id)
            },
            Err(e) => Err(e),
        }
    }

    /// Subtraction, derived as `a + (-b)`: appends a negation node for `b`
    /// and then a sum node, so the gradient flows through both.
    pub fn sub(&mut self, a: usize, b: usize) -> (r: Result<usize, GradError>)
        requires
            old(self).wf(),
            a < old(self).nodes@.len(),
            b < old(self).nodes@.len(),
        ensures
            final(self).wf(),
            ({
                let va = old(self).val(a as int);
                let vb = old(self).val(b as int);
                let mid = old(self).nodes@.len();
                match r {
                    Ok(id) => {
                        &&& id == mid + 1
                        &&& q_fits(q_neg(vb))
                        &&& q_fits(q_add(va, q_neg(vb)))
                        &&& final(self).nodes@ == old(self).nodes@.push(
                            fresh_node(q_neg(vb), Op::Neg(b)),
                        ).push(fresh_node(q_add(va, q_neg(vb)), Op::Add(a, mid as usize)))
                    },
                    Err(e) => {
                        &&& e == GradError::Overflow
                        &&& !(q_fits(q_neg(vb)) && q_fits(q_add(va, q_neg(vb))))
                        &&& final(self).nodes@ == old(self).nodes@
                    },
                }
            }),
    {
        proof {
            assert(node_wf(self.nodes@, a as int));
            assert(node_wf(self.nodes@, b as int));
        }
        let va = self.nodes[a].value;
        let vb = self.nodes[b].value;
        let nv = match rat_neg(&vb) {
            Ok(v) => v,
            Err(e) => {
                return Err(e);
            },
        };
        let sv = match rat_add(&va, &nv) {
            Ok(v) => v,
            Err(e) => {
                return Err(e);
            },
        };
        let mid: usize = self.nodes.len();
        let n1 = Node { value: nv, grad: Rat::zero(), op: Op::Neg(b) };
        proof {
            lemma_wf_push(self.nodes@, n1);
        }
        self.nodes.push(n1);
        let n2 = Node { value: sv, grad: Rat::zero(), op: Op::Add(a, mid) };
        proof {
            lemma_wf_push(self.nodes@, n2);
        }
        self.nodes.push(n2);
        let id: usize = self.nodes.len() - 1;
        Ok(id)
    }

    /// A new node holding the exact product of nodes `a` and `b`.
    pub fn mul(&mut self, a: usize, b: usize) -> (r: Result<usize, GradError>)
        requires
            old(self).wf(),
            a < old(self).nodes@.len(),
            b < old(self).nodes@.len(),
        ensures
            final(self).wf(),
            ({
                let va = old(self).val(a as int);
                let vb = old(self).val(b as int);
                match r {
                    Ok(id) => {
                        &&& id == old(self).nodes@.len()
                        &&& q_fits(q_mul(va, vb))
                        &&& final(self).nodes@ == old(self).nodes@.push(
                            fresh_node(q_mul(va, vb), Op::Mul(a, b)),
                        )
                    },
                    Err(e) => {
                        &&& e == GradError::Overflow
                        &&& !q_fits(q_mul(va, vb))
                        &&& final(self).nodes@ == old(self).nodes@
                    },
                }
            }),
    {
        proof {
            assert(node_wf(self.nodes@, a as int));
            assert(node_wf(self.nodes@, b as int));
        }
        let va = self.nodes[a].value;
        let vb = self.nodes[b].value;
        match rat_mul(&va, &vb) {
            Ok(v) => {
                let id: usize = self.nodes.len();
                let n = Node { value: v, grad: Rat::zero(), op: Op::Mul(a, b) };
                proof {
                    lemma_wf_push(self.nodes@, n);
                }
                self.nodes.push(n);
                Ok(id)
            },
            Err(e) => Err(e),
        }
    }

    /// A new node holding the exact quotient of nodes `a` and `b`.
    /// Division by a zero-valued node is rejected with `DivisionByZero`.
    pub fn div(&mut self, a: usize, b: usize) -> (r: Result<usize, GradError>)
        requires
            old(self).wf(),
            a < old(self).nodes@.len(),
            b < old(self).nodes@.len(),
        ensures
            final(self).wf(),
            ({
                let va = old(self).val(a as int);
                let vb = old(self).val(b as int);
                match r {
                    Ok(id) => {
                        &&& id == old(self).nodes@.len()
                        &&& vb.n != 0
                        &&& q_fits(q_div(va, vb))
                        &&& final(self).nodes@ == old(self).nodes@.push(
                            fresh_node(q_div(va, vb), Op::Div(a, b)),
                        )
                    },
                    Err(e) => {
                        &&& final(self).nodes@ == old(self).nodes@
                        &&& (e == GradError::DivisionByZero <==> vb.n == 0)
                        &&& (e == GradError::Overflow ==> vb.n != 0 && !q_fits(q_div(va, vb)))
                    },
                }
            }),
    {
        proof {
            assert(node_wf(self.nodes@, a as int));
            assert(node_wf(self.nodes@, b as int));
        }
        let va = self.nodes[a].value;
        let vb = self.nodes[b].value;
        match rat_div(&va, &vb) {
            Ok(v) => {
                let id: usize = self.nodes.len();
                let n = Node { value: v, grad: Rat::zero(), op: Op::Div(a, b) };
                proof {
                    lemma_wf_push(self.nodes@, n);
                }
                self.nodes.push(n);
                Ok(id)
            },
            Err(e) => Err(e),
        }
    }

    /// A pair of new nodes for `a` raised to the constant integer exponent
    /// `k`: first a leaf holding the exponent, then the power node that owns
    /// both.  A negative power of a zero-valued node is rejected with
    /// `DivisionByZero`.  (`k` must exceed `i64::MIN` so that `k - 1` exists
    /// during the backward pass.)
    pub fn pow(&mut self, a: usize, k: i64) -> (r: Result<usize, GradError>)
        requires
            old(self).wf(),
            a < old(self).nodes@.len(),
            k > i64::MIN,
        ensures
            final(self).wf(),
            ({
                let va = old(self).val(a as int);
                let mid = old(self).nodes@.len();
                match r {
                    Ok(id) => {
                        &&& id == mid + 1
                        &&& !(k < 0 && va.n == 0)
                        &&& q_pow_steps_fit(va, nat_abs(k as int))
                        &&& q_fits(q_pow(va, k as int))
                        &&& final(self).nodes@ == old(self).nodes@.push(
                            fresh_node(q_int(k as int), Op::Leaf),
                        ).push(fresh_node(q_pow(va, k as int), Op::Pow(a, mid as usize)))
                    },
                    Err(e) => {
                        &&& final(self).nodes@ == old(self).nodes@
                        &&& (e == GradError::DivisionByZero <==> k < 0 && va.n == 0)
                        &&& (e == GradError::Overflow ==> !(k < 0 && va.n == 0) && !(
                        q_pow_steps_fit(va, nat_abs(k as int)) && q_fits(q_pow(va, k as int))))
                    },
                }
            }),
    {
        proof {
            assert(node_wf(self.nodes@, a as int));
        }
        let va = self.nodes[a].value;
        let pv = match rat_pow(&va, k) {
            Ok(v) => v,
            Err(e) => {
                return Err(e);
            },
        };
        let mid: usize = self.nodes.len();
        let n1 = Node { value: Rat::from_int(k), grad: Rat::zero(), op: Op::Leaf };
        proof {
            lemma_wf_push(self.nodes@, n1);
        }
        self.nodes.push(n1);
        let n2 = Node { value: pv, grad: Rat::zero(), op: Op::Pow(a, mid) };
        proof {
            lemma_wf_push(self.nodes@, n2);
        }
        self.nodes.push(n2);
        let id: usize = self.nodes.len() - 1;
        Ok(id)
    }

    /// A new node holding `max(0, value of a)`; the kink at exactly zero
    /// counts as the inactive branch.  Never fails: the result is either the
    /// operand's value or zero, both representable.
    pub fn relu(&mut self, a: usize) -> (id: usize)
        requires
            old(self).wf(),
            a < old(self).nodes@.len(),
        ensures
            final(self).wf(),
            id == old(self).nodes@.len(),
            final(self).nodes@ == old(self).nodes@.push(
                fresh_node(q_relu(old(self).val(a as int)), Op::Relu(a)),
            ),
    {
        proof {
            assert(node_wf(self.nodes@, a as int));
        }
        let va = self.nodes[a].value;
        let v = rat_relu(&va);
        let id: usize = self.nodes.len();
        let n = Node { value: v, grad: Rat::zero(), op: Op::Relu(a) };
        proof {
            lemma_wf_push(self.nodes@, n);
        }
        self.nodes.push(n);
        id
    }
}

} // verus!
