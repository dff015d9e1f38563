//! Exact rational scalars.
//!
//! A `Rat` is a fraction of two machine integers with a positive denominator.
//! Fractions are not reduced; two `Rat`s denote the same rational number when
//! they cross-multiply equally (`q_eq`).  Every arithmetic operation states
//! its result against `Q`, the unbounded mathematical rational, and reports
//! an overflow instead of producing a wrong value.

use vstd::prelude::*;

verus! {

/// An error raised by graph construction or by the backward pass.
///
/// These are the only failure modes: a cyclic graph, or a node with the
/// wrong operand count for its operation, cannot be constructed in the
/// first place (see `graph`), so no error variants exist for them.
#[derive(Clone, Copy, PartialEq, Eq, Structural, Debug)]
pub enum GradError {
    /// A divisor (or the base of a negative power) was zero.
    DivisionByZero,
    /// An exact numerator or denominator left the `i64` range.
    Overflow,
}

/// A mathematical rational, used only in specifications: `n / d`.
pub ghost struct Q {
    pub n: int,
    pub d: int,
}

pub open spec fn in_i64(x: int) -> bool {
    i64::MIN <= x <= i64::MAX
}

/// Both components of `x` fit into an `i64`, so `x` is representable as a `Rat`.
pub open spec fn q_fits(x: Q) -> bool {
    in_i64(x.n) && in_i64(x.d)
}

pub open spec fn q_zero() -> Q {
    Q { n: 0, d: 1 }
}

pub open spec fn q_one() -> Q {
    Q { n: 1, d: 1 }
}

pub open spec fn q_int(i: int) -> Q {
    Q { n: i, d: 1 }
}

/// `x` and `y` denote the same rational number (valid whenever both
/// denominators are nonzero).
pub open spec fn q_eq(x: Q, y: Q) -> bool {
    x.n * y.d == y.n * x.d
}

/// `x` denotes a strictly positive rational number.
pub open spec fn q_pos(x: Q) -> bool {
    x.n * x.d > 0
}

pub open spec fn q_add(x: Q, y: Q) -> Q {
    Q { n: x.n * y.d + y.n * x.d, d: x.d * y.d }
}

pub open spec fn q_sub(x: Q, y: Q) -> Q {
    Q { n: x.n * y.d - y.n * x.d, d: x.d * y.d }
}

pub open spec fn q_neg(x: Q) -> Q {
    Q { n: -x.n, d: x.d }
}

pub open spec fn q_mul(x: Q, y: Q) -> Q {
    Q { n: x.n * y.n, d: x.d * y.d }
}

/// Division keeps the denominator positive by moving the divisor's sign into
/// the numerator.
pub open spec fn q_div(x: Q, y: Q) -> Q {
    if y.n < 0 {
        Q { n: -(x.n * y.d), d: -(x.d * y.n) }
    } else {
        Q { n: x.n * y.d, d: x.d * y.n }
    }
}

/// `x` when it is strictly positive, zero otherwise (the kink at zero
/// counts as inactive).
pub open spec fn q_relu(x: Q) -> Q {
    if q_pos(x) {
        x
    } else {
        q_zero()
    }
}

/// The reciprocal, with the sign moved into the numerator.
pub open spec fn q_inv(x: Q) -> Q {
    if x.n < 0 {
        Q { n: -x.d, d: -x.n }
    } else {
        Q { n: x.d, d: x.n }
    }
}

/// `x` raised to a nonnegative integer power, one factor at a time.
pub open spec fn q_pow_n(x: Q, m: nat) -> Q
    decreases m,
{
    if m == 0 {
        q_one()
    } else {
        q_mul(q_pow_n(x, (m - 1) as nat), x)
    }
}

/// `x` raised to any integer power; a negative power is the reciprocal of the
/// positive one.
pub open spec fn q_pow(x: Q, k: int) -> Q {
    if k >= 0 {
        q_pow_n(x, k as nat)
    } else {
        q_inv(q_pow_n(x, (-k) as nat))
    }
}

/// Every intermediate power `x^1 .. x^m` is representable: exactly the
/// condition under which the iterated exec multiplication succeeds.
pub open spec fn q_pow_steps_fit(x: Q, m: nat) -> bool
    decreases m,
{
    if m == 0 {
        true
    } else {
        q_pow_steps_fit(x, (m - 1) as nat) && q_fits(q_pow_n(x, m))
    }
}

pub open spec fn nat_abs(k: int) -> nat {
    if k >= 0 {
        k as nat
    } else {
        (-k) as nat
    }
}

/// An exact rational scalar: `num / den` with `den > 0` (see `Rat::wf`).
#[derive(Clone, Copy, PartialEq, Eq, Structural, Debug)]
pub struct Rat {
    pub num: i64,
    pub den: i64,
}

impl View for Rat {
    type V = Q;

    open spec fn view(&self) -> Q {
        Q { n: self.num as int, d: self.den as int }
    }
}

impl Rat {
    /// Well-formedness: the denominator is strictly positive.
    pub open spec fn wf(self) -> bool {
        self.den > 0
    }
}

/// The unique representable `Rat` denoting a fitting `Q` verbatim.
pub open spec fn rat_of(x: Q) -> Rat {
    Rat { num: x.n as i64, den: x.d as i64 }
}

pub open spec fn rat_zero() -> Rat {
    Rat { num: 0, den: 1 }
}

pub open spec fn rat_one() -> Rat {
    Rat { num: 1, den: 1 }
}

proof fn lemma_mul_i64_bound(a: int, b: int)
    by (nonlinear_arith)
    requires
        -0x8000_0000_0000_0000 <= a <= 0x7FFF_FFFF_FFFF_FFFF,
        -0x8000_0000_0000_0000 <= b <= 0x7FFF_FFFF_FFFF_FFFF,
    ensures
        -0x4000_0000_0000_0000_0000_0000_0000_0000 <= a * b
            <= 0x4000_0000_0000_0000_0000_0000_0000_0000,
{
}

proof fn lemma_mul_i64_pos_bound(a: int, b: int)
    by (nonlinear_arith)
    requires
        -0x8000_0000_0000_0000 <= a <= 0x7FFF_FFFF_FFFF_FFFF,
        1 <= b <= 0x7FFF_FFFF_FFFF_FFFF,
    ensures
        -0x3FFF_FFFF_FFFF_FFFF_8000_0000_0000_0000 <= a * b
            <= 0x3FFF_FFFF_FFFF_FFFF_8000_0000_0000_0000,
{
}

proof fn lemma_pos_mul_pos(a: int, b: int)
    by (nonlinear_arith)
    requires
        a >= 1,
        b >= 1,
    ensures
        a * b >= 1,
{
}

proof fn lemma_pos_mul_neg(a: int, b: int)
    by (nonlinear_arith)
    requires
        a >= 1,
        b <= -1,
    ensures
        a * b <= -1,
{
}

pub proof fn lemma_nonzero_mul(a: int, b: int)
    by (nonlinear_arith)
    requires
        a != 0,
        b != 0,
    ensures
        a * b != 0,
{
}

/// With a positive denominator, the sign of a rational is the sign of its
/// numerator.
pub proof fn lemma_pos_den_sign(n: int, d: int)
    by (nonlinear_arith)
    requires
        d >= 1,
    ensures
        (n * d > 0) <==> (n > 0),
{
}

/// A nonzero base has nonzero powers.
pub proof fn lemma_pow_n_nonzero(x: Q, m: nat)
    requires
        x.n != 0,
    ensures
        q_pow_n(x, m).n != 0,
    decreases m,
{
    if m > 0 {
        lemma_pow_n_nonzero(x, (m - 1) as nat);
        lemma_nonzero_mul(q_pow_n(x, (m - 1) as nat).n, x.n);
    }
}

/// If every power up to `m` is representable, so is every power up to `i <= m`.
pub proof fn lemma_pow_steps_fit_prefix(x: Q, m: nat, i: nat)
    requires
        q_pow_steps_fit(x, m),
        i <= m,
    ensures
        q_pow_steps_fit(x, i),
    decreases m,
{
    if i < m {
        lemma_pow_steps_fit_prefix(x, (m - 1) as nat, i);
    }
}

impl Rat {
    /// The rational `num / den`.  `None` when `den` is zero, or when a negative
    /// `den` cannot be sign-normalized within `i64`.
    pub fn new(num: i64, den: i64) -> (r: Option<Rat>)
        ensures
            den == 0 ==> r is None,
            den > 0 ==> r == Some(Rat { num, den }),
            den < 0 && (num == i64::MIN || den == i64::MIN) ==> r is None,
            den < 0 && num != i64::MIN && den != i64::MIN ==> r == Some(
                (Rat { num: (-num) as i64, den: (-den) as i64 }),
            ),
            r matches Some(v) ==> v.wf(),
    {
        if den > 0 {
            Some(Rat { num, den })
        } else if den == 0 || num == i64::MIN || den == i64::MIN {
            None
        } else {
            Some(Rat { num: -num, den: -den })
        }
    }

    /// The integer `i` as a rational.
    pub fn from_int(i: i64) -> (r: Rat)
        ensures
            r@ == q_int(i as int),
            r.wf(),
            r == (Rat { num: i, den: 1 }),
    {
        Rat { num: i, den: 1 }
    }

    pub fn zero() -> (r: Rat)
        ensures
            r == rat_zero(),
            r@ == q_zero(),
            r.wf(),
    {
        Rat { num: 0, den: 1 }
    }

    pub fn one() -> (r: Rat)
        ensures
            r == rat_one(),
            r@ == q_one(),
            r.wf(),
    {
        Rat { num: 1, den: 1 }
    }

    /// Semantic equality: `self` and `other` denote the same rational number,
    /// even when their representations differ.
    pub fn eqv(&self, other: &Rat) -> (r: bool)
        requires
            self.wf(),
            other.wf(),
        ensures
            r == q_eq(self@, other@),
    {
        proof {
            lemma_mul_i64_pos_bound(self.num as int, other.den as int);
            lemma_mul_i64_pos_bound(other.num as int, self.den as int);
        }
        (self.num as i128) * (other.den as i128) == (other.num as i128) * (self.den as i128)
    }
}

/// Exact addition; `Err(Overflow)` exactly when the unreduced result leaves
/// the `i64` range.
pub fn rat_add(a: &Rat, b: &Rat) -> (r: Result<Rat, GradError>)
    requires
        a.wf(),
        b.wf(),
    ensures
        r is Ok <==> q_fits(q_add(a@, b@)),
        r matches Ok(v) ==> v@ == q_add(a@, b@) && v.wf(),
        r is Err ==> r == Err::<Rat, GradError>(GradError::Overflow),
{
    proof {
        lemma_mul_i64_pos_bound(a.num as int, b.den as int);
        lemma_mul_i64_pos_bound(b.num as int, a.den as int);
        lemma_mul_i64_pos_bound(a.den as int, b.den as int);
        lemma_pos_mul_pos(a.den as int, b.den as int);
    }
    let n: i128 = (a.num as i128) * (b.den as i128) + (b.num as i128) * (a.den as i128);
    let d: i128 = (a.den as i128) * (b.den as i128);
    if n < (i64::MIN as i128) || n > (i64::MAX as i128) || d > (i64::MAX as i128) {
        Err(GradError::Overflow)
    } else {
        Ok(Rat { num: n as i64, den: d as i64 })
    }
}

/// Exact subtraction; `Err(Overflow)` exactly when the unreduced result leaves
/// the `i64` range.
pub fn rat_sub(a: &Rat, b: &Rat) -> (r: Result<Rat, GradError>)
    requires
        a.wf(),
        b.wf(),
    ensures
        r is Ok <==> q_fits(q_sub(a@, b@)),
        r matches Ok(v) ==> v@ == q_sub(a@, b@) && v.wf(),
        r is Err ==> r == Err::<Rat, GradError>(GradError::Overflow),
{
    proof {
        lemma_mul_i64_pos_bound(a.num as int, b.den as int);
        lemma_mul_i64_pos_bound(b.num as int, a.den as int);
        lemma_mul_i64_pos_bound(a.den as int, b.den as int);
        lemma_pos_mul_pos(a.den as int, b.den as int);
    }
    let n: i128 = (a.num as i128) * (b.den as i128) - (b.num as i128) * (a.den as i128);
    let d: i128 = (a.den as i128) * (b.den as i128);
    if n < (i64::MIN as i128) || n > (i64::MAX as i128) || d > (i64::MAX as i128) {
        Err(GradError::Overflow)
    } else {
        Ok(Rat { num: n as i64, den: d as i64 })
    }
}

/// Exact negation; overflows only for the one unrepresentable numerator.
pub fn rat_neg(a: &Rat) -> (r: Result<Rat, GradError>)
    requires
        a.wf(),
    ensures
        r is Ok <==> q_fits(q_neg(a@)),
        r matches Ok(v) ==> v@ == q_neg(a@) && v.wf(),
        r is Err ==> r == Err::<Rat, GradError>(GradError::Overflow),
{
    if a.num == i64::MIN {
        Err(GradError::Overflow)
    } else {
        Ok(Rat { num: -a.num, den: a.den })
    }
}

/// Exact multiplication; `Err(Overflow)` exactly when the unreduced result
/// leaves the `i64` range.
pub fn rat_mul(a: &Rat, b: &Rat) -> (r: Result<Rat, GradError>)
    requires
        a.wf(),
        b.wf(),
    ensures
        r is Ok <==> q_fits(q_mul(a@, b@)),
        r matches Ok(v) ==> v@ == q_mul(a@, b@) && v.wf(),
        r is Err ==> r == Err::<Rat, GradError>(GradError::Overflow),
{
    proof {
        lemma_mul_i64_bound(a.num as int, b.num as int);
        lemma_mul_i64_pos_bound(a.den as int, b.den as int);
        lemma_pos_mul_pos(a.den as int, b.den as int);
    }
    let n: i128 = (a.num as i128) * (b.num as i128);
    let d: i128 = (a.den as i128) * (b.den as i128);
    if n < (i64::MIN as i128) || n > (i64::MAX as i128) || d > (i64::MAX as i128) {
        Err(GradError::Overflow)
    } else {
        Ok(Rat { num: n as i64, den: d as i64 })
    }
}

/// Exact division.  `Err(DivisionByZero)` exactly when `b` is zero; otherwise
/// `Err(Overflow)` exactly when the unreduced result leaves the `i64` range.
pub fn rat_div(a: &Rat, b: &Rat) -> (r: Result<Rat, GradError>)
    requires
        a.wf(),
        b.wf(),
    ensures
        b@.n == 0 ==> r == Err::<Rat, GradError>(GradError::DivisionByZero),
        b@.n != 0 ==> (r is Ok <==> q_fits(q_div(a@, b@))),
        r matches Ok(v) ==> v@ == q_div(a@, b@) && v.wf(),
        b@.n != 0 && r is Err ==> r == Err::<Rat, GradError>(GradError::Overflow),
{
    if b.num == 0 {
        return Err(GradError::DivisionByZero);
    }
    proof {
        lemma_mul_i64_pos_bound(a.num as int, b.den as int);
        lemma_mul_i64_bound(a.den as int, b.num as int);
        if b.num >= 1 {
            lemma_pos_mul_pos(a.den as int, b.num as int);
        } else {
            lemma_pos_mul_neg(a.den as int, b.num as int);
        }
    }
    let mut n: i128 = (a.num as i128) * (b.den as i128);
    let mut d: i128 = (a.den as i128) * (b.num as i128);
    if b.num < 0 {
        n = -n;
        d = -d;
    }
    if n < (i64::MIN as i128) || n > (i64::MAX as i128) || d > (i64::MAX as i128) {
        Err(GradError::Overflow)
    } else {
        Ok(Rat { num: n as i64, den: d as i64 })
    }
}

/// Rectification: `a` when it is strictly positive, zero otherwise.  Always
/// representable, so it cannot fail.
pub fn rat_relu(a: &Rat) -> (r: Rat)
    requires
        a.wf(),
    ensures
        r@ == q_relu(a@),
        r.wf(),
{
    proof {
        lemma_pos_den_sign(a.num as int, a.den as int);
    }
    if a.num > 0 {
        *a
    } else {
        Rat::zero()
    }
}


/// Exact integer power.  A negative power of zero is `DivisionByZero`; any
/// unrepresentable intermediate power is `Overflow`.
pub fn rat_pow(a: &Rat, k: i64) -> (r: Result<Rat, GradError>)
    requires
        a.wf(),
    ensures
        k < 0 && a@.n == 0 ==> r == Err::<Rat, GradError>(GradError::DivisionByZero),
        !(k < 0 && a@.n == 0) ==> (r is Ok <==> q_pow_steps_fit(a@, nat_abs(k as int)) && q_fits(
            q_pow(a@, k as int),
        )),
        r matches Ok(v) ==> v@ == q_pow(a@, k as int) && v.wf(),
        !(k < 0 && a@.n == 0) && r is Err ==> r == Err::<Rat, GradError>(GradError::Overflow),
{
    if k < 0 && a.num == 0 {
        return Err(GradError::DivisionByZero);
    }
    let mut acc = Rat::one();
    if k >= 0 {
        let mut j: i64 = 0;
        while j < k
            invariant
                0 <= j <= k,
                a.wf(),
                acc.wf(),
                acc@ == q_pow_n(a@, j as nat),
                q_pow_steps_fit(a@, j as nat),
            decreases k - j,
        {
            let stepped = rat_mul(&acc, a);
            match stepped {
                Ok(v) => {
                    acc = v;
                },
                Err(e) => {
                    proof {
                        if q_pow_steps_fit(a@, nat_abs(k as int)) {
                            lemma_pow_steps_fit_prefix(a@, nat_abs(k as int), (j + 1) as nat);
                        }
                    }
                    return Err(e);
                },
            }
            j = j + 1;
        }
        proof {
            if !q_fits(q_pow(a@, k as int)) {
                assert(in_i64(acc@.n) && in_i64(acc@.d));
            }
        }
        Ok(acc)
    } else {
        let mut j: i64 = 0;
        while j > k
            invariant
                k <= j <= 0,
                a.wf(),
                acc.wf(),
                a.num != 0,
                acc@ == q_pow_n(a@, nat_abs(j as int)),
                q_pow_steps_fit(a@, nat_abs(j as int)),
            decreases j - k,
        {
            let stepped = rat_mul(&acc, a);
            match stepped {
                Ok(v) => {
                    acc = v;
                },
                Err(e) => {
                    proof {
                        if q_pow_steps_fit(a@, nat_abs(k as int)) {
                            lemma_pow_steps_fit_prefix(a@, nat_abs(k as int), (-(j as int) + 1) as nat);
                        }
                    }
                    return Err(e);
                },
            }
            j = j - 1;
        }
        proof {
            lemma_pow_n_nonzero(a@, nat_abs(k as int));
        }
        if acc.num > 0 {
            Ok(Rat { num: acc.den, den: acc.num })
        } else if acc.num == i64::MIN {
            Err(GradError::Overflow)
        } else {
            Ok(Rat { num: -acc.den, den: -acc.num })
        }
    }
}

} // verus!
