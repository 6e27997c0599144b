//! Exact rational arithmetic over machine integers.
//!
//! The engine works over the rationals rather than over floating point, so
//! every scheme formula can be stated and proved exactly. A `Rat` keeps a
//! numerator and a positive denominator; fractions are not reduced, so each
//! executable operation returns exactly the fraction its mathematical
//! counterpart denotes, or `None` when that fraction leaves the machine
//! range. Equality of values is cross-multiplication equality (`rv_eq`).

use vstd::prelude::*;

verus! {

/// Mathematical model of a rational: an unbounded numerator and denominator.
pub ghost struct Rv {
    pub n: int,
    pub d: int,
}

/// A well-formed model has a positive denominator.
pub open spec fn rv_wf(x: Rv) -> bool {
    x.d > 0
}

/// The fraction fits the machine representation (denominator positive, and
/// both components within the symmetric `i64` range).
pub open spec fn rv_fits(x: Rv) -> bool {
    &&& -(i64::MAX as int) <= x.n <= i64::MAX as int
    &&& 0 < x.d <= i64::MAX as int
}

pub open spec fn rv_int(i: int) -> Rv {
    Rv { n: i, d: 1 }
}

pub open spec fn rv_add(a: Rv, b: Rv) -> Rv {
    Rv { n: a.n * b.d + b.n * a.d, d: a.d * b.d }
}

pub open spec fn rv_sub(a: Rv, b: Rv) -> Rv {
    Rv { n: a.n * b.d - b.n * a.d, d: a.d * b.d }
}

pub open spec fn rv_mul(a: Rv, b: Rv) -> Rv {
    Rv { n: a.n * b.n, d: a.d * b.d }
}

pub open spec fn rv_neg(a: Rv) -> Rv {
    Rv { n: -a.n, d: a.d }
}

pub open spec fn rv_abs(a: Rv) -> Rv {
    Rv { n: if a.n < 0 { -a.n } else { a.n }, d: a.d }
}

/// Exact division; the quotient keeps a positive denominator. Total as a
/// spec function; division by a zero value is never reached by the
/// executable code.
pub open spec fn rv_div(a: Rv, b: Rv) -> Rv {
    if b.n > 0 {
        Rv { n: a.n * b.d, d: a.d * b.n }
    } else if b.n < 0 {
        Rv { n: -(a.n * b.d), d: a.d * -b.n }
    } else {
        rv_int(0)
    }
}

/// Value equality of fractions with positive denominators.
pub open spec fn rv_eq(a: Rv, b: Rv) -> bool {
    a.n * b.d == b.n * a.d
}

/// Value order of fractions with positive denominators.
pub open spec fn rv_le(a: Rv, b: Rv) -> bool {
    a.n * b.d <= b.n * a.d
}

pub open spec fn rv_lt(a: Rv, b: Rv) -> bool {
    a.n * b.d < b.n * a.d
}

proof fn lemma_prod_range(x: int, y: int, m: int)
    requires
        -m <= x <= m,
        -m <= y <= m,
        0 <= m,
    ensures
        -(m * m) <= x * y <= m * m,
{
    broadcast use vstd::arithmetic::mul::group_mul_properties;

    if x >= 0 {
        if y >= 0 {
            assert(x * y <= m * m) by (nonlinear_arith)
                requires 0 <= x <= m && 0 <= y <= m;
            assert(x * y >= 0) by (nonlinear_arith)
                requires 0 <= x && 0 <= y;
        } else {
            assert(x * y >= -(m * m)) by (nonlinear_arith)
                requires 0 <= x <= m && -m <= y <= 0;
            assert(x * y <= 0) by (nonlinear_arith)
                requires 0 <= x && y <= 0;
        }
    } else {
        if y >= 0 {
            assert(x * y >= -(m * m)) by (nonlinear_arith)
                requires -m <= x <= 0 && 0 <= y <= m;
            assert(x * y <= 0) by (nonlinear_arith)
                requires x <= 0 && 0 <= y;
        } else {
            assert(x * y <= m * m) by (nonlinear_arith)
                requires -m <= x <= 0 && -m <= y <= 0;
            assert(x * y >= 0) by (nonlinear_arith)
                requires x <= 0 && y <= 0;
        }
    }
}

proof fn lemma_pos_prod(x: int, y: int)
    requires
        x > 0,
        y > 0,
    ensures
        x * y > 0,
        x * y >= x,
        x * y >= y,
{
    assert(x * y > 0 && x * y >= x && x * y >= y) by (nonlinear_arith)
        requires x > 0 && y > 0;
}

/// Value equality is transitive over well-formed fractions.
pub proof fn lemma_rv_eq_trans(a: Rv, b: Rv, c: Rv)
    requires
        rv_wf(a),
        rv_wf(b),
        rv_wf(c),
        rv_eq(a, b),
        rv_eq(b, c),
    ensures
        rv_eq(a, c),
{
    assert(a.n * c.d == c.n * a.d) by (nonlinear_arith)
        requires
            a.n * b.d == b.n * a.d,
            b.n * c.d == c.n * b.d,
            b.d > 0;
}

/// The arithmetic operations keep denominators positive.
pub proof fn lemma_rv_ops_wf(a: Rv, b: Rv)
    requires
        rv_wf(a),
        rv_wf(b),
    ensures
        rv_wf(rv_add(a, b)),
        rv_wf(rv_sub(a, b)),
        rv_wf(rv_mul(a, b)),
        rv_wf(rv_neg(a)),
        rv_wf(rv_abs(a)),
        rv_wf(rv_div(a, b)),
{
    lemma_pos_prod(a.d, b.d);
    if b.n > 0 {
        lemma_pos_prod(a.d, b.n);
    } else if b.n < 0 {
        lemma_pos_prod(a.d, -b.n);
    }
}

/// Reassociations of a product of four factors.
pub proof fn lemma_mul4(w: int, x: int, y: int, z: int)
    ensures
        (w * x) * (y * z) == (w * y) * (x * z),
        (w * x) * (y * z) == (w * z) * (x * y),
{
    assert((w * x) * (y * z) == (w * y) * (x * z) && (w * x) * (y * z) == (w * z) * (x * y))
        by (nonlinear_arith);
}

/// Multiplication distributes over sums and differences.
pub proof fn lemma_distr(p: int, q: int, z: int)
    ensures
        (p + q) * z == p * z + q * z,
        (p - q) * z == p * z - q * z,
{
    assert((p + q) * z == p * z + q * z && (p - q) * z == p * z - q * z) by (nonlinear_arith);
}

/// Addition respects value equality.
pub proof fn lemma_rv_add_congr(a: Rv, b: Rv, c: Rv, d: Rv)
    requires
        rv_wf(a),
        rv_wf(b),
        rv_wf(c),
        rv_wf(d),
        rv_eq(a, c),
        rv_eq(b, d),
    ensures
        rv_eq(rv_add(a, b), rv_add(c, d)),
{
    lemma_distr(a.n * b.d, b.n * a.d, c.d * d.d);
    lemma_mul4(a.n, b.d, c.d, d.d);
    lemma_mul4(b.n, a.d, c.d, d.d);
    lemma_mul4(c.n, a.d, b.d, d.d);
    lemma_mul4(d.n, b.d, a.d, c.d);
    lemma_distr(c.n * d.d, d.n * c.d, a.d * b.d);
    assert((a.n * c.d) * (b.d * d.d) == (c.n * a.d) * (b.d * d.d));
    assert((b.n * d.d) * (a.d * c.d) == (d.n * b.d) * (a.d * c.d));
}

/// Subtraction respects value equality.
pub proof fn lemma_rv_sub_congr(a: Rv, b: Rv, c: Rv, d: Rv)
    requires
        rv_wf(a),
        rv_wf(b),
        rv_wf(c),
        rv_wf(d),
        rv_eq(a, c),
        rv_eq(b, d),
    ensures
        rv_eq(rv_sub(a, b), rv_sub(c, d)),
{
    lemma_distr(a.n * b.d, b.n * a.d, c.d * d.d);
    lemma_mul4(a.n, b.d, c.d, d.d);
    lemma_mul4(b.n, a.d, c.d, d.d);
    lemma_mul4(c.n, a.d, b.d, d.d);
    lemma_mul4(d.n, b.d, a.d, c.d);
    lemma_distr(c.n * d.d, d.n * c.d, a.d * b.d);
    assert((a.n * c.d) * (b.d * d.d) == (c.n * a.d) * (b.d * d.d));
    assert((b.n * d.d) * (a.d * c.d) == (d.n * b.d) * (a.d * c.d));
}

/// Multiplication respects value equality.
pub proof fn lemma_rv_mul_congr(a: Rv, b: Rv, c: Rv, d: Rv)
    requires
        rv_wf(a),
        rv_wf(b),
        rv_wf(c),
        rv_wf(d),
        rv_eq(a, c),
        rv_eq(b, d),
    ensures
        rv_eq(rv_mul(a, b), rv_mul(c, d)),
{
    assert((a.n * b.n) * (c.d * d.d) == (c.n * d.n) * (a.d * b.d)) by (nonlinear_arith)
        requires
            a.n * c.d == c.n * a.d,
            b.n * d.d == d.n * b.d;
}

/// An exact machine rational: numerator `n`, denominator `d`, with the
/// invariant (`wf`) that `d` is positive and `n` is above `i64::MIN`, so
/// negation and absolute value never overflow.
#[derive(Clone, Copy, Debug)]
pub struct Rat {
    n: i64,
    d: i64,
}

impl View for Rat {
    type V = Rv;

    closed spec fn view(&self) -> Rv {
        Rv { n: self.n as int, d: self.d as int }
    }
}

impl Rat {
    pub open spec fn wf(self) -> bool {
        &&& self@.d > 0
        &&& self@.n > i64::MIN as int
    }

    /// The fraction `n / d`.
    pub fn new(n: i64, d: i64) -> (r: Rat)
        requires
            d > 0,
            n > i64::MIN,
        ensures
            r@ == (Rv { n: n as int, d: d as int }),
            r.wf(),
    {
        Rat { n, d }
    }

    /// The integer `i` as a rational.
    pub fn from_int(i: i64) -> (r: Rat)
        requires
            i > i64::MIN,
        ensures
            r@ == rv_int(i as int),
            r.wf(),
    {
        Rat { n: i, d: 1 }
    }

    pub fn num(&self) -> (r: i64)
        ensures
            r as int == self@.n,
    {
        self.n
    }

    pub fn den(&self) -> (r: i64)
        ensures
            r as int == self@.d,
    {
        self.d
    }

    /// Whether the value is exactly zero.
    pub fn is_zero(&self) -> (r: bool)
        ensures
            r == (self@.n == 0),
    {
        self.n == 0
    }

    fn pack(n: i128, d: i128) -> (r: Option<Rat>)
        requires
            d > 0,
        ensures
            r is Some <==> rv_fits(Rv { n: n as int, d: d as int }),
            r matches Some(c) ==> c@ == (Rv { n: n as int, d: d as int }) && c.wf(),
    {
        let max: i128 = i64::MAX as i128;
        if -max <= n && n <= max && d <= max {
            Some(Rat { n: n as i64, d: d as i64 })
        } else {
            None
        }
    }

    /// Exact sum, or `None` when it leaves the machine range.
    pub fn checked_add(self, other: Rat) -> (r: Option<Rat>)
        requires
            self.wf(),
            other.wf(),
        ensures
            r is Some <==> rv_fits(rv_add(self@, other@)),
            r matches Some(c) ==> c@ == rv_add(self@, other@) && c.wf(),
    {
        proof {
            lemma_prod_range(self@.n, other@.d, i64::MAX as int);
            lemma_prod_range(other@.n, self@.d, i64::MAX as int);
            lemma_pos_prod(self@.d, other@.d);
            lemma_prod_range(self@.d, other@.d, i64::MAX as int);
        }
        let n: i128 = (self.n as i128) * (other.d as i128) + (other.n as i128) * (self.d as i128);
        let d: i128 = (self.d as i128) * (other.d as i128);
        Rat::pack(n, d)
    }

    /// Exact difference, or `None` when it leaves the machine range.
    pub fn checked_sub(self, other: Rat) -> (r: Option<Rat>)
        requires
            self.wf(),
            other.wf(),
        ensures
            r is Some <==> rv_fits(rv_sub(self@, other@)),
            r matches Some(c) ==> c@ == rv_sub(self@, other@) && c.wf(),
    {
        proof {
            lemma_prod_range(self@.n, other@.d, i64::MAX as int);
            lemma_prod_range(other@.n, self@.d, i64::MAX as int);
            lemma_pos_prod(self@.d, other@.d);
            lemma_prod_range(self@.d, other@.d, i64::MAX as int);
        }
        let n: i128 = (self.n as i128) * (other.d as i128) - (other.n as i128) * (self.d as i128);
        let d: i128 = (self.d as i128) * (other.d as i128);
        Rat::pack(n, d)
    }

    /// Exact product, or `None` when it leaves the machine range.
    pub fn checked_mul(self, other: Rat) -> (r: Option<Rat>)
        requires
            self.wf(),
            other.wf(),
        ensures
            r is Some <==> rv_fits(rv_mul(self@, other@)),
            r matches Some(c) ==> c@ == rv_mul(self@, other@) && c.wf(),
    {
        proof {
            lemma_prod_range(self@.n, other@.n, i64::MAX as int);
            lemma_pos_prod(self@.d, other@.d);
            lemma_prod_range(self@.d, other@.d, i64::MAX as int);
        }
        let n: i128 = (self.n as i128) * (other.n as i128);
        let d: i128 = (self.d as i128) * (other.d as i128);
        Rat::pack(n, d)
    }

    /// Exact quotient, or `None` when it leaves the machine range. The
    /// divisor must not be zero.
    pub fn checked_div(self, other: Rat) -> (r: Option<Rat>)
        requires
            self.wf(),
            other.wf(),
            other@.n != 0,
        ensures
            r is Some <==> rv_fits(rv_div(self@, other@)),
            r matches Some(c) ==> c@ == rv_div(self@, other@) && c.wf(),
    {
        proof {
            lemma_prod_range(self@.n, other@.d, i64::MAX as int);
            lemma_prod_range(self@.d, other@.n, i64::MAX as int);
            if other@.n > 0 {
                lemma_pos_prod(self@.d, other@.n);
            } else {
                lemma_pos_prod(self@.d, -other@.n);
                lemma_prod_range(self@.d, -other@.n, i64::MAX as int);
            }
        }
        let n0: i128 = (self.n as i128) * (other.d as i128);
        if other.n > 0 {
            let d: i128 = (self.d as i128) * (other.n as i128);
            Rat::pack(n0, d)
        } else {
            let d: i128 = (self.d as i128) * (-(other.n as i128));
            Rat::pack(-n0, d)
        }
    }

    /// Exact negation; never overflows on a well-formed value.
    pub fn neg(self) -> (r: Rat)
        requires
            self.wf(),
        ensures
            r@ == rv_neg(self@),
            r.wf(),
    {
        Rat { n: -self.n, d: self.d }
    }

    /// Exact absolute value; never overflows on a well-formed value.
    pub fn abs(self) -> (r: Rat)
        requires
            self.wf(),
        ensures
            r@ == rv_abs(self@),
            r.wf(),
    {
        if self.n < 0 {
            Rat { n: -self.n, d: self.d }
        } else {
            self
        }
    }

    /// Value comparison `self <= other`.
    pub fn le(&self, other: &Rat) -> (r: bool)
        requires
            self.wf(),
            other.wf(),
        ensures
            r == rv_le(self@, other@),
    {
        proof {
            lemma_prod_range(self@.n, other@.d, i64::MAX as int);
            lemma_prod_range(other@.n, self@.d, i64::MAX as int);
        }
        (self.n as i128) * (other.d as i128) <= (other.n as i128) * (self.d as i128)
    }

    /// Value comparison `self < other`.
    pub fn lt(&self, other: &Rat) -> (r: bool)
        requires
            self.wf(),
            other.wf(),
        ensures
            r == rv_lt(self@, other@),
    {
        proof {
            lemma_prod_range(self@.n, other@.d, i64::MAX as int);
            lemma_prod_range(other@.n, self@.d, i64::MAX as int);
        }
        (self.n as i128) * (other.d as i128) < (other.n as i128) * (self.d as i128)
    }
}

impl PartialEq for Rat {
    /// Value equality: `4/2 == 2/1`.
    fn eq(&self, other: &Rat) -> (r: bool) {
        proof {
            lemma_prod_range(self@.n, other@.d, i64::MAX as int + 1);
            lemma_prod_range(other@.n, self@.d, i64::MAX as int + 1);
        }
        (self.n as i128) * (other.d as i128) == (other.n as i128) * (self.d as i128)
    }
}

impl Eq for Rat {}

impl vstd::std_specs::cmp::PartialEqSpecImpl for Rat {
    open spec fn obeys_eq_spec() -> bool {
        true
    }

    open spec fn eq_spec(&self, other: &Rat) -> bool {
        rv_eq(self@, other@)
    }
}

} // verus!
