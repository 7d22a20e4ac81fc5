//! Exact rational arithmetic over `i64` numerator/denominator pairs.
//!
//! Every value keeps a strictly positive denominator.  The arithmetic
//! operations are checked: they return `None` whenever the resulting
//! numerator or denominator would leave the `i64` range.  Comparisons
//! never overflow because cross-products of two `i64`s fit in `i128`.

use vstd::prelude::*;

verus! {

/// Mathematical model of a rational number: an integer numerator over
/// an integer denominator, the denominator strictly positive for
/// well-formed values.
pub ghost struct RatModel {
    pub n: int,
    pub d: int,
}

/// A well-formed rational keeps its denominator strictly positive.
pub open spec fn rat_wf(r: RatModel) -> bool {
    r.d > 0
}

pub open spec fn rat_zero() -> RatModel {
    RatModel { n: 0, d: 1 }
}

pub open spec fn rat_one() -> RatModel {
    RatModel { n: 1, d: 1 }
}

pub open spec fn rat_mul(a: RatModel, b: RatModel) -> RatModel {
    RatModel { n: a.n * b.n, d: a.d * b.d }
}

pub open spec fn rat_add(a: RatModel, b: RatModel) -> RatModel {
    RatModel { n: a.n * b.d + b.n * a.d, d: a.d * b.d }
}

/// Exact quotient `a / b`, sign-normalized so the denominator stays
/// positive whenever `a` and `b` are well-formed and `b.n != 0`.
pub open spec fn rat_div(a: RatModel, b: RatModel) -> RatModel {
    if b.n >= 0 {
        RatModel { n: a.n * b.d, d: a.d * b.n }
    } else {
        RatModel { n: -(a.n * b.d), d: -(a.d * b.n) }
    }
}

/// `a < b`, by cross-multiplication (denominators positive).
pub open spec fn rat_lt(a: RatModel, b: RatModel) -> bool {
    a.n * b.d < b.n * a.d
}

/// `a <= b`, by cross-multiplication (denominators positive).
pub open spec fn rat_le(a: RatModel, b: RatModel) -> bool {
    a.n * b.d <= b.n * a.d
}

/// Equality as rational numbers (the representation is not unique).
pub open spec fn rat_eqv(a: RatModel, b: RatModel) -> bool {
    a.n * b.d == b.n * a.d
}

/// Whether a mathematical integer fits in `i64`.
pub open spec fn fits_i64(x: int) -> bool {
    -0x8000_0000_0000_0000 <= x && x <= 0x7fff_ffff_ffff_ffff
}

/// Checked product: the exact product when both components fit in `i64`.
pub open spec fn try_mul(a: RatModel, b: RatModel) -> Option<RatModel> {
    let r = rat_mul(a, b);
    if fits_i64(r.n) && fits_i64(r.d) {
        Some(r)
    } else {
        None
    }
}

/// Checked sum: the exact sum when both components fit in `i64`.
pub open spec fn try_add(a: RatModel, b: RatModel) -> Option<RatModel> {
    let r = rat_add(a, b);
    if fits_i64(r.n) && fits_i64(r.d) {
        Some(r)
    } else {
        None
    }
}

/// Checked quotient: the exact quotient when both components fit in `i64`.
pub open spec fn try_div(a: RatModel, b: RatModel) -> Option<RatModel> {
    let r = rat_div(a, b);
    if fits_i64(r.n) && fits_i64(r.d) {
        Some(r)
    } else {
        None
    }
}

/// An exact rational number with `i64` numerator and denominator.
#[derive(Clone, Copy, Debug)]
pub struct Rat {
    pub num: i64,
    pub den: i64,
}

impl View for Rat {
    type V = RatModel;

    open spec fn view(&self) -> RatModel {
        RatModel { n: self.num as int, d: self.den as int }
    }
}

proof fn lemma_i64_product_fits_i128(a: int, b: int)
    requires
        fits_i64(a),
        fits_i64(b),
    ensures
        i128::MIN <= a * b <= i128::MAX,
        i128::MIN <= -(a * b) <= i128::MAX,
{
    assert(-0x4000_0000_0000_0000_0000_0000_0000_0000 <= a * b
        <= 0x4000_0000_0000_0000_0000_0000_0000_0000) by (nonlinear_arith)
        requires
            fits_i64(a),
            fits_i64(b),
    ;
}

proof fn lemma_cross_products_sum_fits_i128(a: int, b: int, c: int, e: int)
    requires
        fits_i64(a),
        fits_i64(c),
        0 < b <= 0x7fff_ffff_ffff_ffff,
        0 < e <= 0x7fff_ffff_ffff_ffff,
    ensures
        i128::MIN <= a * b + c * e <= i128::MAX,
{
    assert(-0x3fff_ffff_ffff_ffff_8000_0000_0000_0000 <= a * b
        <= 0x3fff_ffff_ffff_ffff_8000_0000_0000_0000) by (nonlinear_arith)
        requires
            fits_i64(a),
            0 < b <= 0x7fff_ffff_ffff_ffff,
    ;
    assert(-0x3fff_ffff_ffff_ffff_8000_0000_0000_0000 <= c * e
        <= 0x3fff_ffff_ffff_ffff_8000_0000_0000_0000) by (nonlinear_arith)
        requires
            fits_i64(c),
            0 < e <= 0x7fff_ffff_ffff_ffff,
    ;
}

/// Nonnegative times nonnegative is nonnegative.
pub proof fn lemma_nonneg_mul_nonneg(a: int, b: int)
    requires
        a >= 0,
        b >= 0,
    ensures
        a * b >= 0,
{
    assert(a * b >= 0) by (nonlinear_arith)
        requires
            a >= 0,
            b >= 0,
    ;
}

/// Sums and products of well-formed rationals are well-formed.
pub proof fn lemma_add_wf(a: RatModel, b: RatModel)
    requires
        rat_wf(a),
        rat_wf(b),
    ensures
        rat_wf(rat_add(a, b)),
        rat_wf(rat_mul(a, b)),
{
    lemma_pos_mul_pos(a.d, b.d);
}

/// The sum of two nonnegative rationals is nonnegative.
pub proof fn lemma_add_nonneg(a: RatModel, b: RatModel)
    requires
        rat_wf(a),
        rat_wf(b),
        a.n >= 0,
        b.n >= 0,
    ensures
        rat_add(a, b).n >= 0,
{
    lemma_nonneg_mul_nonneg(a.n, b.d);
    lemma_nonneg_mul_nonneg(b.n, a.d);
}

/// Adding a nonnegative rational on the left does not decrease a value.
pub proof fn lemma_le_add_left(a: RatModel, b: RatModel)
    requires
        rat_wf(a),
        rat_wf(b),
        a.n >= 0,
    ensures
        rat_le(b, rat_add(a, b)),
{
    assert(b.n * (a.d * b.d) <= (a.n * b.d + b.n * a.d) * b.d) by (nonlinear_arith)
        requires
            a.n >= 0,
            a.d > 0,
            b.d > 0,
    ;
}

/// Adding a nonnegative rational on the right does not decrease a value.
pub proof fn lemma_le_add_right(a: RatModel, b: RatModel)
    requires
        rat_wf(a),
        rat_wf(b),
        b.n >= 0,
    ensures
        rat_le(a, rat_add(a, b)),
{
    assert(a.n * (a.d * b.d) <= (a.n * b.d + b.n * a.d) * a.d) by (nonlinear_arith)
        requires
            b.n >= 0,
            a.d > 0,
            b.d > 0,
    ;
}

/// `<=` is transitive.
pub proof fn lemma_le_trans(a: RatModel, b: RatModel, c: RatModel)
    requires
        rat_wf(a),
        rat_wf(b),
        rat_wf(c),
        rat_le(a, b),
        rat_le(b, c),
    ensures
        rat_le(a, c),
{
    assert((a.n * c.d) * b.d <= (c.n * a.d) * b.d) by (nonlinear_arith)
        requires
            a.n * b.d <= b.n * a.d,
            b.n * c.d <= c.n * b.d,
            a.d > 0,
            b.d > 0,
            c.d > 0,
    ;
    assert(a.n * c.d <= c.n * a.d) by (nonlinear_arith)
        requires
            (a.n * c.d) * b.d <= (c.n * a.d) * b.d,
            b.d > 0,
    ;
}

/// `<=` followed by `<` gives `<`.
pub proof fn lemma_le_lt_trans(a: RatModel, b: RatModel, c: RatModel)
    requires
        rat_wf(a),
        rat_wf(b),
        rat_wf(c),
        rat_le(a, b),
        rat_lt(b, c),
    ensures
        rat_lt(a, c),
{
    assert((a.n * c.d) * b.d < (c.n * a.d) * b.d) by (nonlinear_arith)
        requires
            a.n * b.d <= b.n * a.d,
            b.n * c.d < c.n * b.d,
            a.d > 0,
            b.d > 0,
            c.d > 0,
    ;
    assert(a.n * c.d < c.n * a.d) by (nonlinear_arith)
        requires
            (a.n * c.d) * b.d < (c.n * a.d) * b.d,
            b.d > 0,
    ;
}

/// Equality of rationals is transitive.
pub proof fn lemma_eqv_trans(a: RatModel, b: RatModel, c: RatModel)
    requires
        rat_wf(a),
        rat_wf(b),
        rat_wf(c),
        rat_eqv(a, b),
        rat_eqv(b, c),
    ensures
        rat_eqv(a, c),
{
    assert((a.n * c.d) * b.d == (c.n * a.d) * b.d) by (nonlinear_arith)
        requires
            a.n * b.d == b.n * a.d,
            b.n * c.d == c.n * b.d,
            a.d > 0,
            b.d > 0,
            c.d > 0,
    ;
    assert(a.n * c.d == c.n * a.d) by (nonlinear_arith)
        requires
            (a.n * c.d) * b.d == (c.n * a.d) * b.d,
            b.d > 0,
    ;
}

/// Addition respects equality of rationals in its left operand.
pub proof fn lemma_eqv_add_congr(a: RatModel, b: RatModel, c: RatModel)
    requires
        rat_wf(a),
        rat_wf(b),
        rat_wf(c),
        rat_eqv(a, b),
    ensures
        rat_eqv(rat_add(a, c), rat_add(b, c)),
{
    assert((a.n * c.d + c.n * a.d) * (b.d * c.d) == (b.n * c.d + c.n * b.d) * (a.d * c.d))
        by (nonlinear_arith)
        requires
            a.n * b.d == b.n * a.d,
            a.d > 0,
            b.d > 0,
            c.d > 0,
    ;
}

/// Division by a common positive divisor distributes over addition.
pub proof fn lemma_div_add(a: RatModel, b: RatModel, t: RatModel)
    requires
        rat_wf(a),
        rat_wf(b),
        rat_wf(t),
        t.n > 0,
    ensures
        rat_eqv(rat_add(rat_div(a, t), rat_div(b, t)), rat_div(rat_add(a, b), t)),
{
    let s = a.n * b.d + b.n * a.d;
    assert((a.n * t.d) * (b.d * t.n) == (t.d * t.n) * (a.n * b.d)) by (nonlinear_arith);
    assert((b.n * t.d) * (a.d * t.n) == (t.d * t.n) * (b.n * a.d)) by (nonlinear_arith);
    assert((t.d * t.n) * (a.n * b.d) + (t.d * t.n) * (b.n * a.d) == (t.d * t.n) * s)
        by (nonlinear_arith)
        requires
            s == a.n * b.d + b.n * a.d,
    ;
    assert(((t.d * t.n) * s) * ((a.d * b.d) * t.n) == (s * t.d) * ((a.d * t.n) * (b.d * t.n)))
        by (nonlinear_arith)
    ;
}

/// A positive rational divided by itself equals one.
pub proof fn lemma_div_self(t: RatModel)
    requires
        rat_wf(t),
        t.n > 0,
    ensures
        rat_eqv(rat_div(t, t), rat_one()),
        rat_wf(rat_div(t, t)),
{
    lemma_pos_mul_pos(t.d, t.n);
    assert((t.n * t.d) * 1 == 1 * (t.d * t.n)) by (nonlinear_arith);
}

/// Positive times positive is positive (used for denominators).
pub proof fn lemma_pos_mul_pos(a: int, b: int)
    requires
        a > 0,
        b > 0,
    ensures
        a * b > 0,
{
    assert(a * b > 0) by (nonlinear_arith)
        requires
            a > 0,
            b > 0,
    ;
}

impl Rat {
    /// The denominator is strictly positive.
    pub open spec fn wf(&self) -> bool {
        rat_wf(self@)
    }

    /// Builds `num / den`; the denominator must be strictly positive.
    pub fn new(num: i64, den: i64) -> (r: Rat)
        requires
            den > 0,
        ensures
            r@ == (RatModel { n: num as int, d: den as int }),
            r.wf(),
    {
        Rat { num, den }
    }

    pub fn zero() -> (r: Rat)
        ensures
            r@ == rat_zero(),
            r.wf(),
    {
        Rat { num: 0, den: 1 }
    }

    pub fn one() -> (r: Rat)
        ensures
            r@ == rat_one(),
            r.wf(),
    {
        Rat { num: 1, den: 1 }
    }

    /// The integer `n` as a rational.
    pub fn from_int(n: i64) -> (r: Rat)
        ensures
            r@ == (RatModel { n: n as int, d: 1 }),
            r.wf(),
    {
        Rat { num: n, den: 1 }
    }

    /// Exact product, or `None` if a component leaves the `i64` range.
    pub fn checked_mul(&self, other: &Rat) -> (r: Option<Rat>)
        requires
            self.wf(),
            other.wf(),
        ensures
            r is Some <==> try_mul(self@, other@) is Some,
            r is Some ==> r->0@ == rat_mul(self@, other@) && r->0.wf(),
    {
        proof {
            lemma_i64_product_fits_i128(self@.n, other@.n);
            lemma_i64_product_fits_i128(self@.d, other@.d);
            lemma_pos_mul_pos(self@.d, other@.d);
        }
        let n: i128 = (self.num as i128) * (other.num as i128);
        let d: i128 = (self.den as i128) * (other.den as i128);
        if n < i64::MIN as i128 || n > i64::MAX as i128 || d > i64::MAX as i128 {
            None
        } else {
            Some(Rat { num: n as i64, den: d as i64 })
        }
    }

    /// Exact sum, or `None` if a component leaves the `i64` range.
    pub fn checked_add(&self, other: &Rat) -> (r: Option<Rat>)
        requires
            self.wf(),
            other.wf(),
        ensures
            r is Some <==> try_add(self@, other@) is Some,
            r is Some ==> r->0@ == rat_add(self@, other@) && r->0.wf(),
    {
        proof {
            lemma_i64_product_fits_i128(self@.n, other@.d);
            lemma_i64_product_fits_i128(other@.n, self@.d);
            lemma_cross_products_sum_fits_i128(self@.n, other@.d, other@.n, self@.d);
            lemma_i64_product_fits_i128(self@.d, other@.d);
            lemma_pos_mul_pos(self@.d, other@.d);
        }
        let n: i128 = (self.num as i128) * (other.den as i128)
            + (other.num as i128) * (self.den as i128);
        let d: i128 = (self.den as i128) * (other.den as i128);
        if n < i64::MIN as i128 || n > i64::MAX as i128 || d > i64::MAX as i128 {
            None
        } else {
            Some(Rat { num: n as i64, den: d as i64 })
        }
    }

    /// Exact quotient, or `None` if a component leaves the `i64` range.
    /// The divisor must be a nonzero rational.
    pub fn checked_div(&self, other: &Rat) -> (r: Option<Rat>)
        requires
            self.wf(),
            other.wf(),
            other@.n != 0,
        ensures
            r is Some <==> try_div(self@, other@) is Some,
            r is Some ==> r->0@ == rat_div(self@, other@) && r->0.wf(),
    {
        proof {
            lemma_i64_product_fits_i128(self@.n, other@.d);
            lemma_i64_product_fits_i128(self@.d, other@.n);
            if other@.n > 0 {
                lemma_pos_mul_pos(self@.d, other@.n);
            } else {
                lemma_pos_mul_pos(self@.d, -other@.n);
                assert(self@.d * -other@.n == -(self@.d * other@.n)) by (nonlinear_arith);
            }
        }
        let n0: i128 = (self.num as i128) * (other.den as i128);
        let d0: i128 = (self.den as i128) * (other.num as i128);
        let n: i128 = if other.num > 0 { n0 } else { -n0 };
        let d: i128 = if other.num > 0 { d0 } else { -d0 };
        if n < i64::MIN as i128 || n > i64::MAX as i128 || d > i64::MAX as i128 {
            None
        } else {
            Some(Rat { num: n as i64, den: d as i64 })
        }
    }

    /// Strict comparison `self < other`; never overflows.
    pub fn lt(&self, other: &Rat) -> (r: bool)
        requires
            self.wf(),
            other.wf(),
        ensures
            r == rat_lt(self@, other@),
    {
        proof {
            lemma_i64_product_fits_i128(self@.n, other@.d);
            lemma_i64_product_fits_i128(other@.n, self@.d);
        }
        (self.num as i128) * (other.den as i128) < (other.num as i128) * (self.den as i128)
    }

    /// Comparison `self <= other`; never overflows.
    pub fn le(&self, other: &Rat) -> (r: bool)
        requires
            self.wf(),
            other.wf(),
        ensures
            r == rat_le(self@, other@),
    {
        proof {
            lemma_i64_product_fits_i128(self@.n, other@.d);
            lemma_i64_product_fits_i128(other@.n, self@.d);
        }
        (self.num as i128) * (other.den as i128) <= (other.num as i128) * (self.den as i128)
    }

    /// Equality as rational numbers, regardless of representation.
    pub fn equiv(&self, other: &Rat) -> (r: bool)
        requires
            self.wf(),
            other.wf(),
        ensures
            r == rat_eqv(self@, other@),
    {
        proof {
            lemma_i64_product_fits_i128(self@.n, other@.d);
            lemma_i64_product_fits_i128(other@.n, self@.d);
        }
        (self.num as i128) * (other.den as i128) == (other.num as i128) * (self.den as i128)
    }

    /// Whether the value is strictly positive.
    pub fn is_positive(&self) -> (r: bool)
        requires
            self.wf(),
        ensures
            r == rat_lt(rat_zero(), self@),
    {
        self.num > 0
    }
}

} // verus!
