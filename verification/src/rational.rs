//! Exact rational arithmetic for musical timing.
//!
//! Beats, seconds and pixel coordinates are fractions of 64-bit integers.
//! Fractions are not kept reduced; two values denote the same rational when
//! they are cross-multiplication equal (`rat_eq`). All operations compute the
//! exact unreduced result, so every conversion in the library is exact.

use vstd::prelude::*;

verus! {

/// A rational number `num / den`. Well-formed values keep `den > 0`.
///
/// Derived `==` is structural (same numerator and denominator); use
/// [`Rat::eq_val`] to compare two values as rationals.
#[derive(Clone, Copy, Debug, PartialEq, Eq, Structural)]
pub struct Rat {
    num: i64,
    den: i64,
}

impl View for Rat {
    type V = (int, int);

    closed spec fn view(&self) -> (int, int) {
        (self.num as int, self.den as int)
    }
}

/// A mathematical rational, as an unreduced pair: well-formed when the
/// denominator is positive.
pub open spec fn rat_wf(a: (int, int)) -> bool {
    a.1 > 0
}

/// The pair can be stored in a `Rat` (both components fit in `i64`).
pub open spec fn rat_fits(a: (int, int)) -> bool {
    -0x8000_0000_0000_0000 <= a.0 <= 0x7fff_ffff_ffff_ffff
        && 1 <= a.1 <= 0x7fff_ffff_ffff_ffff
}

/// `a` and `b` denote the same rational (cross-multiplication equality;
/// a genuine equivalence when both denominators are positive).
pub open spec fn rat_eq(a: (int, int), b: (int, int)) -> bool {
    a.0 * b.1 == b.0 * a.1
}

/// `a <= b` as rationals (meaningful when both denominators are positive).
pub open spec fn rat_le(a: (int, int), b: (int, int)) -> bool {
    a.0 * b.1 <= b.0 * a.1
}

/// `a < b` as rationals (meaningful when both denominators are positive).
pub open spec fn rat_lt(a: (int, int), b: (int, int)) -> bool {
    a.0 * b.1 < b.0 * a.1
}

/// Exact sum of two rationals.
pub open spec fn rat_add(a: (int, int), b: (int, int)) -> (int, int) {
    (a.0 * b.1 + b.0 * a.1, a.1 * b.1)
}

/// Exact difference of two rationals.
pub open spec fn rat_sub(a: (int, int), b: (int, int)) -> (int, int) {
    (a.0 * b.1 - b.0 * a.1, a.1 * b.1)
}

/// Exact product of two rationals.
pub open spec fn rat_mul(a: (int, int), b: (int, int)) -> (int, int) {
    (a.0 * b.0, a.1 * b.1)
}

/// Exact quotient of two rationals (well-formed when `b.0 > 0`).
pub open spec fn rat_div(a: (int, int), b: (int, int)) -> (int, int) {
    (a.0 * b.1, a.1 * b.0)
}

/// The rational zero.
pub open spec fn rat_zero() -> (int, int) {
    (0, 1)
}

/// `<` on rationals is transitive.
pub proof fn lemma_rat_lt_trans(a: (int, int), b: (int, int), c: (int, int)) by (nonlinear_arith)
    requires
        rat_wf(a),
        rat_wf(b),
        rat_wf(c),
        rat_lt(a, b),
        rat_lt(b, c),
    ensures
        rat_lt(a, c),
{
}

/// `<=` on rationals is transitive, and mixes with `<`.
pub proof fn lemma_rat_le_lt_trans(a: (int, int), b: (int, int), c: (int, int)) by (nonlinear_arith)
    requires
        rat_wf(a),
        rat_wf(b),
        rat_wf(c),
        rat_le(a, b),
        rat_lt(b, c),
    ensures
        rat_lt(a, c),
{
}

/// Sums, differences and products of well-formed rationals are well-formed.
pub proof fn lemma_rat_ops_wf(a: (int, int), b: (int, int)) by (nonlinear_arith)
    requires
        rat_wf(a),
        rat_wf(b),
    ensures
        rat_wf(rat_add(a, b)),
        rat_wf(rat_sub(a, b)),
        rat_wf(rat_mul(a, b)),
{
}

/// A quotient by a positive rational is well-formed.
pub proof fn lemma_rat_div_wf(a: (int, int), b: (int, int)) by (nonlinear_arith)
    requires
        rat_wf(a),
        rat_wf(b),
        b.0 > 0,
    ensures
        rat_wf(rat_div(a, b)),
{
}

/// Value equality of rationals is transitive (through a well-formed middle).
pub proof fn lemma_rat_eq_trans(a: (int, int), b: (int, int), c: (int, int)) by (nonlinear_arith)
    requires
        rat_wf(b),
        rat_eq(a, b),
        rat_eq(b, c),
    ensures
        rat_eq(a, c),
{
}

/// Adding equal values to the same value gives equal values.
pub proof fn lemma_add_congr_right(a: (int, int), u: (int, int), v: (int, int)) by (nonlinear_arith)
    requires
        rat_eq(u, v),
    ensures
        rat_eq(rat_add(a, u), rat_add(a, v)),
{
}

/// `(c + s) - c` has the value of `s`.
pub proof fn lemma_sub_from_add(c: (int, int), s: (int, int)) by (nonlinear_arith)
    ensures
        rat_eq(rat_sub(rat_add(c, s), c), s),
{
}

/// `x + (y - x)` has the value of `y`.
pub proof fn lemma_add_sub_complement(x: (int, int), y: (int, int)) by (nonlinear_arith)
    ensures
        rat_eq(rat_add(x, rat_sub(y, x)), y),
{
}

/// Multiplying and dividing by the same value cancel, in either order.
pub proof fn lemma_div_mul_cancel(x: (int, int), c: (int, int)) by (nonlinear_arith)
    ensures
        rat_eq(rat_mul(rat_div(x, c), c), x),
        rat_eq(rat_div(rat_mul(x, c), c), x),
{
}

/// Multiplying or dividing equal values by the same value gives equal values.
pub proof fn lemma_mul_congr_left(u: (int, int), v: (int, int), c: (int, int)) by (nonlinear_arith)
    requires
        rat_eq(u, v),
    ensures
        rat_eq(rat_mul(u, c), rat_mul(v, c)),
        rat_eq(rat_div(u, c), rat_div(v, c)),
{
}

/// Adding the same value on the left preserves a strict order.
pub proof fn lemma_add_lt_mono(c: (int, int), u: (int, int), v: (int, int)) by (nonlinear_arith)
    requires
        rat_wf(c),
        rat_lt(u, v),
    ensures
        rat_lt(rat_add(c, u), rat_add(c, v)),
{
}

/// Adding a nonnegative value does not decrease a value.
pub proof fn lemma_add_le_mono(c: (int, int), s: (int, int)) by (nonlinear_arith)
    requires
        rat_wf(c),
        rat_le(rat_zero(), s),
    ensures
        rat_le(c, rat_add(c, s)),
{
}

/// Adding a strictly positive value strictly increases a value.
pub proof fn lemma_add_pos(c: (int, int), s: (int, int)) by (nonlinear_arith)
    requires
        rat_wf(c),
        rat_lt(rat_zero(), s),
    ensures
        rat_lt(c, rat_add(c, s)),
{
}

/// A sum of nonnegative values is nonnegative.
pub proof fn lemma_add_nonneg(c: (int, int), s: (int, int)) by (nonlinear_arith)
    requires
        rat_wf(c),
        rat_wf(s),
        rat_le(rat_zero(), c),
        rat_le(rat_zero(), s),
    ensures
        rat_le(rat_zero(), rat_add(c, s)),
{
}

/// Subtracting the same value preserves a strict order.
pub proof fn lemma_sub_lt_mono(x: (int, int), y: (int, int), c: (int, int)) by (nonlinear_arith)
    requires
        rat_wf(c),
        rat_lt(x, y),
    ensures
        rat_lt(rat_sub(x, c), rat_sub(y, c)),
{
}

/// Multiplying or dividing by the same positive value preserves a strict
/// order.
pub proof fn lemma_mul_pos_lt_mono(u: (int, int), v: (int, int), c: (int, int)) by (nonlinear_arith)
    requires
        rat_lt(u, v),
        c.0 > 0,
        c.1 > 0,
    ensures
        rat_lt(rat_mul(u, c), rat_mul(v, c)),
        rat_lt(rat_div(u, c), rat_div(v, c)),
{
}

/// Multiplication of rationals is associative, by value.
pub proof fn lemma_mul_assoc(a: (int, int), b: (int, int), c: (int, int)) by (nonlinear_arith)
    ensures
        rat_eq(rat_mul(rat_mul(a, b), c), rat_mul(a, rat_mul(b, c))),
{
}

/// Bound on a product from bounds on its factors.
proof fn lemma_mul_bounds(a: int, b: int, abound: int, bbound: int) by (nonlinear_arith)
    requires
        -abound <= a <= abound,
        -bbound <= b <= bbound,
        0 <= abound,
        0 <= bbound,
    ensures
        -(abound * bbound) <= a * b <= abound * bbound,
{
}

/// Any product of two `i64` values lies well inside `i128`.
proof fn lemma_i64_product_in_i128(a: int, b: int)
    requires
        -0x8000_0000_0000_0000 <= a <= 0x7fff_ffff_ffff_ffff,
        -0x8000_0000_0000_0000 <= b <= 0x7fff_ffff_ffff_ffff,
    ensures
        -0x4000_0000_0000_0000_0000_0000_0000_0000
            <= a * b <= 0x4000_0000_0000_0000_0000_0000_0000_0000,
{
    lemma_mul_bounds(a, b, 0x8000_0000_0000_0000, 0x8000_0000_0000_0000);
}

impl Rat {
    /// The value is well-formed: its denominator is positive.
    pub open spec fn wf(self) -> bool {
        rat_wf(self@)
    }

    /// Build the rational `num / den`.
    pub fn new(num: i64, den: i64) -> (r: Rat)
        requires
            den > 0,
        ensures
            r@ == (num as int, den as int),
            r.wf(),
    {
        Rat { num, den }
    }

    /// Build the integer rational `n / 1`.
    pub fn from_int(n: i64) -> (r: Rat)
        ensures
            r@ == (n as int, 1int),
            r.wf(),
    {
        Rat { num: n, den: 1 }
    }

    /// The rational zero.
    pub fn zero() -> (r: Rat)
        ensures
            r@ == rat_zero(),
            r.wf(),
    {
        Rat { num: 0, den: 1 }
    }

    /// Exact sum. The unreduced result must fit in 64 bits.
    pub fn plus(self, other: Rat) -> (r: Rat)
        requires
            self.wf(),
            other.wf(),
            rat_fits(rat_add(self@, other@)),
        ensures
            r@ == rat_add(self@, other@),
            r.wf(),
    {
        proof {
            lemma_i64_product_in_i128(self.num as int, other.den as int);
            lemma_i64_product_in_i128(other.num as int, self.den as int);
            lemma_i64_product_in_i128(self.den as int, other.den as int);
        }
        let n: i128 = self.num as i128 * other.den as i128 + other.num as i128 * self.den as i128;
        let d: i128 = self.den as i128 * other.den as i128;
        Rat { num: n as i64, den: d as i64 }
    }

    /// Exact difference. The unreduced result must fit in 64 bits.
    pub fn minus(self, other: Rat) -> (r: Rat)
        requires
            self.wf(),
            other.wf(),
            rat_fits(rat_sub(self@, other@)),
        ensures
            r@ == rat_sub(self@, other@),
            r.wf(),
    {
        proof {
            lemma_i64_product_in_i128(self.num as int, other.den as int);
            lemma_i64_product_in_i128(other.num as int, self.den as int);
            lemma_i64_product_in_i128(self.den as int, other.den as int);
        }
        let n: i128 = self.num as i128 * other.den as i128 - other.num as i128 * self.den as i128;
        let d: i128 = self.den as i128 * other.den as i128;
        Rat { num: n as i64, den: d as i64 }
    }

    /// Exact product. The unreduced result must fit in 64 bits.
    pub fn times(self, other: Rat) -> (r: Rat)
        requires
            self.wf(),
            other.wf(),
            rat_fits(rat_mul(self@, other@)),
        ensures
            r@ == rat_mul(self@, other@),
            r.wf(),
    {
        proof {
            lemma_i64_product_in_i128(self.num as int, other.num as int);
            lemma_i64_product_in_i128(self.den as int, other.den as int);
        }
        let n: i128 = self.num as i128 * other.num as i128;
        let d: i128 = self.den as i128 * other.den as i128;
        Rat { num: n as i64, den: d as i64 }
    }

    /// Exact quotient by a positive rational. The unreduced result must fit
    /// in 64 bits.
    pub fn divide(self, other: Rat) -> (r: Rat)
        requires
            self.wf(),
            other.wf(),
            other@.0 > 0,
            rat_fits(rat_div(self@, other@)),
        ensures
            r@ == rat_div(self@, other@),
            r.wf(),
    {
        proof {
            lemma_i64_product_in_i128(self.num as int, other.den as int);
            lemma_i64_product_in_i128(self.den as int, other.num as int);
        }
        let n: i128 = self.num as i128 * other.den as i128;
        let d: i128 = self.den as i128 * other.num as i128;
        Rat { num: n as i64, den: d as i64 }
    }

    /// Compare two rationals for equality of value.
    pub fn eq_val(self, other: Rat) -> (r: bool)
        requires
            self.wf(),
            other.wf(),
        ensures
            r == rat_eq(self@, other@),
    {
        proof {
            lemma_i64_product_in_i128(self.num as int, other.den as int);
            lemma_i64_product_in_i128(other.num as int, self.den as int);
        }
        self.num as i128 * other.den as i128 == other.num as i128 * self.den as i128
    }

    /// `self <= other` as rationals.
    pub fn le(self, other: Rat) -> (r: bool)
        requires
            self.wf(),
            other.wf(),
        ensures
            r == rat_le(self@, other@),
    {
        proof {
            lemma_i64_product_in_i128(self.num as int, other.den as int);
            lemma_i64_product_in_i128(other.num as int, self.den as int);
        }
        self.num as i128 * other.den as i128 <= other.num as i128 * self.den as i128
    }

    /// `self < other` as rationals.
    pub fn lt(self, other: Rat) -> (r: bool)
        requires
            self.wf(),
            other.wf(),
        ensures
            r == rat_lt(self@, other@),
    {
        proof {
            lemma_i64_product_in_i128(self.num as int, other.den as int);
            lemma_i64_product_in_i128(other.num as int, self.den as int);
        }
        (self.num as i128 * other.den as i128) < (other.num as i128 * self.den as i128)
    }
}

} // verus!
