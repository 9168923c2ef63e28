//! Exact scalar coordinates.
//!
//! A [`Coord`] is a fraction `num / den` of two `i128` values with a positive
//! denominator. Its mathematical value is the [`Rat`] returned by its view,
//! on which all contracts of this crate are stated. Arithmetic is exact:
//! each operation requires that the products it forms fit in `i128` and
//! ensures the precise fraction it returns.

use vstd::prelude::*;

verus! {

/// Mathematical value of a scalar: the fraction `n / d`. Well-formed values
/// have `d > 0`; two fractions denote the same number when they are related
/// by [`rat_eqv`].
pub struct Rat {
    pub n: int,
    pub d: int,
}

pub open spec fn rat_wf(a: Rat) -> bool {
    a.d > 0
}

pub open spec fn rat_zero() -> Rat {
    Rat { n: 0, d: 1 }
}

pub open spec fn rat_one() -> Rat {
    Rat { n: 1, d: 1 }
}

pub open spec fn rat_add(a: Rat, b: Rat) -> Rat {
    Rat { n: a.n * b.d + b.n * a.d, d: a.d * b.d }
}

pub open spec fn rat_sub(a: Rat, b: Rat) -> Rat {
    Rat { n: a.n * b.d - b.n * a.d, d: a.d * b.d }
}

pub open spec fn rat_mul(a: Rat, b: Rat) -> Rat {
    Rat { n: a.n * b.n, d: a.d * b.d }
}

/// Division keeps the denominator positive by moving the divisor's sign into
/// the numerator.
pub open spec fn rat_div(a: Rat, b: Rat) -> Rat {
    if b.n < 0 {
        Rat { n: -(a.n * b.d), d: -(a.d * b.n) }
    } else {
        Rat { n: a.n * b.d, d: a.d * b.n }
    }
}

pub open spec fn rat_neg(a: Rat) -> Rat {
    Rat { n: -a.n, d: a.d }
}

pub open spec fn rat_abs(a: Rat) -> Rat {
    if a.n < 0 {
        Rat { n: -a.n, d: a.d }
    } else {
        a
    }
}

/// Value equality of well-formed fractions, by cross multiplication.
pub open spec fn rat_eqv(a: Rat, b: Rat) -> bool {
    a.n * b.d == b.n * a.d
}

/// Value order of well-formed fractions, by cross multiplication.
pub open spec fn rat_le(a: Rat, b: Rat) -> bool {
    a.n * b.d <= b.n * a.d
}

pub open spec fn rat_lt(a: Rat, b: Rat) -> bool {
    a.n * b.d < b.n * a.d
}

pub open spec fn in_i128(x: int) -> bool {
    -170141183460469231731687303715884105728 <= x <= 170141183460469231731687303715884105727
}

/// The intermediate products of [`rat_add`] stay within `i128`.
pub open spec fn fits_add(a: Rat, b: Rat) -> bool {
    &&& in_i128(a.n * b.d)
    &&& in_i128(b.n * a.d)
    &&& in_i128(a.n * b.d + b.n * a.d)
    &&& in_i128(a.d * b.d)
}

/// The intermediate products of [`rat_sub`] stay within `i128`.
pub open spec fn fits_sub(a: Rat, b: Rat) -> bool {
    &&& in_i128(a.n * b.d)
    &&& in_i128(b.n * a.d)
    &&& in_i128(a.n * b.d - b.n * a.d)
    &&& in_i128(a.d * b.d)
}

/// The products of [`rat_mul`] stay within `i128`.
pub open spec fn fits_mul(a: Rat, b: Rat) -> bool {
    &&& in_i128(a.n * b.n)
    &&& in_i128(a.d * b.d)
}

/// The products of [`rat_div`] and their negations stay within `i128`.
pub open spec fn fits_div(a: Rat, b: Rat) -> bool {
    &&& in_i128(a.n * b.d)
    &&& in_i128(-(a.n * b.d))
    &&& in_i128(a.d * b.n)
    &&& in_i128(-(a.d * b.n))
}

/// The cross products compared by [`rat_eqv`], [`rat_le`] and [`rat_lt`]
/// stay within `i128`.
pub open spec fn fits_cmp(a: Rat, b: Rat) -> bool {
    &&& in_i128(a.n * b.d)
    &&& in_i128(b.n * a.d)
}

/// Denominator scale of a square root: roots are reported as fractions over
/// `den * SQRT_SCALE`, so they are exact whenever the exact root has such a
/// denominator, and floored to a multiple of `1 / (den * SQRT_SCALE)`
/// otherwise.
pub const SQRT_SCALE: i128 = 1000;

/// Arguments of the integer square root must stay below `2^126`, so that the
/// bisection can square its candidates in `i128`.
pub const SQRT_ARG_BOUND: i128 = 85070591730234615865843651857942052864;

/// The integer square root, rounded down: the unique `r >= 0` with
/// `r * r <= x < (r + 1) * (r + 1)`.
pub open spec fn sqrt_floor(x: int) -> int {
    choose|r: int| 0 <= r && #[trigger] (r * r) <= x && x < (r + 1) * (r + 1)
}

/// The floored square root is the one value satisfying its defining bounds.
pub proof fn lemma_sqrt_floor_unique(x: int, r: int)
    requires
        0 <= r,
        r * r <= x,
        x < (r + 1) * (r + 1),
    ensures
        r == sqrt_floor(x),
{
    assert(exists|q: int| 0 <= q && #[trigger] (q * q) <= x && x < (q + 1) * (q + 1)) by {
        assert(0 <= r && r * r <= x && x < (r + 1) * (r + 1));
    }
    let s = sqrt_floor(x);
    assert(0 <= s && s * s <= x && x < (s + 1) * (s + 1));
    if r < s {
        assert((r + 1) * (r + 1) <= s * s) by (nonlinear_arith)
            requires
                0 <= r,
                r < s,
        ;
    }
    if s < r {
        assert((s + 1) * (s + 1) <= r * r) by (nonlinear_arith)
            requires
                0 <= s,
                s < r,
        ;
    }
}

/// Every nonnegative integer has a floored square root, and it satisfies the
/// defining bounds.
pub proof fn lemma_sqrt_floor_bounds(x: int)
    requires
        x >= 0,
    ensures
        0 <= sqrt_floor(x),
        sqrt_floor(x) * sqrt_floor(x) <= x,
        x < (sqrt_floor(x) + 1) * (sqrt_floor(x) + 1),
    decreases x,
{
    if x == 0 {
        assert(exists|q: int| 0 <= q && #[trigger] (q * q) <= x && x < (q + 1) * (q + 1)) by {
            assert(0 <= 0 && 0 * 0 <= x && x < (0 + 1) * (0 + 1));
        }
    } else {
        lemma_sqrt_floor_bounds(x - 1);
        let s = sqrt_floor(x - 1);
        if x < (s + 1) * (s + 1) {
            assert(exists|q: int| 0 <= q && #[trigger] (q * q) <= x && x < (q + 1) * (q + 1)) by {
                assert(0 <= s && s * s <= x && x < (s + 1) * (s + 1));
            }
        } else {
            let t = s + 1;
            assert(x == t * t);
            assert(t * t < (t + 1) * (t + 1)) by (nonlinear_arith)
                requires
                    t >= 0,
            ;
            assert(exists|q: int| 0 <= q && #[trigger] (q * q) <= x && x < (q + 1) * (q + 1)) by {
                assert(0 <= t && t * t <= x && x < (t + 1) * (t + 1));
            }
        }
    }
}

/// The square root of a nonnegative fraction `a`, as the fraction
/// `sqrt_floor(a.n * a.d * SQRT_SCALE^2) / (a.d * SQRT_SCALE)`.
pub open spec fn rat_sqrt(a: Rat) -> Rat {
    Rat {
        n: sqrt_floor(a.n * a.d * (SQRT_SCALE as int) * (SQRT_SCALE as int)),
        d: a.d * (SQRT_SCALE as int),
    }
}

/// The products formed by [`rat_sqrt`] stay within bounds.
pub open spec fn fits_sqrt(a: Rat) -> bool {
    &&& in_i128(a.n * a.d)
    &&& in_i128(a.n * a.d * (SQRT_SCALE as int))
    &&& a.n * a.d * (SQRT_SCALE as int) * (SQRT_SCALE as int) < SQRT_ARG_BOUND as int
    &&& in_i128(a.d * (SQRT_SCALE as int))
}

/// Integer square root by bisection.
fn isqrt(x: i128) -> (r: i128)
    requires
        0 <= x < SQRT_ARG_BOUND,
    ensures
        0 <= r,
        r == sqrt_floor(x as int),
{
    let mut lo: i128 = 0;
    let mut hi: i128 = 9223372036854775807;
    while lo < hi
        invariant
            0 <= lo <= hi <= 9223372036854775807,
            (lo as int) * (lo as int) <= x as int,
            (x as int) < ((hi as int) + 1) * ((hi as int) + 1),
        decreases hi - lo,
    {
        let mid: i128 = lo + (hi - lo + 1) / 2;
        proof {
            assert((mid as int) * (mid as int) <= 9223372036854775808
                * 9223372036854775808) by (nonlinear_arith)
                requires
                    0 <= mid <= 9223372036854775807,
            ;
        }
        if mid * mid <= x {
            lo = mid;
        } else {
            hi = mid - 1;
        }
    }
    proof {
        lemma_sqrt_floor_unique(x as int, lo as int);
    }
    lo
}

/// A scalar coordinate: the exact fraction `num / den`, kept with `den > 0`.
#[derive(Clone, Copy, Debug)]
pub struct Coord {
    pub num: i128,
    pub den: i128,
}

impl View for Coord {
    type V = Rat;

    open spec fn view(&self) -> Rat {
        Rat { n: self.num as int, d: self.den as int }
    }
}

impl Coord {
    /// The fraction `num / den`.
    pub fn new(num: i64, den: i64) -> (r: Coord)
        requires
            den > 0,
        ensures
            r@ == (Rat { n: num as int, d: den as int }),
            rat_wf(r@),
    {
        Coord { num: num as i128, den: den as i128 }
    }

    /// The whole number `v`.
    pub fn from_int(v: i64) -> (r: Coord)
        ensures
            r@ == (Rat { n: v as int, d: 1 }),
            rat_wf(r@),
    {
        Coord { num: v as i128, den: 1 }
    }

    pub fn add(self, other: Coord) -> (r: Coord)
        requires
            rat_wf(self@),
            rat_wf(other@),
            fits_add(self@, other@),
        ensures
            r@ == rat_add(self@, other@),
            rat_wf(r@),
    {
        let r = Coord {
            num: self.num * other.den + other.num * self.den,
            den: self.den * other.den,
        };
        proof {
            assert(self@.d * other@.d > 0) by (nonlinear_arith)
                requires
                    self@.d > 0,
                    other@.d > 0,
            ;
        }
        r
    }

    pub fn sub(self, other: Coord) -> (r: Coord)
        requires
            rat_wf(self@),
            rat_wf(other@),
            fits_sub(self@, other@),
        ensures
            r@ == rat_sub(self@, other@),
            rat_wf(r@),
    {
        let r = Coord {
            num: self.num * other.den - other.num * self.den,
            den: self.den * other.den,
        };
        proof {
            assert(self@.d * other@.d > 0) by (nonlinear_arith)
                requires
                    self@.d > 0,
                    other@.d > 0,
            ;
        }
        r
    }

    pub fn mul(self, other: Coord) -> (r: Coord)
        requires
            rat_wf(self@),
            rat_wf(other@),
            fits_mul(self@, other@),
        ensures
            r@ == rat_mul(self@, other@),
            rat_wf(r@),
    {
        let r = Coord { num: self.num * other.num, den: self.den * other.den };
        proof {
            assert(self@.d * other@.d > 0) by (nonlinear_arith)
                requires
                    self@.d > 0,
                    other@.d > 0,
            ;
        }
        r
    }

    pub fn div(self, other: Coord) -> (r: Coord)
        requires
            rat_wf(self@),
            rat_wf(other@),
            other@.n != 0,
            fits_div(self@, other@),
        ensures
            r@ == rat_div(self@, other@),
            rat_wf(r@),
    {
        let n0: i128 = self.num * other.den;
        let d0: i128 = self.den * other.num;
        proof {
            assert(self@.d * other@.n < 0 <==> other@.n < 0) by (nonlinear_arith)
                requires
                    self@.d > 0,
                    other@.n != 0,
            ;
            assert(self@.d * other@.n != 0) by (nonlinear_arith)
                requires
                    self@.d > 0,
                    other@.n != 0,
            ;
        }
        if d0 < 0 {
            Coord { num: -n0, den: -d0 }
        } else {
            Coord { num: n0, den: d0 }
        }
    }

    /// Whether the value is exactly zero.
    pub fn is_zero(self) -> (r: bool)
        requires
            rat_wf(self@),
        ensures
            r == rat_eqv(self@, rat_zero()),
    {
        self.num == 0
    }

    /// Whether two scalars denote the same number.
    pub fn eq_value(self, other: Coord) -> (r: bool)
        requires
            rat_wf(self@),
            rat_wf(other@),
            fits_cmp(self@, other@),
        ensures
            r == rat_eqv(self@, other@),
    {
        self.num * other.den == other.num * self.den
    }

    /// Whether this scalar's value is strictly below the other's.
    pub fn lt_value(self, other: Coord) -> (r: bool)
        requires
            rat_wf(self@),
            rat_wf(other@),
            fits_cmp(self@, other@),
        ensures
            r == rat_lt(self@, other@),
    {
        self.num * other.den < other.num * self.den
    }

    /// The square root of a nonnegative scalar, floored to a denominator of
    /// `den * SQRT_SCALE`; exact whenever the true root is representable over
    /// that denominator.
    pub fn sqrt(self) -> (r: Coord)
        requires
            rat_wf(self@),
            self@.n >= 0,
            fits_sqrt(self@),
        ensures
            r@ == rat_sqrt(self@),
            rat_wf(r@),
    {
        proof {
            assert(self@.n * self@.d >= 0) by (nonlinear_arith)
                requires
                    self@.n >= 0,
                    self@.d > 0,
            ;
            assert(self@.n * self@.d * (SQRT_SCALE as int) >= 0 && self@.n * self@.d * (
            SQRT_SCALE as int) * (SQRT_SCALE as int) >= 0) by (nonlinear_arith)
                requires
                    self@.n * self@.d >= 0,
                    SQRT_SCALE > 0,
            ;
            assert(self@.d * (SQRT_SCALE as int) > 0) by (nonlinear_arith)
                requires
                    self@.d > 0,
                    SQRT_SCALE > 0,
            ;
        }
        let t: i128 = self.num * self.den * SQRT_SCALE * SQRT_SCALE;
        let root: i128 = isqrt(t);
        Coord { num: root, den: self.den * SQRT_SCALE }
    }

    /// The absolute value.
    pub fn abs_value(self) -> (r: Coord)
        requires
            rat_wf(self@),
            in_i128(-self@.n),
        ensures
            r@ == rat_abs(self@),
            rat_wf(r@),
    {
        if self.num < 0 {
            Coord { num: -self.num, den: self.den }
        } else {
            self
        }
    }
}

/// Comparisons against zero read the sign of the numerator.
pub proof fn lemma_sign(a: Rat)
    ensures
        rat_eqv(a, rat_zero()) <==> a.n == 0,
        rat_le(rat_zero(), a) <==> a.n >= 0,
        rat_lt(rat_zero(), a) <==> a.n > 0,
{
    assert(a.n * 1 == a.n) by (nonlinear_arith);
    assert(0 * a.d == 0) by (nonlinear_arith);
}

/// Sums, differences and products of well-formed fractions are well-formed.
pub proof fn lemma_wf_ops(a: Rat, b: Rat)
    requires
        rat_wf(a),
        rat_wf(b),
    ensures
        rat_wf(rat_add(a, b)),
        rat_wf(rat_sub(a, b)),
        rat_wf(rat_mul(a, b)),
{
    assert(a.d * b.d > 0) by (nonlinear_arith)
        requires
            a.d > 0,
            b.d > 0,
    ;
}

/// Value equality is transitive over well-formed fractions.
pub proof fn lemma_eqv_trans(a: Rat, b: Rat, c: Rat)
    by (nonlinear_arith)
    requires
        rat_wf(a),
        rat_wf(b),
        rat_wf(c),
        rat_eqv(a, b),
        rat_eqv(b, c),
    ensures
        rat_eqv(a, c),
{
}

/// Multiplication respects value equality.
pub proof fn lemma_mul_eqv(a: Rat, b: Rat, a2: Rat, b2: Rat)
    by (nonlinear_arith)
    requires
        rat_wf(a),
        rat_wf(b),
        rat_wf(a2),
        rat_wf(b2),
        rat_eqv(a, a2),
        rat_eqv(b, b2),
    ensures
        rat_eqv(rat_mul(a, b), rat_mul(a2, b2)),
{
}

/// Addition respects value equality.
pub proof fn lemma_add_eqv(a: Rat, b: Rat, a2: Rat, b2: Rat)
    requires
        rat_wf(a),
        rat_wf(b),
        rat_wf(a2),
        rat_wf(b2),
        rat_eqv(a, a2),
        rat_eqv(b, b2),
    ensures
        rat_eqv(rat_add(a, b), rat_add(a2, b2)),
{
    let an = a.n;
    let ad = a.d;
    let bn = b.n;
    let bd = b.d;
    let cn = a2.n;
    let cd = a2.d;
    let en = b2.n;
    let ed = b2.d;
    vstd::arithmetic::mul::lemma_mul_is_distributive_add_other_way(cd * ed, an * bd, bn * ad);
    vstd::arithmetic::mul::lemma_mul_is_distributive_add_other_way(ad * bd, cn * ed, en * cd);
    assert((an * bd) * (cd * ed) == (cn * ed) * (ad * bd)) by (nonlinear_arith)
        requires
            an * cd == cn * ad,
    ;
    assert((bn * ad) * (cd * ed) == (en * cd) * (ad * bd)) by (nonlinear_arith)
        requires
            bn * ed == en * bd,
    ;
}

/// Multiplication distributes over addition, up to value equality.
pub proof fn lemma_mul_distributes(a: Rat, b: Rat, c: Rat)
    requires
        rat_wf(a),
        rat_wf(b),
        rat_wf(c),
    ensures
        rat_eqv(rat_add(rat_mul(a, b), rat_mul(a, c)), rat_mul(a, rat_add(b, c))),
{
    let an = a.n;
    let ad = a.d;
    let bn = b.n;
    let bd = b.d;
    let cn = c.n;
    let cd = c.d;
    let t1 = (an * bn) * (ad * cd);
    let t2 = (an * cn) * (ad * bd);
    let dd = ad * (bd * cd);
    let u1 = an * (bn * cd);
    let u2 = an * (cn * bd);
    let cc = (ad * bd) * (ad * cd);
    vstd::arithmetic::mul::lemma_mul_is_distributive_add_other_way(dd, t1, t2);
    vstd::arithmetic::mul::lemma_mul_is_distributive_add(an, bn * cd, cn * bd);
    vstd::arithmetic::mul::lemma_mul_is_distributive_add_other_way(cc, u1, u2);
    assert(t1 * dd == u1 * cc) by (nonlinear_arith)
        requires
            t1 == (an * bn) * (ad * cd),
            dd == ad * (bd * cd),
            u1 == an * (bn * cd),
            cc == (ad * bd) * (ad * cd),
    ;
    assert(t2 * dd == u2 * cc) by (nonlinear_arith)
        requires
            t2 == (an * cn) * (ad * bd),
            dd == ad * (bd * cd),
            u2 == an * (cn * bd),
            cc == (ad * bd) * (ad * cd),
    ;
}

/// Squaring preserves strict order on nonnegative values.
pub proof fn lemma_sq_lt(a: Rat, b: Rat)
    by (nonlinear_arith)
    requires
        rat_wf(a),
        rat_wf(b),
        a.n >= 0,
        rat_lt(a, b),
    ensures
        rat_lt(rat_mul(a, a), rat_mul(b, b)),
{
}

/// Strict order respects value equality.
pub proof fn lemma_lt_eqv(a: Rat, b: Rat, a2: Rat, b2: Rat)
    by (nonlinear_arith)
    requires
        rat_wf(a),
        rat_wf(b),
        rat_wf(a2),
        rat_wf(b2),
        rat_eqv(a, a2),
        rat_eqv(b, b2),
        rat_lt(a, b),
    ensures
        rat_lt(a2, b2),
{
}

/// Negation respects value equality.
pub proof fn lemma_neg_eqv(a: Rat, b: Rat)
    by (nonlinear_arith)
    requires
        rat_wf(a),
        rat_wf(b),
        rat_eqv(a, b),
    ensures
        rat_eqv(rat_neg(a), rat_neg(b)),
{
}

/// The absolute value respects value equality.
pub proof fn lemma_abs_eqv(a: Rat, b: Rat)
    by (nonlinear_arith)
    requires
        rat_wf(a),
        rat_wf(b),
        rat_eqv(a, b),
    ensures
        rat_eqv(rat_abs(a), rat_abs(b)),
{
}

/// The absolute value of a product is the product of absolute values.
pub proof fn lemma_abs_mul(a: Rat, b: Rat)
    by (nonlinear_arith)
    requires
        rat_wf(a),
        rat_wf(b),
    ensures
        rat_abs(rat_mul(a, b)) == rat_mul(rat_abs(a), rat_abs(b)),
{
}

/// Subtracting a zero-valued fraction leaves the value unchanged.
pub proof fn lemma_sub_zero_num(v: Rat, t: Rat)
    by (nonlinear_arith)
    requires
        rat_wf(v),
        rat_wf(t),
        t.n == 0,
    ensures
        rat_eqv(rat_sub(v, t), v),
{
}

/// The change that subtracting `t` from `v` makes is exactly `-t`.
pub proof fn lemma_sub_then_delta(v: Rat, t: Rat)
    by (nonlinear_arith)
    requires
        rat_wf(v),
        rat_wf(t),
    ensures
        rat_eqv(rat_sub(rat_sub(v, t), v), rat_neg(t)),
{
}

} // verus!
