//! A fixed-point number with three decimal digits of fraction.
//!
//! [`Milli`] stores a quantity in thousandths inside an `i64`. It serves both
//! as a coordinate type and as an interpolated value type: all of its
//! arithmetic is exact integer arithmetic that saturates at the `i64` range,
//! so every blending formula is total and its result is pinned exactly by the
//! specification functions below.

use crate::interpolate::Coordinate;
use crate::interpolate::Interpolate;
use vstd::prelude::*;

verus! {

/// Saturation of a mathematical integer into the `i64` range.
pub open spec fn sat(x: int) -> int {
    if x > i64::MAX as int {
        i64::MAX as int
    } else if x < i64::MIN as int {
        i64::MIN as int
    } else {
        x
    }
}

/// Quotient of `n` by `d` rounded toward zero, as Rust's integer division
/// computes it for a positive divisor.
pub open spec fn quot(n: int, d: int) -> int {
    if n >= 0 {
        n / d
    } else {
        -((-n) / d)
    }
}

/// One unit, in thousandths.
pub open spec fn unit() -> int {
    1000
}

proof fn lemma_div_le_self(n: int, d: int)
    requires
        n >= 0,
        d >= 1,
    ensures
        0 <= n / d <= n,
{
    assert(0 <= n / d <= n) by (nonlinear_arith)
        requires
            n >= 0,
            d >= 1,
    ;
}

/// Truncating division on `i128`, with the quotient rounded toward zero.
fn quot_i128(n: i128, d: i128) -> (q: i128)
    requires
        d > 0,
        n != i128::MIN,
    ensures
        q as int == quot(n as int, d as int),
{
    if n >= 0 {
        proof {
            lemma_div_le_self(n as int, d as int);
        }
        ((n as u128) / (d as u128)) as i128
    } else {
        let m: i128 = -n;
        proof {
            lemma_div_le_self(m as int, d as int);
        }
        -(((m as u128) / (d as u128)) as i128)
    }
}

/// Saturation of an `i128` into the `i64` range.
fn clamp_i64(x: i128) -> (r: i64)
    ensures
        r as int == sat(x as int),
{
    if x > i64::MAX as i128 {
        i64::MAX
    } else if x < i64::MIN as i128 {
        i64::MIN
    } else {
        x as i64
    }
}

/// Saturating sum of two raw values.
pub(crate) fn sat_add(a: i64, b: i64) -> (r: i64)
    ensures
        r as int == sat(a as int + b as int),
{
    clamp_i64(a as i128 + b as i128)
}

/// Saturating difference of two raw values.
pub(crate) fn sat_sub(a: i64, b: i64) -> (r: i64)
    ensures
        r as int == sat(a as int - b as int),
{
    clamp_i64(a as i128 - b as i128)
}

/// Saturating product of two raw values.
pub(crate) fn sat_mul(a: i64, b: i64) -> (r: i64)
    ensures
        r as int == sat(a as int * b as int),
{
    proof {
        assert(-(1 as int) * pow2_126() <= (a as int) * (b as int) <= pow2_126()) by (nonlinear_arith)
            requires
                i64::MIN as int <= a as int <= i64::MAX as int,
                i64::MIN as int <= b as int <= i64::MAX as int,
                pow2_126() == 0x40000000000000000000000000000000,
        ;
    }
    clamp_i64((a as i128) * (b as i128))
}

/// The bound `2^126` on a product of two `i64` values.
pub open spec fn pow2_126() -> int {
    0x40000000000000000000000000000000
}

/// `sat(quot(a * b, unit()))`: the saturating product of a raw value and a
/// fraction given in thousandths.
pub open spec fn mul_frac(a: int, b: int) -> int {
    sat(quot(a * b, unit()))
}

pub(crate) fn mul_frac_exec(a: i64, b: i64) -> (r: i64)
    ensures
        r as int == mul_frac(a as int, b as int),
{
    proof {
        assert(-(1 as int) * pow2_126() <= (a as int) * (b as int) <= pow2_126()) by (nonlinear_arith)
            requires
                i64::MIN as int <= a as int <= i64::MAX as int,
                i64::MIN as int <= b as int <= i64::MAX as int,
                pow2_126() == 0x40000000000000000000000000000000,
        ;
    }
    let p: i128 = (a as i128) * (b as i128);
    clamp_i64(quot_i128(p, 1000))
}

/// `sat(quot(a * b, d))` for a positive `d`, and `0` otherwise: the guarded
/// ratio used to derive tangents from coordinate differences.
pub open spec fn ratio(a: int, b: int, d: int) -> int {
    if d <= 0 {
        0
    } else {
        sat(quot(a * b, d))
    }
}

pub(crate) fn ratio_exec(a: i64, b: i64, d: i64) -> (r: i64)
    ensures
        r as int == ratio(a as int, b as int, d as int),
{
    if d <= 0 {
        0
    } else {
        proof {
            assert(-(1 as int) * pow2_126() <= (a as int) * (b as int) <= pow2_126()) by (nonlinear_arith)
                requires
                    i64::MIN as int <= a as int <= i64::MAX as int,
                    i64::MIN as int <= b as int <= i64::MAX as int,
                    pow2_126() == 0x40000000000000000000000000000000,
            ;
        }
        let p: i128 = (a as i128) * (b as i128);
        clamp_i64(quot_i128(p, d as i128))
    }
}

/// The [`Milli`] with `sat(x)` as its raw count.
pub open spec fn milli(x: int) -> Milli {
    Milli { raw: sat(x) as i64 }
}

/// A fixed-point number counting thousandths in an `i64`.
#[derive(Clone, Copy, Debug, PartialEq, Eq, Structural)]
pub struct Milli {
    pub raw: i64,
}

impl Milli {
    /// Wraps a raw count of thousandths.
    pub fn new(raw: i64) -> (r: Milli)
        ensures
            r == (Milli { raw }),
    {
        Milli { raw }
    }

    /// The value `v`, scaled from whole units; saturates at the `i64` range.
    pub fn from_units(v: i64) -> (r: Milli)
        ensures
            r.raw as int == sat(v as int * unit()),
    {
        Milli { raw: sat_mul(v, 1000) }
    }

    /// Straight blend from `a` to `b`, total in all three arguments.
    fn lerp_raw(a: Milli, b: Milli, t: Milli) -> (r: Milli)
        ensures
            r == <Milli as Interpolate<Milli>>::lerp_spec(a, b, t),
    {
        let d: i64 = sat_sub(b.raw, a.raw);
        let m: i64 = mul_frac_exec(d, t.raw);
        Milli { raw: sat_add(a.raw, m) }
    }

    /// The cubic ease curve that remaps a blend ratio for cosine blending,
    /// total in its argument.
    fn ease_raw(t: Milli) -> (e: Milli)
        ensures
            e == ease_spec(t),
    {
        let t2: i64 = mul_frac_exec(t.raw, t.raw);
        let s: i64 = sat_sub(3000, sat_mul(2, t.raw));
        Milli { raw: mul_frac_exec(t2, s) }
    }
}

/// A linear blend at ratio one is the upper value exactly, whenever the span
/// between the two values is representable; only a saturated span loses it.
pub proof fn lemma_milli_lerp_at_one(a: Milli, b: Milli)
    requires
        i64::MIN as int <= b.raw as int - a.raw as int <= i64::MAX as int,
    ensures
        <Milli as Interpolate<Milli>>::lerp_spec(a, b, Milli { raw: 1000 }) == b,
{
    let d = sat(b.raw as int - a.raw as int);
    assert(d == b.raw as int - a.raw as int);
    assert(quot(d * 1000, 1000) == d) by (nonlinear_arith);
    assert(milli(a.raw + d) == b);
}

/// The cubic ease curve `t * t * (3 - 2 * t)` in thousandths: it starts at
/// zero, ends at one, and matches the cosine ease's endpoints and midpoint.
pub open spec fn ease_spec(t: Milli) -> Milli {
    milli(mul_frac(mul_frac(t.raw as int, t.raw as int), sat(3000 - sat(2 * t.raw as int))))
}

impl Coordinate for Milli {
    open spec fn le_spec(self, other: Self) -> bool {
        self.raw <= other.raw
    }

    open spec fn zero_spec() -> Self {
        Milli { raw: 0 }
    }

    open spec fn one_spec() -> Self {
        Milli { raw: 1000 }
    }

    open spec fn normalize_spec(x: Self, lo: Self, hi: Self) -> Self {
        if hi.raw <= lo.raw {
            Milli { raw: 0 }
        } else {
            milli(quot((x.raw - lo.raw) * unit(), hi.raw - lo.raw))
        }
    }

    proof fn lemma_le_refl(x: Self) {
    }

    proof fn lemma_le_trans(x: Self, y: Self, z: Self) {
    }

    proof fn lemma_le_total(x: Self, y: Self) {
    }

    proof fn lemma_normalize_at_lower(x: Self, lo: Self, hi: Self) {
    }

    fn le(self, other: Self) -> (r: bool) {
        self.raw <= other.raw
    }

    fn normalize(x: Self, lo: Self, hi: Self) -> (t: Self) {
        if hi.raw <= lo.raw {
            Milli { raw: 0 }
        } else {
            let num: i128 = ((x.raw as i128) - (lo.raw as i128)) * 1000;
            let den: i128 = (hi.raw as i128) - (lo.raw as i128);
            let q: i128 = quot_i128(num, den);
            proof {
                lemma_div_le_self(num as int, den as int);
                assert(num as int <= den as int * 1000) by (nonlinear_arith)
                    requires
                        num as int == (x.raw as int - lo.raw as int) * 1000,
                        den as int == hi.raw as int - lo.raw as int,
                        x.raw as int <= hi.raw as int,
                ;
                assert(num as int / den as int <= 1000) by (nonlinear_arith)
                    requires
                        num as int <= den as int * 1000,
                        den as int >= 1,
                ;
            }
            Milli { raw: clamp_i64(q) }
        }
    }
}

impl Interpolate<Milli> for Milli {
    open spec fn lerp_spec(a: Self, b: Self, t: Self) -> Self {
        milli(a.raw + mul_frac(sat(b.raw - a.raw), t.raw as int))
    }

    open spec fn cosine_spec(a: Self, b: Self, t: Self) -> Self {
        Self::lerp_spec(a, b, ease_spec(t))
    }

    open spec fn cubic_hermite_spec(p0: (Self, Self), p1: (Self, Self), p2: (Self, Self), p3: (Self, Self), t: Self) -> Self {
        let t2 = mul_frac(t.raw as int, t.raw as int);
        let t3 = mul_frac(t2, t.raw as int);
        let span = sat(p2.1.raw - p1.1.raw);
        let m1 = ratio(sat(p2.0.raw - p0.0.raw), span, sat(p2.1.raw - p0.1.raw));
        let m2 = ratio(sat(p3.0.raw - p1.0.raw), span, sat(p3.1.raw - p1.1.raw));
        let h01 = sat(sat(3 * t2) - sat(2 * t3));
        let h10 = sat(sat(t3 - sat(2 * t2)) + t.raw);
        let h11 = sat(t3 - t2);
        let across = mul_frac(h01, sat(p2.0.raw - p1.0.raw));
        let tangents = sat(mul_frac(h10, m1) + mul_frac(h11, m2));
        milli(p1.0.raw + sat(across + tangents))
    }

    open spec fn quadratic_bezier_spec(a: Self, u: Self, b: Self, t: Self) -> Self {
        Self::lerp_spec(Self::lerp_spec(a, u, t), Self::lerp_spec(u, b, t), t)
    }

    open spec fn cubic_bezier_spec(a: Self, u: Self, w: Self, b: Self, t: Self) -> Self {
        let l1 = Self::lerp_spec(a, u, t);
        let l2 = Self::lerp_spec(u, w, t);
        let l3 = Self::lerp_spec(w, b, t);
        Self::lerp_spec(Self::lerp_spec(l1, l2, t), Self::lerp_spec(l2, l3, t), t)
    }

    proof fn lemma_lerp_at_zero(a: Self, b: Self) {
    }

    proof fn lemma_cosine_at_zero(a: Self, b: Self) {
        assert(sat(2 * (Milli { raw: 0 }).raw as int) == 0);
        assert(sat(3000 - 0) == 3000);
        assert(mul_frac(0, 3000) == 0);
        assert(milli(0) == (Milli { raw: 0 }));
        assert(ease_spec(Milli { raw: 0 }) == (Milli { raw: 0 }));
        assert(Self::lerp_spec(a, b, Milli { raw: 0 }) == a);
    }

    proof fn lemma_cubic_hermite_at_zero(p0: (Self, Self), p1: (Self, Self), p2: (Self, Self), p3: (Self, Self)) {
        let z = (Milli { raw: 0 });
        let t2 = mul_frac(0, 0);
        assert(t2 == 0);
        let t3 = mul_frac(t2, 0);
        assert(t3 == 0);
        let span = sat(p2.1.raw - p1.1.raw);
        let m1 = ratio(sat(p2.0.raw - p0.0.raw), span, sat(p2.1.raw - p0.1.raw));
        let m2 = ratio(sat(p3.0.raw - p1.0.raw), span, sat(p3.1.raw - p1.1.raw));
        assert(sat(sat(3 * t2) - sat(2 * t3)) == 0);
        assert(sat(sat(t3 - sat(2 * t2)) + 0) == 0);
        assert(sat(t3 - t2) == 0);
        assert(0 * sat(p2.0.raw - p1.0.raw) == 0);
        assert(mul_frac(0, sat(p2.0.raw - p1.0.raw)) == 0);
        assert(0 * m1 == 0);
        assert(0 * m2 == 0);
        assert(mul_frac(0, m1) == 0);
        assert(mul_frac(0, m2) == 0);
        assert(milli(p1.0.raw + sat(0int + 0int)) == p1.0);
        assert(Self::cubic_hermite_spec(p0, p1, p2, p3, z) == p1.0);
    }

    proof fn lemma_quadratic_bezier_at_zero(a: Self, u: Self, b: Self) {
        Self::lemma_lerp_at_zero(a, u);
        Self::lemma_lerp_at_zero(u, b);
        Self::lemma_lerp_at_zero(Self::lerp_spec(a, u, Milli { raw: 0 }), Self::lerp_spec(u, b, Milli { raw: 0 }));
    }

    proof fn lemma_cubic_bezier_at_zero(a: Self, u: Self, w: Self, b: Self) {
        let z = (Milli { raw: 0 });
        Self::lemma_lerp_at_zero(a, u);
        Self::lemma_lerp_at_zero(u, w);
        Self::lemma_lerp_at_zero(w, b);
        Self::lemma_lerp_at_zero(Self::lerp_spec(a, u, z), Self::lerp_spec(u, w, z));
        Self::lemma_lerp_at_zero(Self::lerp_spec(u, w, z), Self::lerp_spec(w, b, z));
        Self::lemma_lerp_at_zero(
            Self::lerp_spec(Self::lerp_spec(a, u, z), Self::lerp_spec(u, w, z), z),
            Self::lerp_spec(Self::lerp_spec(u, w, z), Self::lerp_spec(w, b, z), z),
        );
    }

    fn lerp(a: Self, b: Self, t: Self) -> (r: Self) {
        Milli::lerp_raw(a, b, t)
    }

    fn cosine(a: Self, b: Self, t: Self) -> (r: Self) {
        Milli::lerp_raw(a, b, Milli::ease_raw(t))
    }

    fn cubic_hermite(p0: (Self, Self), p1: (Self, Self), p2: (Self, Self), p3: (Self, Self), t: Self) -> (r: Self) {
        let t2: i64 = mul_frac_exec(t.raw, t.raw);
        let t3: i64 = mul_frac_exec(t2, t.raw);
        let span: i64 = sat_sub(p2.1.raw, p1.1.raw);
        let m1: i64 = ratio_exec(sat_sub(p2.0.raw, p0.0.raw), span, sat_sub(p2.1.raw, p0.1.raw));
        let m2: i64 = ratio_exec(sat_sub(p3.0.raw, p1.0.raw), span, sat_sub(p3.1.raw, p1.1.raw));
        let h01: i64 = sat_sub(sat_mul(3, t2), sat_mul(2, t3));
        let h10: i64 = sat_add(sat_sub(t3, sat_mul(2, t2)), t.raw);
        let h11: i64 = sat_sub(t3, t2);
        let across: i64 = mul_frac_exec(h01, sat_sub(p2.0.raw, p1.0.raw));
        let tangents: i64 = sat_add(mul_frac_exec(h10, m1), mul_frac_exec(h11, m2));
        Milli { raw: sat_add(p1.0.raw, sat_add(across, tangents)) }
    }

    fn quadratic_bezier(a: Self, u: Self, b: Self, t: Self) -> (r: Self) {
        let l1 = Milli::lerp_raw(a, u, t);
        let l2 = Milli::lerp_raw(u, b, t);
        Milli::lerp_raw(l1, l2, t)
    }

    fn cubic_bezier(a: Self, u: Self, w: Self, b: Self, t: Self) -> (r: Self) {
        let l1 = Milli::lerp_raw(a, u, t);
        let l2 = Milli::lerp_raw(u, w, t);
        let l3 = Milli::lerp_raw(w, b, t);
        let m1 = Milli::lerp_raw(l1, l2, t);
        let m2 = Milli::lerp_raw(l2, l3, t);
        Milli::lerp_raw(m1, m2, t)
    }
}

} // verus!
