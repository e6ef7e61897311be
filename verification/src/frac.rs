//! Exact rational arithmetic for canvas geometry.
//!
//! World coordinates, socket offsets and the viewport scale are all carried
//! as fractions of `i64` with a strictly positive denominator, so every
//! coordinate computation states exactly what it produced - including the
//! one place the viewport rounds, where the contract pins the rounding to
//! the nearest grid point.
use vstd::prelude::*;

verus! {

/// The value `x` lies in the range representable by an `i64` field.
pub open spec fn fits_i64(x: int) -> bool {
    -0x8000_0000_0000_0000 <= x <= 0x7fff_ffff_ffff_ffff
}

/// An exact rational number `num / den`, with `den` strictly positive.
#[derive(Clone, Copy, Debug, PartialEq, Eq, Structural)]
pub struct Frac {
    pub num: i64,
    pub den: i64,
}

impl Frac {
    /// Well-formed: the denominator is strictly positive.
    pub open spec fn wf(self) -> bool {
        self.den > 0
    }

    /// The whole number `n` as a fraction.
    pub fn from_int(n: i64) -> (r: Frac)
        ensures
            r.num == n,
            r.den == 1,
            r.wf(),
    {
        Frac { num: n, den: 1 }
    }

    /// The rational zero.
    pub fn zero() -> (r: Frac)
        ensures
            r.num == 0,
            r.den == 1,
            r.wf(),
    {
        Frac { num: 0, den: 1 }
    }
}

/// The product of an `i64` value with a positive `i64` value stays strictly
/// inside the `i128` range, with room to add a second such product.
pub proof fn lemma_i64_mul_pos_bounds(a: int, d: int)
    requires
        fits_i64(a),
        1 <= d <= 0x7fff_ffff_ffff_ffff,
    ensures
        -0x3fff_ffff_ffff_ffff_8000_0000_0000_0000 <= a * d
            <= 0x3fff_ffff_ffff_ffff_8000_0000_0000_0000,
{
    assert(-0x3fff_ffff_ffff_ffff_8000_0000_0000_0000 <= a * d
        <= 0x3fff_ffff_ffff_ffff_8000_0000_0000_0000) by (nonlinear_arith)
        requires
            -0x8000_0000_0000_0000 <= a <= 0x7fff_ffff_ffff_ffff,
            1 <= d <= 0x7fff_ffff_ffff_ffff,
    ;
}

/// The product of two `i64` values stays inside the `i128` range.
pub proof fn lemma_i64_mul_bounds(a: int, b: int)
    requires
        fits_i64(a),
        fits_i64(b),
    ensures
        -0x4000_0000_0000_0000_0000_0000_0000_0000 <= a * b
            <= 0x4000_0000_0000_0000_0000_0000_0000_0000,
{
    assert(-0x4000_0000_0000_0000_0000_0000_0000_0000 <= a * b
        <= 0x4000_0000_0000_0000_0000_0000_0000_0000) by (nonlinear_arith)
        requires
            -0x8000_0000_0000_0000 <= a <= 0x7fff_ffff_ffff_ffff,
            -0x8000_0000_0000_0000 <= b <= 0x7fff_ffff_ffff_ffff,
    ;
}

/// The product of two positive `i64` values is at least one.
proof fn lemma_pos_mul_pos(a: int, b: int)
    requires
        a >= 1,
        b >= 1,
    ensures
        a * b >= 1,
{
    assert(a * b >= 1) by (nonlinear_arith)
        requires
            a >= 1,
            b >= 1,
    ;
}

/// The greatest common divisor, by Euclid's algorithm.
pub open spec fn gcd_spec(a: nat, b: nat) -> nat
    decreases b,
{
    if b == 0 {
        a
    } else {
        gcd_spec(b, a % b)
    }
}

/// The magnitude of an integer.
pub open spec fn abs_int(n: int) -> nat {
    if n >= 0 {
        n as nat
    } else {
        (-n) as nat
    }
}

/// Euclid's algorithm; the result is a positive common divisor of both
/// arguments, no larger than the first.
fn gcd128(a: u128, b: u128) -> (g: u128)
    requires
        a >= 1,
    ensures
        g == gcd_spec(a as nat, b as nat),
        1 <= g <= a,
        a % g == 0,
        b % g == 0,
    decreases b,
{
    if b == 0 {
        proof {
            vstd::arithmetic::div_mod::lemma_mod_self_0(a as int);
            vstd::arithmetic::div_mod::lemma_small_mod(0, a as nat);
        }
        a
    } else {
        let r = a % b;
        let g = gcd128(b, r);
        proof {
            vstd::arithmetic::div_mod::lemma_fundamental_div_mod(a as int, b as int);
            vstd::arithmetic::div_mod::lemma_fundamental_div_mod(b as int, g as int);
            vstd::arithmetic::div_mod::lemma_fundamental_div_mod(r as int, g as int);
            let t = (a as int / b as int) * (b as int / g as int) + (r as int / g as int);
            assert(a as int == t * (g as int)) by (nonlinear_arith)
                requires
                    a as int == (b as int) * (a as int / b as int) + (a as int % b as int),
                    r as int == a as int % b as int,
                    b as int == (g as int) * (b as int / g as int) + (b as int % g as int),
                    r as int == (g as int) * (r as int / g as int) + (r as int % g as int),
                    b as int % g as int == 0,
                    r as int % g as int == 0,
                    t == (a as int / b as int) * (b as int / g as int) + (r as int / g as int),
            ;
            vstd::arithmetic::div_mod::lemma_mod_multiples_basic(t, g as int);
            assert(g as int <= a as int) by (nonlinear_arith)
                requires
                    a as int == t * (g as int),
                    a >= 1,
                    g >= 1,
            ;
        }
        g
    }
}

/// Numerator of the canonical (fully reduced) form of `n / d`.
pub open spec fn canon_num(n: int, d: int) -> int {
    n / (gcd_spec(d as nat, abs_int(n)) as int)
}

/// Denominator of the canonical (fully reduced) form of `n / d`.
pub open spec fn canon_den(n: int, d: int) -> int {
    d / (gcd_spec(d as nat, abs_int(n)) as int)
}

/// The canonical form of `n / d` as a fraction (meaningful when it fits).
pub open spec fn canon_frac_spec(n: int, d: int) -> Frac {
    Frac { num: canon_num(n, d) as i64, den: canon_den(n, d) as i64 }
}

/// The canonical form of `n / d` fits the `i64` fraction fields.
pub open spec fn canon_fits(n: int, d: int) -> bool {
    fits_i64(canon_num(n, d)) && fits_i64(canon_den(n, d))
}

/// Build the canonical fraction for the exact value `n / d`, computed in
/// wide intermediates. The answer is `None` exactly when even the fully
/// reduced form does not fit the `i64` fields; a `Some` answer carries
/// exactly the value `n / d`.
pub fn canon_frac(n: i128, d: i128) -> (r: Option<Frac>)
    requires
        1 <= d <= 0x4000_0000_0000_0000_0000_0000_0000_0000,
        -0x4000_0000_0000_0000_0000_0000_0000_0000 <= n
            <= 0x4000_0000_0000_0000_0000_0000_0000_0000,
    ensures
        match r {
            Some(f) => f.wf() && f == canon_frac_spec(n as int, d as int) && (f.num as int) * d
                == n * (f.den as int),
            None => !canon_fits(n as int, d as int),
        },
        r is Some <==> canon_fits(n as int, d as int),
{
    let na: u128 = if n >= 0 {
        n as u128
    } else {
        (-n) as u128
    };
    proof {
        assert(na as nat == abs_int(n as int));
    }
    let g = gcd128(d as u128, na);
    let ndw = (d as u128) / g;
    let mw = na / g;
    proof {
        let gi = g as int;
        vstd::arithmetic::div_mod::lemma_fundamental_div_mod(d as int, gi);
        vstd::arithmetic::div_mod::lemma_fundamental_div_mod(na as int, gi);
        assert(ndw as int == d as int / gi);
        assert(ndw >= 1) by (nonlinear_arith)
            requires
                d as int == gi * (ndw as int),
                d >= 1,
                gi >= 1,
                ndw >= 0,
        ;
        // the numerator quotient is exact, with the numerator's sign
        if n < 0 {
            assert(n as int == (-(mw as int)) * gi + 0) by (nonlinear_arith)
                requires
                    na as int == gi * (mw as int),
                    n as int == -(na as int),
            ;
            vstd::arithmetic::div_mod::lemma_fundamental_div_mod_converse_div(
                n as int,
                gi,
                -(mw as int),
                0,
            );
        }
        assert(mw as int == abs_int(n as int / gi)) by (nonlinear_arith)
            requires
                n >= 0 ==> n as int / gi == mw as int,
                n < 0 ==> n as int / gi == -(mw as int),
                mw >= 0,
        ;
    }
    let num_fits: bool = if n < 0 {
        mw <= 0x8000_0000_0000_0000u128
    } else {
        mw <= 0x7fff_ffff_ffff_ffffu128
    };
    if ndw > 0x7fff_ffff_ffff_ffffu128 || !num_fits {
        return None;
    }
    let nd = ndw as i64;
    let nn: i64 = if n < 0 {
        if mw == 0x8000_0000_0000_0000u128 {
            i64::MIN
        } else {
            -(mw as i64)
        }
    } else {
        mw as i64
    };
    proof {
        let gi = g as int;
        // the quotients are exact, so the value is preserved
        assert(n as int == gi * (nn as int)) by (nonlinear_arith)
            requires
                na as int == gi * (mw as int),
                n >= 0 ==> n as int == na as int && nn as int == mw as int,
                n < 0 ==> n as int == -(na as int) && nn as int == -(mw as int),
        ;
        assert((nn as int) * (d as int) == (n as int) * (nd as int)) by (nonlinear_arith)
            requires
                n as int == gi * (nn as int),
                d as int == gi * (nd as int),
        ;
    }
    Some(Frac { num: nn, den: nd })
}

/// Exact sum `a + b`, or `None` when a field of the exact result does not
/// fit in `i64`.
pub fn frac_add(a: Frac, b: Frac) -> (r: Option<Frac>)
    requires
        a.wf(),
        b.wf(),
    ensures
        match r {
            Some(f) => f.wf() && f.num == a.num * b.den + b.num * a.den && f.den == a.den
                * b.den,
            None => !(fits_i64(a.num * b.den + b.num * a.den) && fits_i64(a.den * b.den)),
        },
{
    proof {
        lemma_i64_mul_pos_bounds(a.num as int, b.den as int);
        lemma_i64_mul_pos_bounds(b.num as int, a.den as int);
        lemma_i64_mul_pos_bounds(a.den as int, b.den as int);
        lemma_pos_mul_pos(a.den as int, b.den as int);
    }
    let n: i128 = a.num as i128 * b.den as i128 + b.num as i128 * a.den as i128;
    let d: i128 = a.den as i128 * b.den as i128;
    if n >= i64::MIN as i128 && n <= i64::MAX as i128 && d <= i64::MAX as i128 {
        Some(Frac { num: n as i64, den: d as i64 })
    } else {
        None
    }
}

/// Exact difference `a - b`, or `None` when a field of the exact result does
/// not fit in `i64`.
pub fn frac_sub(a: Frac, b: Frac) -> (r: Option<Frac>)
    requires
        a.wf(),
        b.wf(),
    ensures
        match r {
            Some(f) => f.wf() && f.num == a.num * b.den - b.num * a.den && f.den == a.den
                * b.den,
            None => !(fits_i64(a.num * b.den - b.num * a.den) && fits_i64(a.den * b.den)),
        },
{
    proof {
        lemma_i64_mul_pos_bounds(a.num as int, b.den as int);
        lemma_i64_mul_pos_bounds(b.num as int, a.den as int);
        lemma_i64_mul_pos_bounds(a.den as int, b.den as int);
        lemma_pos_mul_pos(a.den as int, b.den as int);
    }
    let n: i128 = a.num as i128 * b.den as i128 - b.num as i128 * a.den as i128;
    let d: i128 = a.den as i128 * b.den as i128;
    if n >= i64::MIN as i128 && n <= i64::MAX as i128 && d <= i64::MAX as i128 {
        Some(Frac { num: n as i64, den: d as i64 })
    } else {
        None
    }
}

/// Exact product `a * b`, or `None` when a field of the exact result does
/// not fit in `i64`.
pub fn frac_mul(a: Frac, b: Frac) -> (r: Option<Frac>)
    requires
        a.wf(),
        b.wf(),
    ensures
        match r {
            Some(f) => f.wf() && f.num == a.num * b.num && f.den == a.den * b.den,
            None => !(fits_i64(a.num * b.num) && fits_i64(a.den * b.den)),
        },
{
    proof {
        lemma_i64_mul_bounds(a.num as int, b.num as int);
        lemma_i64_mul_pos_bounds(a.den as int, b.den as int);
        lemma_pos_mul_pos(a.den as int, b.den as int);
    }
    let n: i128 = a.num as i128 * b.num as i128;
    let d: i128 = a.den as i128 * b.den as i128;
    if n >= i64::MIN as i128 && n <= i64::MAX as i128 && d <= i64::MAX as i128 {
        Some(Frac { num: n as i64, den: d as i64 })
    } else {
        None
    }
}

/// Exact quotient `a / b` for a strictly positive `b`, or `None` when a
/// field of the exact result does not fit in `i64`.
pub fn frac_div_pos(a: Frac, b: Frac) -> (r: Option<Frac>)
    requires
        a.wf(),
        b.wf(),
        b.num > 0,
    ensures
        match r {
            Some(f) => f.wf() && f.num == a.num * b.den && f.den == a.den * b.num,
            None => !(fits_i64(a.num * b.den) && fits_i64(a.den * b.num)),
        },
{
    proof {
        lemma_i64_mul_pos_bounds(a.num as int, b.den as int);
        lemma_i64_mul_pos_bounds(a.den as int, b.num as int);
        lemma_pos_mul_pos(a.den as int, b.num as int);
    }
    let n: i128 = a.num as i128 * b.den as i128;
    let d: i128 = a.den as i128 * b.num as i128;
    if n >= i64::MIN as i128 && n <= i64::MAX as i128 && d <= i64::MAX as i128 {
        Some(Frac { num: n as i64, den: d as i64 })
    } else {
        None
    }
}

} // verus!
