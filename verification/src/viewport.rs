//! The pan/zoom transform between world and screen coordinates.
//!
//! Zoom is perceptually linear (a wheel tick adds a constant) while scale
//! must stay positive and multiplicative, so scale is exponential in zoom:
//! a whole zoom step doubles the scale. Zoom is held in tenths of a zoom
//! unit ("decis"); the scale at `d` decis is 2^(d/10), carried as an exact
//! fraction from a fixed ladder in 2^-32ths whose entries are the nearest
//! representable values (relative error below 2^-32, far inside the 1e-6
//! tolerance the transform owes). The origin lives on a fixed grid of
//! 2^-24 pixel: each wheel event computes the pivot-preserving origin
//! correction exactly and rounds it to the nearest grid point, so the
//! world point under the cursor moves by at most half a grid cell - about
//! 3e-8 of a pixel - and denominators never grow, however many events
//! arrive. Screen = world * scale + origin; world = (screen - origin) /
//! scale.
use vstd::prelude::*;
use vstd::arithmetic::power2::*;
use vstd::arithmetic::div_mod::{
    lemma_fundamental_div_mod,
    lemma_fundamental_div_mod_converse_div,
    lemma_fundamental_div_mod_converse_mod,
};
use crate::frac::{Frac, fits_i64, canon_frac, canon_frac_spec, canon_fits};
use crate::geom::{Point2, ScreenPoint};

verus! {

/// Zoom change per wheel tick, in tenths of a zoom unit. Negative so that
/// scrolling forward (negative wheel delta) zooms in.
pub const ZOOM_SPEED_DECIS: i64 = -1;

/// Zoom saturates at +/- this many tenths of a zoom unit (the exact scale
/// fractions must stay representable in `i64` fields).
pub const MAX_ZOOM_DECIS: i64 = 250;

/// The origin's fixed denominator: its coordinates live on a grid of
/// 2^-24 pixel.
pub const GRID_DEN: i64 = 0x100_0000;

/// Screen coordinates beyond this magnitude are rejected as nonsense (no
/// physical screen reaches them); events carrying them are dropped whole.
pub const MAX_CURSOR_ABS: i64 = 0x8000_0000;

/// The scale ladder within one zoom decade: entry `r` is the nearest
/// multiple of 2^-32 to 2^(r/10), starting exactly at 2^32/2^32 = 1.
pub open spec fn step_val(r: int) -> int {
    if r == 0 {
        0x1_0000_0000
    } else if r == 1 {
        4603231970
    } else if r == 2 {
        4933621868
    } else if r == 3 {
        5287724992
    } else if r == 4 {
        5667243324
    } else if r == 5 {
        6074001000
    } else if r == 6 {
        6509953083
    } else if r == 7 {
        6977194957
    } else if r == 8 {
        7477972398
    } else {
        8014692369
    }
}

/// Numerator of the scale at `d` tenths of a zoom unit.
pub open spec fn scale_num_spec(d: int) -> int {
    if d / 10 >= 0 {
        step_val(d % 10) * pow2((d / 10) as nat) as int
    } else {
        step_val(d % 10)
    }
}

/// Denominator of the scale at `d` tenths of a zoom unit.
pub open spec fn scale_den_spec(d: int) -> int {
    if d / 10 >= 0 {
        0x1_0000_0000
    } else {
        0x1_0000_0000 * pow2((-(d / 10)) as nat) as int
    }
}

/// The ladder entry for a decile, as executable code.
fn step_of(rem: i64) -> (r: i64)
    requires
        0 <= rem <= 9,
    ensures
        r == step_val(rem as int),
        0x1_0000_0000 <= r <= 8014692369,
{
    match rem {
        0 => 0x1_0000_0000,
        1 => 4603231970,
        2 => 4933621868,
        3 => 5287724992,
        4 => 5667243324,
        5 => 6074001000,
        6 => 6509953083,
        7 => 6977194957,
        8 => 7477972398,
        _ => 8014692369,
    }
}

/// 2^e for small exponents, as executable code.
fn pow2_exec(e: u32) -> (r: i64)
    requires
        e <= 32,
    ensures
        r == pow2(e as nat),
        1 <= r <= 0x1_0000_0000,
{
    proof {
        lemma2_to64();
    }
    let mut acc: i64 = 1;
    let mut i: u32 = 0;
    while i < e
        invariant
            i <= e <= 32,
            acc == pow2(i as nat),
            1 <= acc <= 0x1_0000_0000,
        decreases e - i,
    {
        proof {
            lemma2_to64();
            lemma_pow2_unfold((i + 1) as nat);
            if (i as nat) < 32 {
                lemma_pow2_strictly_increases(i as nat, 32);
            }
        }
        acc = acc * 2;
        i = i + 1;
    }
    acc
}

/// Decompose `d + 250` by ten to obtain the Euclidean quotient and
/// remainder of `d` itself.
fn decis_quot_rem(d: i64) -> (r: (i64, i64))
    requires
        -250 <= d <= 250,
    ensures
        r.0 == d as int / 10,
        r.1 == d as int % 10,
        -25 <= r.0 <= 25,
        0 <= r.1 <= 9,
{
    let e: u64 = (d + 250) as u64;
    let q10: u64 = e / 10;
    let rem: u64 = e % 10;
    proof {
        lemma_fundamental_div_mod(e as int, 10);
        assert(d as int == (q10 as int - 25) * 10 + rem as int) by (nonlinear_arith)
            requires
                e as int == 10 * (q10 as int) + rem as int,
                d as int == e as int - 250,
        ;
        lemma_fundamental_div_mod_converse_div(d as int, 10, q10 as int - 25, rem as int);
        lemma_fundamental_div_mod_converse_mod(d as int, 10, q10 as int - 25, rem as int);
    }
    ((q10 as i64) - 25, rem as i64)
}

/// The exact scale fraction at `d` tenths of a zoom unit.
pub fn scale_of_decis(d: i64) -> (r: Frac)
    requires
        -MAX_ZOOM_DECIS <= d <= MAX_ZOOM_DECIS,
    ensures
        r.num == scale_num_spec(d as int),
        r.den == scale_den_spec(d as int),
        1 <= r.num <= 0x400_0000_0000_0000,
        1 <= r.den <= 0x200_0000_0000_0000,
        r.wf(),
{
    let (q, rem) = decis_quot_rem(d);
    let sv = step_of(rem);
    if q >= 0 {
        let p = pow2_exec(q as u32);
        proof {
            lemma2_to64();
            if (q as nat) < 25 {
                lemma_pow2_strictly_increases(q as nat, 25);
            }
            assert(1 <= sv * p <= 0x400_0000_0000_0000) by (nonlinear_arith)
                requires
                    0x1_0000_0000 <= sv <= 8014692369,
                    1 <= p <= 0x200_0000,
            ;
        }
        Frac { num: sv * p, den: 0x1_0000_0000 }
    } else {
        let p = pow2_exec((-q) as u32);
        proof {
            lemma2_to64();
            if ((-q) as nat) < 25 {
                lemma_pow2_strictly_increases((-q) as nat, 25);
            }
            assert(1 <= 0x1_0000_0000 * p <= 0x200_0000_0000_0000) by (nonlinear_arith)
                requires
                    1 <= p <= 0x200_0000,
            ;
        }
        Frac { num: sv, den: 0x1_0000_0000 * p }
    }
}

/// Numerator of the exact scale change of a single wheel tick from `oldz`
/// to `newz` tenths (the two differ by one).
pub open spec fn ratio_num_spec(oldz: int, newz: int) -> int {
    if newz == oldz - 1 {
        if oldz % 10 >= 1 {
            step_val(oldz % 10 - 1)
        } else {
            step_val(9)
        }
    } else {
        if oldz % 10 <= 8 {
            step_val(oldz % 10 + 1)
        } else {
            2 * step_val(0)
        }
    }
}

/// Denominator of the exact scale change of a single wheel tick.
pub open spec fn ratio_den_spec(oldz: int, newz: int) -> int {
    if newz == oldz - 1 {
        if oldz % 10 >= 1 {
            step_val(oldz % 10)
        } else {
            2 * step_val(0)
        }
    } else {
        if oldz % 10 <= 8 {
            step_val(oldz % 10)
        } else {
            step_val(9)
        }
    }
}

/// The single-tick scale change equals the quotient of the two scales:
/// ratio == scale(newz) / scale(oldz), stated by cross-multiplication.
pub open spec fn ratio_matches_scales(oldz: int, newz: int) -> bool {
    ratio_num_spec(oldz, newz) * (scale_den_spec(newz) * scale_num_spec(oldz))
        == scale_num_spec(newz) * (scale_den_spec(oldz) * ratio_den_spec(oldz, newz))
}

/// The exact scale change of a single wheel tick, as executable code,
/// proved equal to the quotient of the old and new scale.
fn wheel_ratio(oldz: i64, newz: i64) -> (r: (i64, i64))
    requires
        -MAX_ZOOM_DECIS <= oldz <= MAX_ZOOM_DECIS,
        -MAX_ZOOM_DECIS <= newz <= MAX_ZOOM_DECIS,
        newz == oldz + 1 || newz == oldz - 1,
    ensures
        r.0 == ratio_num_spec(oldz as int, newz as int),
        r.1 == ratio_den_spec(oldz as int, newz as int),
        1 <= r.0 <= 0x2_0000_0000,
        1 <= r.1 <= 0x2_0000_0000,
        ratio_matches_scales(oldz as int, newz as int),
{
    let (q, rem) = decis_quot_rem(oldz);
    let down = newz == oldz - 1;
    let result = if down {
        if rem >= 1 {
            (step_of(rem - 1), step_of(rem))
        } else {
            (8014692369, 0x2_0000_0000)
        }
    } else {
        if rem <= 8 {
            (step_of(rem + 1), step_of(rem))
        } else {
            (0x2_0000_0000, 8014692369)
        }
    };
    proof {
        lemma_wheel_ratio_matches(oldz as int, newz as int);
    }
    result
}

/// Decomposing a neighbouring decis value: if `d == 10 * q + r` with the
/// remainder in range, then `q` and `r` are its quotient and remainder.
proof fn lemma_decompose(d: int, q: int, r: int)
    requires
        0 <= r < 10,
        d == 10 * q + r,
    ensures
        d / 10 == q,
        d % 10 == r,
{
    lemma_fundamental_div_mod_converse_div(d, 10, q, r);
    lemma_fundamental_div_mod_converse_mod(d, 10, q, r);
    assert(q * 10 == 10 * q) by (nonlinear_arith);
}

/// The single-tick ratio really is the quotient of the neighbouring scales.
proof fn lemma_wheel_ratio_matches(oldz: int, newz: int)
    requires
        -250 <= oldz <= 250,
        -250 <= newz <= 250,
        newz == oldz + 1 || newz == oldz - 1,
    ensures
        ratio_matches_scales(oldz, newz),
{
    let q = oldz / 10;
    let r = oldz % 10;
    lemma_fundamental_div_mod(oldz, 10);
    lemma2_to64();
    if newz == oldz - 1 {
        if r >= 1 {
            // same decade: newz == 10 * q + (r - 1)
            lemma_decompose(newz, q, r - 1);
            if q >= 0 {
                assert(step_val(r - 1) * (0x1_0000_0000 * (step_val(r) * pow2(q as nat)))
                    == (step_val(r - 1) * pow2(q as nat)) * (0x1_0000_0000 * step_val(r)))
                    by (nonlinear_arith);
            }
        } else {
            // decade boundary: newz == 10 * (q - 1) + 9
            lemma_decompose(newz, q - 1, 9);
            if q >= 1 {
                lemma_pow2_unfold(q as nat);
                let ph = pow2((q - 1) as nat);
                assert(step_val(9) * (0x1_0000_0000 * (0x1_0000_0000 * (2 * ph))) == (step_val(
                    9,
                ) * ph) * (0x1_0000_0000 * (2 * 0x1_0000_0000))) by (nonlinear_arith);
            } else if q == 0 {
                // old scale one, new scale one ladder step below
                assert(pow2(0) == 1 && pow2(1) == 2);
                assert(step_val(9) * ((0x1_0000_0000 * 2) * (0x1_0000_0000 * 1)) == step_val(9)
                    * ((0x1_0000_0000 * 1) * (2 * 0x1_0000_0000))) by (nonlinear_arith);
            } else {
                // q <= -1: denominators double
                let pq = pow2((-q) as nat);
                lemma_pow2_unfold((1 - q) as nat);
                assert(pow2((1 - q) as nat) == 2 * pq);
                assert(step_val(9) * ((0x1_0000_0000 * (2 * pq)) * 0x1_0000_0000) == step_val(9)
                    * ((0x1_0000_0000 * pq) * (2 * 0x1_0000_0000))) by (nonlinear_arith);
            }
        }
    } else {
        if r <= 8 {
            // same decade: newz == 10 * q + (r + 1)
            lemma_decompose(newz, q, r + 1);
            if q >= 0 {
                assert(step_val(r + 1) * (0x1_0000_0000 * (step_val(r) * pow2(q as nat)))
                    == (step_val(r + 1) * pow2(q as nat)) * (0x1_0000_0000 * step_val(r)))
                    by (nonlinear_arith);
            }
        } else {
            // decade boundary: newz == 10 * (q + 1)
            lemma_decompose(newz, q + 1, 0);
            if q >= 0 {
                lemma_pow2_unfold((q + 1) as nat);
                let pq = pow2(q as nat);
                assert((2 * 0x1_0000_0000) * (0x1_0000_0000 * (step_val(9) * pq)) == (
                0x1_0000_0000 * (2 * pq)) * (0x1_0000_0000 * step_val(9))) by (nonlinear_arith);
            } else if q == -1 {
                // old scale one ladder step below one, new scale one
                assert(pow2(0) == 1 && pow2(1) == 2);
                assert((2 * 0x1_0000_0000) * (0x1_0000_0000 * step_val(9)) == (0x1_0000_0000
                    * 1) * ((0x1_0000_0000 * 2) * step_val(9))) by (nonlinear_arith);
            } else {
                // q <= -2: denominators halve
                let pq = pow2((-q) as nat);
                lemma_pow2_unfold((-q) as nat);
                let ps = pow2((-q - 1) as nat);
                assert(pq == 2 * ps);
                assert((2 * 0x1_0000_0000) * ((0x1_0000_0000 * ps) * step_val(9))
                    == 0x1_0000_0000 * ((0x1_0000_0000 * (2 * ps)) * step_val(9)))
                    by (nonlinear_arith);
            }
        }
    }
}

/// The scale is positive at every zoom: numerator and denominator are at
/// least one.
pub proof fn lemma_scale_spec_pos(d: int)
    ensures
        scale_num_spec(d) >= 1,
        scale_den_spec(d) >= 1,
{
    let q = d / 10;
    if q >= 0 {
        lemma_pow2_pos(q as nat);
        assert(step_val(d % 10) * pow2(q as nat) >= 1) by (nonlinear_arith)
            requires
                step_val(d % 10) >= 1,
                pow2(q as nat) >= 1,
        ;
    } else {
        lemma_pow2_pos((-q) as nat);
        assert(0x1_0000_0000 * pow2((-q) as nat) >= 1) by (nonlinear_arith)
            requires
                pow2((-q) as nat) >= 1,
        ;
    }
}

/// Law: the scale ladder is strictly increasing tick by tick - every
/// wheel step changes the scale in the same direction, with no flat spots
/// (cross-multiplied comparison of neighbouring scales).
pub proof fn lemma_decis_scale_strictly_increasing(d: int)
    requires
        -MAX_ZOOM_DECIS <= d < MAX_ZOOM_DECIS,
    ensures
        scale_num_spec(d) * scale_den_spec(d + 1) < scale_num_spec(d + 1) * scale_den_spec(d),
{
    lemma_wheel_ratio_matches(d, d + 1);
    lemma_scale_spec_pos(d);
    lemma_scale_spec_pos(d + 1);
    let rn = ratio_num_spec(d, d + 1);
    let rd = ratio_den_spec(d, d + 1);
    let sn = scale_num_spec(d);
    let sd = scale_den_spec(d);
    let tn = scale_num_spec(d + 1);
    let td = scale_den_spec(d + 1);
    // one step up always multiplies the scale by more than one
    assert(1 <= rd < rn);
    // rn * (td * sn) == tn * (sd * rd), so sn * td * rd < tn * sd * rd
    assert((sn * td) * rd < (tn * sd) * rd) by (nonlinear_arith)
        requires
            rn * (td * sn) == tn * (sd * rd),
            1 <= rd < rn,
            sn >= 1,
            td >= 1,
    ;
    assert(sn * td < tn * sd) by (nonlinear_arith)
        requires
            (sn * td) * rd < (tn * sd) * rd,
            rd >= 1,
    ;
}

/// Numerator of the scale of a whole zoom value `z`: scale(z) = 2^z.
pub open spec fn zoom_scale_num(z: int) -> int {
    if z >= 0 {
        pow2(z as nat) as int
    } else {
        1
    }
}

/// Denominator of the scale of a whole zoom value `z`.
pub open spec fn zoom_scale_den(z: int) -> int {
    if z >= 0 {
        1
    } else {
        pow2((-z) as nat) as int
    }
}

/// The scale of a whole zoom value: 2^z, exactly. Zoom is linear and
/// unbounded in principle; scale is logarithmic and positive; base two
/// keeps doubling and halving at integral zoom steps.
pub fn zoom_to_scale(z: i64) -> (r: Frac)
    requires
        -32 <= z <= 32,
    ensures
        r.num == zoom_scale_num(z as int),
        r.den == zoom_scale_den(z as int),
        r.num >= 1,
        r.wf(),
{
    proof {
        lemma_pow2_pos(0);
    }
    if z >= 0 {
        Frac { num: pow2_exec(z as u32), den: 1 }
    } else {
        Frac { num: 1, den: pow2_exec((-z) as u32) }
    }
}

/// Law: the zoom-to-scale map takes zero to one, one to two and minus one
/// to one half - zoom steps double or halve the scale around unit scale.
pub proof fn lemma_zoom_scale_fixed_points()
    ensures
        zoom_scale_num(0) == 1 && zoom_scale_den(0) == 1,
        zoom_scale_num(1) == 2 && zoom_scale_den(1) == 1,
        zoom_scale_num(-1) == 1 && zoom_scale_den(-1) == 2,
{
    lemma2_to64();
}

/// Law: the zoom-to-scale map is strictly increasing - a larger zoom value
/// always yields a strictly larger scale (cross-multiplied comparison).
pub proof fn lemma_zoom_scale_strictly_increasing(z1: int, z2: int)
    requires
        z1 < z2,
    ensures
        zoom_scale_num(z1) * zoom_scale_den(z2) < zoom_scale_num(z2) * zoom_scale_den(z1),
{
    lemma2_to64();
    if 0 <= z1 {
        lemma_pow2_strictly_increases(z1 as nat, z2 as nat);
    } else if 0 <= z2 {
        // z1 < 0 <= z2: compare 1 * 1 with 2^z2 * 2^(-z1) >= 1 * 2
        lemma_pow2_pos(z2 as nat);
        lemma_pow2_strictly_increases(0, (-z1) as nat);
        assert(1 * 1 < pow2(z2 as nat) * pow2((-z1) as nat)) by (nonlinear_arith)
            requires
                pow2(z2 as nat) >= 1,
                pow2((-z1) as nat) >= 2,
        ;
    } else {
        lemma_pow2_strictly_increases((-z2) as nat, (-z1) as nat);
    }
}

/// Law: at whole zoom values the tenth-of-a-unit scale agrees exactly with
/// the zoom-to-scale map - every ten wheel ticks the scale has doubled (or
/// halved) exactly.
pub proof fn lemma_decis_scale_matches_whole_zoom(z: int)
    requires
        -25 <= z <= 25,
    ensures
        scale_num_spec(10 * z) * zoom_scale_den(z) == zoom_scale_num(z) * scale_den_spec(10 * z),
{
    lemma_decompose(10 * z, z, 0);
    lemma2_to64();
    if z >= 0 {
        assert((0x1_0000_0000 * pow2(z as nat)) * 1 == pow2(z as nat) * 0x1_0000_0000)
            by (nonlinear_arith);
    } else {
        assert(0x1_0000_0000 * pow2((-z) as nat) == 1 * (0x1_0000_0000 * pow2((-z) as nat)))
            by (nonlinear_arith);
    }
}

/// The viewport: zoom in tenths of a unit, the world-to-screen origin
/// offset on the fixed grid, and whether a pan drag is in progress.
#[derive(Clone, Copy, Debug)]
pub struct Viewport {
    pub zoom_decis: i64,
    pub origin: Point2,
    pub dragging: bool,
}

/// Numerator of the world x-coordinate of screen point `px` under
/// viewport `v`: world = (screen - origin) / scale.
pub open spec fn world_x_num(v: Viewport, px: int) -> int {
    (px * v.origin.x.den - v.origin.x.num) * scale_den_spec(v.zoom_decis as int)
}

/// Denominator of the world x-coordinate under viewport `v`.
pub open spec fn world_x_den(v: Viewport) -> int {
    v.origin.x.den * scale_num_spec(v.zoom_decis as int)
}

/// Numerator of the world y-coordinate of screen point `py` under
/// viewport `v`.
pub open spec fn world_y_num(v: Viewport, py: int) -> int {
    (py * v.origin.y.den - v.origin.y.num) * scale_den_spec(v.zoom_decis as int)
}

/// Denominator of the world y-coordinate under viewport `v`.
pub open spec fn world_y_den(v: Viewport) -> int {
    v.origin.y.den * scale_num_spec(v.zoom_decis as int)
}

/// The point lies within the accepted screen coordinate range.
pub open spec fn in_screen_range(p: ScreenPoint) -> bool {
    &&& -MAX_CURSOR_ABS <= p.x <= MAX_CURSOR_ABS
    &&& -MAX_CURSOR_ABS <= p.y <= MAX_CURSOR_ABS
}

/// The canonical forms of both world coordinates of screen point `p`
/// under viewport `v` fit the `i64` fraction fields.
pub open spec fn world_fits(v: Viewport, p: ScreenPoint) -> bool {
    &&& in_screen_range(p)
    &&& canon_fits(world_x_num(v, p.x as int), world_x_den(v))
    &&& canon_fits(world_y_num(v, p.y as int), world_y_den(v))
}

/// The world point shown at screen point `p` under viewport `v`, in
/// canonical form (meaningful when it fits).
pub open spec fn world_point_spec(v: Viewport, p: ScreenPoint) -> Point2 {
    Point2 {
        x: canon_frac_spec(world_x_num(v, p.x as int), world_x_den(v)),
        y: canon_frac_spec(world_y_num(v, p.y as int), world_y_den(v)),
    }
}

/// The zoom value one wheel event moves to: a tick in the direction of
/// the wheel delta, scaled by the (negative) zoom speed.
pub open spec fn wheel_target(z: int, delta_y: int) -> int {
    z + (if delta_y > 0 {
        1int
    } else {
        -1int
    }) * (ZOOM_SPEED_DECIS as int)
}

/// Division rounded to the nearest integer, halves away from the floor
/// (Euclidean), for a positive divisor.
pub open spec fn round_div(a: int, b: int) -> int {
    (2 * a + b) / (2 * b)
}

/// Numerator of the exact (unrounded) origin correction for one axis:
/// o' = c - (c - o) * ratio.
pub open spec fn wheel_raw_num(o: Frac, c: int, rn: int, rd: int) -> int {
    c * (o.den * rd) - (c * o.den - o.num) * rn
}

/// Denominator of the exact origin correction for one axis.
pub open spec fn wheel_raw_den(o: Frac, rd: int) -> int {
    o.den * rd
}

/// The exact origin correction rounded to the nearest grid point, as a
/// numerator over `GRID_DEN`.
pub open spec fn wheel_rounded_num(o: Frac, c: int, rn: int, rd: int) -> int {
    round_div(wheel_raw_num(o, c, rn, rd) * (GRID_DEN as int), wheel_raw_den(o, rd))
}

/// The rounded origin coordinate of this axis fits an `i64` numerator.
pub open spec fn wheel_axis_fits(o: Frac, c: int, rn: int, rd: int) -> bool {
    fits_i64(wheel_rounded_num(o, c, rn, rd))
}

/// The world point under screen point `p` moves from viewport `a` to
/// viewport `b` by at most half an origin grid cell divided by `b`'s
/// scale - about 2^-25 of a pixel reprojected to world space. Stated by
/// cross-multiplication: the cross-difference of the two world
/// coordinates is bounded by half the product of `a`'s origin
/// denominator, `a`'s scale numerator and `b`'s scale denominator.
pub open spec fn pivot_within_grid(a: Viewport, b: Viewport, p: ScreenPoint) -> bool {
    let mx = a.origin.x.den * scale_num_spec(a.zoom_decis as int) * scale_den_spec(
        b.zoom_decis as int,
    );
    let ax = world_x_num(b, p.x as int) * world_x_den(a) - world_x_num(a, p.x as int)
        * world_x_den(b);
    let my = a.origin.y.den * scale_num_spec(a.zoom_decis as int) * scale_den_spec(
        b.zoom_decis as int,
    );
    let ay = world_y_num(b, p.y as int) * world_y_den(a) - world_y_num(a, p.y as int)
        * world_y_den(b);
    &&& -mx <= 2 * ax <= mx
    &&& -my <= 2 * ay <= my
}

/// The viewport a pan event leaves behind: the raw screen delta added to
/// the origin while dragging; unchanged without a drag or when the exact
/// sum does not fit the fraction fields.
pub open spec fn pan_result(v: Viewport, dx: int, dy: int) -> Viewport {
    if v.dragging && fits_i64(v.origin.x.num + dx * v.origin.x.den) && fits_i64(
        v.origin.y.num + dy * v.origin.y.den,
    ) {
        Viewport {
            origin: Point2 {
                x: Frac {
                    num: (v.origin.x.num + dx * v.origin.x.den) as i64,
                    den: v.origin.x.den,
                },
                y: Frac {
                    num: (v.origin.y.num + dy * v.origin.y.den) as i64,
                    den: v.origin.y.den,
                },
            },
            ..v
        }
    } else {
        v
    }
}

/// The viewport a wheel event leaves behind: one zoom tick toward the
/// wheel direction with the pivot-preserving origin correction rounded to
/// the origin grid; unchanged for out-of-range screen coordinates, at the
/// zoom band's edge, or when a rounded coordinate does not fit.
pub open spec fn wheel_result(v: Viewport, delta_y: int, c: ScreenPoint) -> Viewport {
    let t = wheel_target(v.zoom_decis as int, delta_y);
    let rn = ratio_num_spec(v.zoom_decis as int, t);
    let rd = ratio_den_spec(v.zoom_decis as int, t);
    if in_screen_range(c) && -MAX_ZOOM_DECIS <= t <= MAX_ZOOM_DECIS && wheel_axis_fits(
        v.origin.x,
        c.x as int,
        rn,
        rd,
    ) && wheel_axis_fits(v.origin.y, c.y as int, rn, rd) {
        Viewport {
            zoom_decis: t as i64,
            origin: Point2 {
                x: Frac {
                    num: wheel_rounded_num(v.origin.x, c.x as int, rn, rd) as i64,
                    den: GRID_DEN,
                },
                y: Frac {
                    num: wheel_rounded_num(v.origin.y, c.y as int, rn, rd) as i64,
                    den: GRID_DEN,
                },
            },
            dragging: v.dragging,
        }
    } else {
        v
    }
}

/// Core algebra of the pivot property for one axis: if the tick ratio is
/// the quotient of the scales, the exactly corrected origin maps the
/// cursor to the same world coordinate as before.
proof fn lemma_pivot_axis(
    mn: int,
    od: int,
    rn: int,
    rd: int,
    sno: int,
    sdo: int,
    snn: int,
    sdn: int,
)
    requires
        rn * (sdn * sno) == snn * (sdo * rd),
    ensures
        ((mn * rn) * sdn) * (od * sno) == (mn * sdo) * ((od * rd) * snn),
{
    assert(((mn * rn) * sdn) * (od * sno) == (mn * od) * (rn * (sdn * sno)))
        by (nonlinear_arith);
    assert((mn * sdo) * ((od * rd) * snn) == (mn * od) * (snn * (sdo * rd)))
        by (nonlinear_arith);
}

/// The pivot property through the rounding, for one axis: the corrected
/// origin coordinate, rounded to the nearest grid point, moves the world
/// coordinate under the cursor by at most half a grid cell over the new
/// scale (stated by a bounded cross-difference).
proof fn lemma_wheel_pivot_axis_rounded(
    c: int,
    o: Frac,
    n2: int,
    rn: int,
    rd: int,
    sno: int,
    sdo: int,
    snn: int,
    sdn: int,
)
    requires
        o.den >= 1,
        rn >= 1,
        rd >= 1,
        sno >= 1,
        sdo >= 1,
        snn >= 1,
        sdn >= 1,
        rn * (sdn * sno) == snn * (sdo * rd),
        n2 == wheel_rounded_num(o, c, rn, rd),
    ensures
        ({
            let d = GRID_DEN as int;
            let a = ((c * d - n2) * sdn) * (o.den * sno) - ((c * o.den - o.num) * sdo) * (d
                * snn);
            -(o.den * sno * sdn) <= 2 * a <= o.den * sno * sdn
        }),
{
    let d = GRID_DEN as int;
    let mn = c * o.den - o.num;
    let rawn = wheel_raw_num(o, c, rn, rd);
    let rawd = wheel_raw_den(o, rd);
    assert(rawd >= 1) by (nonlinear_arith)
        requires
            rawd == o.den * rd,
            o.den >= 1,
            rd >= 1,
    ;
    // rounding characterization: n2 is the Euclidean quotient of
    // (2 * rawn * d + rawd) by (2 * rawd), so the rounding error
    // e = d * rawn - n2 * rawd satisfies -rawd <= 2 * e < rawd
    lemma_fundamental_div_mod(2 * (rawn * d) + rawd, 2 * rawd);
    let rem = (2 * (rawn * d) + rawd) % (2 * rawd);
    let e = d * rawn - n2 * rawd;
    assert(2 * e == rem - rawd) by (nonlinear_arith)
        requires
            2 * (rawn * d) + rawd == (2 * rawd) * n2 + rem,
            e == d * rawn - n2 * rawd,
    ;
    assert(0 <= rem < 2 * rawd);
    // exact pivot of the unrounded correction
    lemma_pivot_axis(mn, o.den as int, rn, rd, sno, sdo, snn, sdn);
    // the cross-difference scales with the rounding error alone:
    // a * rawd == sdn * o.den * sno * e, shown in stages
    let a = ((c * d - n2) * sdn) * (o.den * sno) - (mn * sdo) * (d * snn);
    let x = (c * d - n2) * rawd;
    let y = (mn * sdo) * (rawd * snn);
    let p = ((mn * rn) * sdn) * ((o.den as int) * sno);
    let s = sdn * ((o.den as int) * sno);
    assert(x == e + (mn * rn) * d) by (nonlinear_arith)
        requires
            x == (c * d - n2) * rawd,
            e == d * rawn - n2 * rawd,
            rawn == c * rawd - mn * rn,
    ;
    assert(p == y) by (nonlinear_arith)
        requires
            p == ((mn * rn) * sdn) * ((o.den as int) * sno),
            ((mn * rn) * sdn) * ((o.den as int) * sno) == (mn * sdo) * (((o.den as int) * rd)
                * snn),
            y == (mn * sdo) * (rawd * snn),
            rawd == (o.den as int) * rd,
    ;
    let lhs1 = ((c * d - n2) * sdn) * ((o.den as int) * sno);
    let lhs2 = (mn * sdo) * (d * snn);
    assert(a * rawd == lhs1 * rawd - lhs2 * rawd) by (nonlinear_arith)
        requires
            a == lhs1 - lhs2,
    ;
    assert(lhs1 * rawd == s * x) by (nonlinear_arith)
        requires
            lhs1 == ((c * d - n2) * sdn) * ((o.den as int) * sno),
            s == sdn * ((o.den as int) * sno),
            x == (c * d - n2) * rawd,
    ;
    assert(lhs2 * rawd == d * y) by (nonlinear_arith)
        requires
            lhs2 == (mn * sdo) * (d * snn),
            y == (mn * sdo) * (rawd * snn),
    ;
    assert(a * rawd == s * x - d * y);
    assert(a * rawd == s * e) by (nonlinear_arith)
        requires
            a * rawd == s * x - d * y,
            x == e + (mn * rn) * d,
            y == p,
            p == ((mn * rn) * sdn) * ((o.den as int) * sno),
            s == sdn * ((o.den as int) * sno),
    ;
    let m = (o.den as int) * sno * sdn;
    assert(m >= 1 && m == s) by (nonlinear_arith)
        requires
            m == (o.den as int) * sno * sdn,
            s == sdn * ((o.den as int) * sno),
            o.den >= 1,
            sno >= 1,
            sdn >= 1,
    ;
    assert(-(m * rawd) <= 2 * (a * rawd) <= m * rawd) by (nonlinear_arith)
        requires
            a * rawd == m * e,
            -rawd <= 2 * e <= rawd,
            m >= 1,
            rawd >= 1,
    ;
    assert(-m <= 2 * a <= m) by (nonlinear_arith)
        requires
            -(m * rawd) <= 2 * (a * rawd) <= m * rawd,
            rawd >= 1,
    ;
}

/// A viewport trivially keeps every world point in place against itself.
proof fn lemma_pivot_refl(v: Viewport, p: ScreenPoint)
    requires
        v.origin.x.den >= 1,
        v.origin.y.den >= 1,
    ensures
        pivot_within_grid(v, v, p),
{
    lemma_scale_spec_pos(v.zoom_decis as int);
    assert(v.origin.x.den * scale_num_spec(v.zoom_decis as int) * scale_den_spec(
        v.zoom_decis as int,
    ) >= 1) by (nonlinear_arith)
        requires
            v.origin.x.den >= 1,
            scale_num_spec(v.zoom_decis as int) >= 1,
            scale_den_spec(v.zoom_decis as int) >= 1,
    ;
    assert(v.origin.y.den * scale_num_spec(v.zoom_decis as int) * scale_den_spec(
        v.zoom_decis as int,
    ) >= 1) by (nonlinear_arith)
        requires
            v.origin.y.den >= 1,
            scale_num_spec(v.zoom_decis as int) >= 1,
            scale_den_spec(v.zoom_decis as int) >= 1,
    ;
}

/// Euclidean division of a wide value by a positive divisor, rounded to
/// the nearest integer (halves up), as executable code.
fn div_round_i128(a: i128, b: i128) -> (q: i128)
    requires
        1 <= b <= 0x2000_0000_0000_0000_0000_0000_0000_0000,
        -0x2000_0000_0000_0000_0000_0000_0000_0000 <= a
            <= 0x2000_0000_0000_0000_0000_0000_0000_0000,
    ensures
        q == round_div(a as int, b as int),
{
    let num: i128 = 2 * a + b;
    let den: i128 = 2 * b;
    if num >= 0 {
        let nw: u128 = num as u128;
        let dw: u128 = den as u128;
        let qw = nw / dw;
        let rw = nw % dw;
        proof {
            lemma_fundamental_div_mod(nw as int, dw as int);
            vstd::arithmetic::div_mod::lemma_mod_bound(nw as int, dw as int);
            assert(num as int == (den as int) * (qw as int) + rw as int);
            lemma_fundamental_div_mod_converse_div(
                num as int,
                den as int,
                qw as int,
                rw as int,
            );
        }
        qw as i128
    } else {
        let m: u128 = (-num) as u128;
        let qq = m / (den as u128);
        let rr = m % (den as u128);
        proof {
            assert(m == den as u128 * qq + rr) by {
                lemma_fundamental_div_mod(m as int, den as u128 as int);
            }
            if rr == 0 {
                assert(num as int == (-(qq as int)) * (den as int) + 0) by (nonlinear_arith)
                    requires
                        m as int == (den as int) * (qq as int) + 0,
                        num as int == -(m as int),
                ;
                lemma_fundamental_div_mod_converse_div(
                    num as int,
                    den as int,
                    -(qq as int),
                    0,
                );
            } else {
                assert(num as int == (-(qq as int) - 1) * (den as int) + (den as int - rr as int))
                    by (nonlinear_arith)
                    requires
                        m as int == (den as int) * (qq as int) + rr as int,
                        num as int == -(m as int),
                ;
                lemma_fundamental_div_mod_converse_div(
                    num as int,
                    den as int,
                    -(qq as int) - 1,
                    den as int - rr as int,
                );
            }
        }
        if rr == 0 {
            -(qq as i128)
        } else {
            -(qq as i128) - 1
        }
    }
}

/// One axis of a wheel event: the exact origin correction, rounded to
/// the nearest grid point, or `None` when the rounded numerator does not
/// fit an `i64` field.
fn wheel_axis(o: Frac, c: i64, rn: i64, rd: i64) -> (r: Option<i64>)
    requires
        o.den == GRID_DEN,
        -MAX_CURSOR_ABS <= c <= MAX_CURSOR_ABS,
        1 <= rn <= 0x2_0000_0000,
        1 <= rd <= 0x2_0000_0000,
    ensures
        match r {
            Some(n2) => n2 as int == wheel_rounded_num(o, c as int, rn as int, rd as int),
            None => !fits_i64(wheel_rounded_num(o, c as int, rn as int, rd as int)),
        },
        r is Some <==> wheel_axis_fits(o, c as int, rn as int, rd as int),
{
    proof {
        crate::frac::lemma_i64_mul_bounds(o.den as int, rd as int);
        crate::frac::lemma_i64_mul_bounds(c as int, o.den as int);
    }
    let rawd: i128 = o.den as i128 * rd as i128;
    let mn: i128 = c as i128 * o.den as i128 - o.num as i128;
    proof {
        assert(1 <= rawd <= 0x200_0000_0000_0000) by (nonlinear_arith)
            requires
                o.den == 0x100_0000,
                1 <= rd <= 0x2_0000_0000,
                rawd == o.den as i128 * rd as i128,
        ;
        assert(-0x1_0000_0000_0000_0000i128 <= mn <= 0x1_0000_0000_0000_0000i128)
            by (nonlinear_arith)
            requires
                o.den == 0x100_0000,
                -0x8000_0000 <= c <= 0x8000_0000,
                -0x8000_0000_0000_0000 <= o.num <= 0x7fff_ffff_ffff_ffff,
                mn == c as i128 * o.den as i128 - o.num as i128,
        ;
        assert(-0x1_0000_0000_0000_0000_0000_0000i128 <= (c as int) * rawd
            <= 0x1_0000_0000_0000_0000_0000_0000i128) by (nonlinear_arith)
            requires
                -0x8000_0000 <= c <= 0x8000_0000,
                1 <= rawd <= 0x200_0000_0000_0000,
        ;
        assert(-0x10_0000_0000_0000_0000_0000_0000i128 <= mn * (rn as int)
            <= 0x10_0000_0000_0000_0000_0000_0000i128) by (nonlinear_arith)
            requires
                -0x1_0000_0000_0000_0000i128 <= mn <= 0x1_0000_0000_0000_0000i128,
                1 <= rn <= 0x2_0000_0000,
        ;
    }
    let rawn: i128 = c as i128 * rawd - mn * rn as i128;
    proof {
        assert(-0x20_0000_0000_0000_0000_0000_0000i128 <= rawn
            <= 0x20_0000_0000_0000_0000_0000_0000i128) by (nonlinear_arith)
            requires
                -0x1_0000_0000_0000_0000_0000_0000i128 <= c as int * rawd
                    <= 0x1_0000_0000_0000_0000_0000_0000i128,
                -0x10_0000_0000_0000_0000_0000_0000i128 <= mn * (rn as int)
                    <= 0x10_0000_0000_0000_0000_0000_0000i128,
                rawn == c as i128 * rawd - mn * rn as i128,
        ;
        assert(-0x2000_0000_0000_0000_0000_0000_0000_0000i128 <= rawn * 0x100_0000
            <= 0x2000_0000_0000_0000_0000_0000_0000_0000i128) by (nonlinear_arith)
            requires
                -0x20_0000_0000_0000_0000_0000_0000i128 <= rawn
                    <= 0x20_0000_0000_0000_0000_0000_0000i128,
        ;
    }
    let q = div_round_i128(rawn * (GRID_DEN as i128), rawd);
    if q < i64::MIN as i128 || q > i64::MAX as i128 {
        None
    } else {
        Some(q as i64)
    }
}

impl Viewport {
    /// Well-formed: zoom within the representable band, origin on the
    /// fixed grid.
    pub open spec fn wf(self) -> bool {
        &&& -MAX_ZOOM_DECIS <= self.zoom_decis <= MAX_ZOOM_DECIS
        &&& self.origin.x.den == GRID_DEN
        &&& self.origin.y.den == GRID_DEN
    }

    /// A fresh viewport: unit scale (zoom zero), the origin at the given
    /// whole-pixel offset, no drag in progress.
    pub fn new(ox: i64, oy: i64) -> (r: Viewport)
        requires
            -0x40_0000_0000 <= ox <= 0x40_0000_0000,
            -0x40_0000_0000 <= oy <= 0x40_0000_0000,
        ensures
            r.zoom_decis == 0,
            r.origin.x.num == ox * GRID_DEN,
            r.origin.x.den == GRID_DEN,
            r.origin.y.num == oy * GRID_DEN,
            r.origin.y.den == GRID_DEN,
            !r.dragging,
            r.wf(),
    {
        proof {
            assert(-0x40_0000_0000_0000_00i64 <= ox * 0x100_0000 <= 0x40_0000_0000_0000_00i64)
                by (nonlinear_arith)
                requires
                    -0x40_0000_0000 <= ox <= 0x40_0000_0000,
            ;
            assert(-0x40_0000_0000_0000_00i64 <= oy * 0x100_0000 <= 0x40_0000_0000_0000_00i64)
                by (nonlinear_arith)
                requires
                    -0x40_0000_0000 <= oy <= 0x40_0000_0000,
            ;
        }
        Viewport {
            zoom_decis: 0,
            origin: Point2 {
                x: Frac { num: ox * GRID_DEN, den: GRID_DEN },
                y: Frac { num: oy * GRID_DEN, den: GRID_DEN },
            },
            dragging: false,
        }
    }

    /// The exact scale fraction of the current zoom.
    pub fn current_scale(&self) -> (r: Frac)
        requires
            self.wf(),
        ensures
            r.num == scale_num_spec(self.zoom_decis as int),
            r.den == scale_den_spec(self.zoom_decis as int),
            1 <= r.num <= 0x400_0000_0000_0000,
            1 <= r.den <= 0x200_0000_0000_0000,
            r.wf(),
    {
        scale_of_decis(self.zoom_decis)
    }

    /// A pan drag starts: pointer pressed on the canvas.
    pub fn begin_drag(&mut self)
        requires
            old(self).wf(),
        ensures
            final(self).wf(),
            final(self).dragging,
            final(self).zoom_decis == old(self).zoom_decis,
            final(self).origin == old(self).origin,
    {
        self.dragging = true;
    }

    /// A pan drag ends: pointer released, or it left the canvas (leaving
    /// must end the drag exactly as releasing does, so the viewport can
    /// never be stuck dragging).
    pub fn end_drag(&mut self)
        requires
            old(self).wf(),
        ensures
            final(self).wf(),
            !final(self).dragging,
            final(self).zoom_decis == old(self).zoom_decis,
            final(self).origin == old(self).origin,
    {
        self.dragging = false;
    }

    /// Pointer movement while dragging pans the viewport: the raw screen
    /// delta is added to the origin, with no scale correction (panning is
    /// screen-space; zooming is world-anchored). Without a drag in
    /// progress the event does nothing; if the exact sum would not fit the
    /// fraction fields the event is dropped whole.
    pub fn apply_pan(&mut self, dx: i64, dy: i64)
        requires
            old(self).wf(),
        ensures
            final(self).wf(),
            final(self).dragging == old(self).dragging,
            final(self).zoom_decis == old(self).zoom_decis,
            !old(self).dragging ==> *final(self) == *old(self),
            old(self).dragging && fits_i64(
                old(self).origin.x.num + dx * old(self).origin.x.den,
            ) && fits_i64(old(self).origin.y.num + dy * old(self).origin.y.den) ==> {
                &&& final(self).origin.x.num == old(self).origin.x.num + dx * old(self).origin.x.den
                &&& final(self).origin.x.den == old(self).origin.x.den
                &&& final(self).origin.y.num == old(self).origin.y.num + dy * old(self).origin.y.den
                &&& final(self).origin.y.den == old(self).origin.y.den
            },
            final(self).origin == old(self).origin || (final(self).origin.x.den == old(self).origin.x.den && final(self).origin.y.den == old(self).origin.y.den
                && final(self).origin.x.num == old(self).origin.x.num + dx * old(self).origin.x.den && final(self).origin.y.num == old(self).origin.y.num + dy * old(self).origin.y.den),
            // the outcome, in one deterministic function
            *final(self) == pan_result(*old(self), dx as int, dy as int),
    {
        if !self.dragging {
            return ;
        }
        let ox = frac_add_int(self.origin.x, dx);
        let oy = frac_add_int(self.origin.y, dy);
        match (ox, oy) {
            (Some(x), Some(y)) => {
                self.origin = Point2 { x, y };
            },
            _ => {},
        }
    }

    /// One wheel event: zoom moves one tick toward the wheel direction
    /// and the origin is corrected so that the world point currently
    /// under the cursor stays under the cursor, rounded to the origin's
    /// 2^-24 pixel grid. Out-of-range screen coordinates, the zoom band's
    /// edge, or a rounded coordinate that does not fit drop the event
    /// whole. Whatever happens, the world point under the cursor moves by
    /// at most half a grid cell over the new scale.
    pub fn apply_wheel(&mut self, delta_y: i64, cursor: ScreenPoint)
        requires
            old(self).wf(),
        ensures
            final(self).wf(),
            final(self).dragging == old(self).dragging,
            // the world point under the cursor stays put, within half an
            // origin grid cell over the new scale
            pivot_within_grid(*old(self), *final(self), cursor),
            // the event either applies whole or not at all
            *final(self) == *old(self) || final(self).zoom_decis == wheel_target(
                old(self).zoom_decis as int,
                delta_y as int,
            ),
            // nonsense screen coordinates change nothing
            !in_screen_range(cursor) ==> *final(self) == *old(self),
            // outside the zoom band nothing changes
            !(-MAX_ZOOM_DECIS <= wheel_target(old(self).zoom_decis as int, delta_y as int)
                <= MAX_ZOOM_DECIS) ==> *final(self) == *old(self),
            // when the rounded correction fits, the event applies
            ({
                let t = wheel_target(old(self).zoom_decis as int, delta_y as int);
                let rn = ratio_num_spec(old(self).zoom_decis as int, t);
                let rd = ratio_den_spec(old(self).zoom_decis as int, t);
                in_screen_range(cursor) && -MAX_ZOOM_DECIS <= t <= MAX_ZOOM_DECIS
                    && wheel_axis_fits(old(self).origin.x, cursor.x as int, rn, rd)
                    && wheel_axis_fits(old(self).origin.y, cursor.y as int, rn, rd) ==> final(self).zoom_decis == t
            }),
            // on the applied path the origin is the exact closed-form
            // correction rounded to the nearest grid point
            final(self).zoom_decis != old(self).zoom_decis ==> ({
                let t = wheel_target(old(self).zoom_decis as int, delta_y as int);
                let rn = ratio_num_spec(old(self).zoom_decis as int, t);
                let rd = ratio_den_spec(old(self).zoom_decis as int, t);
                &&& final(self).origin.x.num == wheel_rounded_num(
                    old(self).origin.x,
                    cursor.x as int,
                    rn,
                    rd,
                )
                &&& final(self).origin.x.den == GRID_DEN
                &&& final(self).origin.y.num == wheel_rounded_num(
                    old(self).origin.y,
                    cursor.y as int,
                    rn,
                    rd,
                )
                &&& final(self).origin.y.den == GRID_DEN
            }),
            // the outcome, in one deterministic function
            *final(self) == wheel_result(*old(self), delta_y as int, cursor),
    {
        if cursor.x < -MAX_CURSOR_ABS || cursor.x > MAX_CURSOR_ABS || cursor.y < -MAX_CURSOR_ABS
            || cursor.y > MAX_CURSOR_ABS {
            proof {
                lemma_pivot_refl(*old(self), cursor);
            }
            return ;
        }
        let z = self.zoom_decis;
        let dir: i64 = if delta_y > 0 {
            1
        } else {
            -1
        };
        let t = z + dir * ZOOM_SPEED_DECIS;
        if t < -MAX_ZOOM_DECIS || t > MAX_ZOOM_DECIS {
            proof {
                lemma_pivot_refl(*old(self), cursor);
            }
            return ;
        }
        let (rn, rd) = wheel_ratio(z, t);
        let nx = match wheel_axis(self.origin.x, cursor.x, rn, rd) {
            Some(v) => v,
            None => {
                proof {
                    lemma_pivot_refl(*old(self), cursor);
                }
                return ;
            },
        };
        let ny = match wheel_axis(self.origin.y, cursor.y, rn, rd) {
            Some(v) => v,
            None => {
                proof {
                    lemma_pivot_refl(*old(self), cursor);
                }
                return ;
            },
        };
        proof {
            let zo = old(self).zoom_decis as int;
            lemma_scale_spec_pos(zo);
            lemma_scale_spec_pos(t as int);
            lemma_wheel_pivot_axis_rounded(
                cursor.x as int,
                old(self).origin.x,
                nx as int,
                rn as int,
                rd as int,
                scale_num_spec(zo),
                scale_den_spec(zo),
                scale_num_spec(t as int),
                scale_den_spec(t as int),
            );
            lemma_wheel_pivot_axis_rounded(
                cursor.y as int,
                old(self).origin.y,
                ny as int,
                rn as int,
                rd as int,
                scale_num_spec(zo),
                scale_den_spec(zo),
                scale_num_spec(t as int),
                scale_den_spec(t as int),
            );
        }
        self.zoom_decis = t;
        self.origin = Point2 {
            x: Frac { num: nx, den: GRID_DEN },
            y: Frac { num: ny, den: GRID_DEN },
        };
    }

    /// The world point shown at screen point `p`: (p - origin) / scale in
    /// canonical form, or `None` when even the fully reduced exact result
    /// does not fit the fraction fields.
    pub fn screen_to_world(&self, p: ScreenPoint) -> (r: Option<Point2>)
        requires
            self.wf(),
        ensures
            match r {
                Some(w) => w.wf() && w == world_point_spec(*self, p) && (w.x.num as int)
                    * world_x_den(*self) == world_x_num(*self, p.x as int) * (w.x.den as int) && (
                w.y.num as int) * world_y_den(*self) == world_y_num(*self, p.y as int) * (
                w.y.den as int),
                None => !world_fits(*self, p),
            },
            r is Some <==> world_fits(*self, p),
    {
        if p.x < -MAX_CURSOR_ABS || p.x > MAX_CURSOR_ABS || p.y < -MAX_CURSOR_ABS || p.y
            > MAX_CURSOR_ABS {
            return None;
        }
        let s = self.current_scale();
        proof {
            lemma_world_parts_bounds(p.x as int, self.origin.x.num as int, s.num as int, s.den as int);
            lemma_world_parts_bounds(p.y as int, self.origin.y.num as int, s.num as int, s.den as int);
        }
        let wxn: i128 = (p.x as i128 * self.origin.x.den as i128 - self.origin.x.num as i128)
            * s.den as i128;
        let wxd: i128 = self.origin.x.den as i128 * s.num as i128;
        let wyn: i128 = (p.y as i128 * self.origin.y.den as i128 - self.origin.y.num as i128)
            * s.den as i128;
        let wyd: i128 = self.origin.y.den as i128 * s.num as i128;
        let x = match canon_frac(wxn, wxd) {
            Some(f) => f,
            None => {
                return None;
            },
        };
        let y = match canon_frac(wyn, wyd) {
            Some(f) => f,
            None => {
                return None;
            },
        };
        Some(Point2 { x, y })
    }
}

/// The wide intermediates of the screen-to-world transform stay far
/// inside the `i128` range, and its denominator is positive.
proof fn lemma_world_parts_bounds(px: int, on: int, sn: int, sd: int)
    requires
        -0x8000_0000 <= px <= 0x8000_0000,
        fits_i64(on),
        1 <= sn <= 0x400_0000_0000_0000,
        1 <= sd <= 0x200_0000_0000_0000,
    ensures
        -0x100_0000_0000_0000 <= px * 0x100_0000 <= 0x100_0000_0000_0000,
        -0x4000_0000_0000_0000_0000_0000_0000_0000 <= (px * 0x100_0000 - on) * sd
            <= 0x4000_0000_0000_0000_0000_0000_0000_0000,
        1 <= 0x100_0000 * sn <= 0x4000_0000_0000_0000_0000_0000_0000_0000,
{
    assert(-0x100_0000_0000_0000 <= px * 0x100_0000 <= 0x100_0000_0000_0000)
        by (nonlinear_arith)
        requires
            -0x8000_0000 <= px <= 0x8000_0000,
    ;
    assert(-0x4000_0000_0000_0000_0000_0000_0000_0000 <= (px * 0x100_0000 - on) * sd
        <= 0x4000_0000_0000_0000_0000_0000_0000_0000) by (nonlinear_arith)
        requires
            -0x8000_0000 <= px <= 0x8000_0000,
            -0x8000_0000_0000_0000 <= on <= 0x7fff_ffff_ffff_ffff,
            1 <= sd <= 0x200_0000_0000_0000,
    ;
    assert(1 <= 0x100_0000 * sn <= 0x4000_0000_0000_0000_0000_0000_0000_0000)
        by (nonlinear_arith)
        requires
            1 <= sn <= 0x400_0000_0000_0000,
    ;
}

/// Exact sum of a fraction and a whole number, or `None` when the exact
/// numerator does not fit.
fn frac_add_int(a: Frac, n: i64) -> (r: Option<Frac>)
    requires
        a.wf(),
    ensures
        match r {
            Some(f) => f.wf() && f.num == a.num + n * a.den && f.den == a.den,
            None => !fits_i64(a.num + n * a.den),
        },
{
    proof {
        crate::frac::lemma_i64_mul_pos_bounds(n as int, a.den as int);
    }
    let v: i128 = a.num as i128 + n as i128 * a.den as i128;
    if v >= i64::MIN as i128 && v <= i64::MAX as i128 {
        Some(Frac { num: v as i64, den: a.den })
    } else {
        None
    }
}

} // verus!
