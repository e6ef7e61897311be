//! Points in world space and on the screen.
use vstd::prelude::*;
use crate::frac::{Frac, frac_add, fits_i64};

verus! {

/// A point of the world plane, both coordinates exact rationals.
#[derive(Clone, Copy, Debug, PartialEq, Eq, Structural)]
pub struct Point2 {
    pub x: Frac,
    pub y: Frac,
}

impl Point2 {
    /// Well-formed: both coordinates have positive denominators.
    pub open spec fn wf(self) -> bool {
        self.x.wf() && self.y.wf()
    }

    /// The point with the given whole-number coordinates.
    pub fn from_ints(x: i64, y: i64) -> (r: Point2)
        ensures
            r.x.num == x && r.x.den == 1,
            r.y.num == y && r.y.den == 1,
            r.wf(),
    {
        Point2 { x: Frac::from_int(x), y: Frac::from_int(y) }
    }

    /// The world origin (0, 0).
    pub fn zero() -> (r: Point2)
        ensures
            r.x.num == 0 && r.x.den == 1,
            r.y.num == 0 && r.y.den == 1,
            r.wf(),
    {
        Point2 { x: Frac::zero(), y: Frac::zero() }
    }
}

/// A point of the screen, in whole pixels.
#[derive(Clone, Copy, Debug, PartialEq, Eq, Structural)]
pub struct ScreenPoint {
    pub x: i64,
    pub y: i64,
}

/// The exact componentwise sum of anchor and offset fits the fraction
/// fields.
pub open spec fn point_sum_fits(a: Point2, o: Point2) -> bool {
    &&& fits_i64(a.x.num * o.x.den + o.x.num * a.x.den)
    &&& fits_i64(a.x.den * o.x.den)
    &&& fits_i64(a.y.num * o.y.den + o.y.num * a.y.den)
    &&& fits_i64(a.y.den * o.y.den)
}

/// The exact componentwise sum of anchor and offset (meaningful when it
/// fits).
pub open spec fn point_sum(a: Point2, o: Point2) -> Point2 {
    Point2 {
        x: Frac {
            num: (a.x.num * o.x.den + o.x.num * a.x.den) as i64,
            den: (a.x.den * o.x.den) as i64,
        },
        y: Frac {
            num: (a.y.num * o.y.den + o.y.num * a.y.den) as i64,
            den: (a.y.den * o.y.den) as i64,
        },
    }
}

/// Componentwise exact sum of two points, or `None` when a coordinate of
/// the exact result does not fit the fraction fields.
pub fn point_add(a: Point2, b: Point2) -> (r: Option<Point2>)
    requires
        a.wf(),
        b.wf(),
    ensures
        match r {
            Some(p) => p.wf() && p.x.num == a.x.num * b.x.den + b.x.num * a.x.den && p.x.den
                == a.x.den * b.x.den && p.y.num == a.y.num * b.y.den + b.y.num * a.y.den
                && p.y.den == a.y.den * b.y.den,
            None => !(fits_i64(a.x.num * b.x.den + b.x.num * a.x.den) && fits_i64(
                a.x.den * b.x.den,
            ) && fits_i64(a.y.num * b.y.den + b.y.num * a.y.den) && fits_i64(
                a.y.den * b.y.den,
            )),
        },
{
    let x = frac_add(a.x, b.x);
    let y = frac_add(a.y, b.y);
    match (x, y) {
        (Some(x), Some(y)) => Some(Point2 { x, y }),
        _ => None,
    }
}

} // verus!
