//! Layout-space geometry.
//!
//! All coordinates and lengths are unsigned integers in centipixels
//! (hundredths of a pixel).  Additions saturate at `u64::MAX` so that layout
//! never panics; the saturation point is far beyond any realistic document.

use vstd::prelude::*;

verus! {

/// Saturating addition on centipixel quantities.
pub open spec fn sat_add(a: u64, b: u64) -> u64 {
    if a + b > u64::MAX {
        u64::MAX
    } else {
        (a + b) as u64
    }
}

/// Saturating subtraction on centipixel quantities.
pub open spec fn sat_sub(a: u64, b: u64) -> u64 {
    if a >= b {
        (a - b) as u64
    } else {
        0
    }
}

pub open spec fn spec_max(a: u64, b: u64) -> u64 {
    if a >= b {
        a
    } else {
        b
    }
}

pub open spec fn spec_min(a: u64, b: u64) -> u64 {
    if a <= b {
        a
    } else {
        b
    }
}

pub fn add_sat(a: u64, b: u64) -> (r: u64)
    ensures
        r == sat_add(a, b),
{
    if a <= u64::MAX - b {
        a + b
    } else {
        u64::MAX
    }
}

pub fn sub_sat(a: u64, b: u64) -> (r: u64)
    ensures
        r == sat_sub(a, b),
{
    if a >= b {
        a - b
    } else {
        0
    }
}

pub fn max64(a: u64, b: u64) -> (r: u64)
    ensures
        r == spec_max(a, b),
{
    if a >= b {
        a
    } else {
        b
    }
}

pub fn min64(a: u64, b: u64) -> (r: u64)
    ensures
        r == spec_min(a, b),
{
    if a <= b {
        a
    } else {
        b
    }
}

/// A position in layout space, in centipixels.
#[derive(Clone, Copy, Debug, PartialEq, Eq, Structural)]
pub struct Point {
    pub x: u64,
    pub y: u64,
}

impl Point {
    pub fn new(x: u64, y: u64) -> (r: Self)
        ensures
            r == (Point { x, y }),
    {
        Point { x, y }
    }

    /// Componentwise minimum of two points.
    pub open spec fn spec_min_with(self, other: Point) -> Point {
        Point { x: spec_min(self.x, other.x), y: spec_min(self.y, other.y) }
    }

    /// Componentwise maximum of two points.
    pub open spec fn spec_max_with(self, other: Point) -> Point {
        Point { x: spec_max(self.x, other.x), y: spec_max(self.y, other.y) }
    }

    pub fn min_with(self, other: Point) -> (r: Point)
        ensures
            r == self.spec_min_with(other),
    {
        Point { x: min64(self.x, other.x), y: min64(self.y, other.y) }
    }

    pub fn max_with(self, other: Point) -> (r: Point)
        ensures
            r == self.spec_max_with(other),
    {
        Point { x: max64(self.x, other.x), y: max64(self.y, other.y) }
    }

    /// Componentwise order on points.
    pub open spec fn le(self, other: Point) -> bool {
        self.x <= other.x && self.y <= other.y
    }
}

/// An axis-aligned rectangle in layout space, in centipixels.
#[derive(Clone, Copy, Debug, PartialEq, Eq, Structural)]
pub struct BoundingBox {
    pub x: u64,
    pub y: u64,
    pub width: u64,
    pub height: u64,
}

impl BoundingBox {
    pub fn new(x: u64, y: u64, width: u64, height: u64) -> (r: Self)
        ensures
            r == (BoundingBox { x, y, width, height }),
    {
        BoundingBox { x, y, width, height }
    }

    /// Whether a point lies inside the box (edges included).
    pub open spec fn spec_contains(self, point: Point) -> bool {
        &&& self.x <= point.x
        &&& point.x <= sat_add(self.x, self.width)
        &&& self.y <= point.y
        &&& point.y <= sat_add(self.y, self.height)
    }

    pub fn contains(&self, point: Point) -> (r: bool)
        ensures
            r == self.spec_contains(point),
    {
        point.x >= self.x && point.x <= add_sat(self.x, self.width) && point.y >= self.y
            && point.y <= add_sat(self.y, self.height)
    }

    /// The rectangle spanned by a low and a high corner.
    pub open spec fn spec_from_corners(lo: Point, hi: Point) -> BoundingBox
        recommends
            lo.le(hi),
    {
        BoundingBox { x: lo.x, y: lo.y, width: sat_sub(hi.x, lo.x), height: sat_sub(hi.y, lo.y) }
    }

    pub fn from_corners(lo: Point, hi: Point) -> (r: BoundingBox)
        ensures
            r == BoundingBox::spec_from_corners(lo, hi),
    {
        BoundingBox { x: lo.x, y: lo.y, width: sub_sat(hi.x, lo.x), height: sub_sat(hi.y, lo.y) }
    }

    /// Whether `inner` lies entirely within `self` (edges included).
    pub open spec fn spec_contains_box(self, inner: BoundingBox) -> bool {
        &&& self.x <= inner.x
        &&& self.y <= inner.y
        &&& sat_add(inner.x, inner.width) <= sat_add(self.x, self.width)
        &&& sat_add(inner.y, inner.height) <= sat_add(self.y, self.height)
    }
}

} // verus!
