//! Screen points and the normalized rectangle spanned by two of them.

use vstd::prelude::*;

verus! {

/// A screen coordinate, in the coordinate space shared by the pointer source
/// and the capture backend.
#[derive(Clone, Copy, Debug, PartialEq, Eq, Structural)]
pub struct Point {
    pub x: i32,
    pub y: i32,
}

/// The rectangle spanned by two corner points, with its origin at the
/// top-left corner.
///
/// A region is meant to be derived with [`Region::from_points`]; one with a
/// zero width or height is degenerate and cannot be captured.
#[derive(Clone, Copy, Debug, PartialEq, Eq, Structural)]
pub struct Region {
    pub x: i32,
    pub y: i32,
    pub width: u32,
    pub height: u32,
}

/// The smaller of two integers.
pub open spec fn min_of(a: int, b: int) -> int {
    if a <= b {
        a
    } else {
        b
    }
}

/// The distance between two integers.
pub open spec fn distance(a: int, b: int) -> int {
    if a <= b {
        b - a
    } else {
        a - b
    }
}

/// The region spanned by `p1` and `p2`, whichever corner each of them is.
pub open spec fn region_of(p1: Point, p2: Point) -> Region {
    Region {
        x: min_of(p1.x as int, p2.x as int) as i32,
        y: min_of(p1.y as int, p2.y as int) as i32,
        width: distance(p1.x as int, p2.x as int) as u32,
        height: distance(p1.y as int, p2.y as int) as u32,
    }
}

/// The point reported when the cursor position cannot be read.
pub open spec fn cursor_sentinel() -> Point {
    Point { x: -1i32, y: -1i32 }
}

fn span(a: i32, b: i32) -> (d: u32)
    ensures
        d == distance(a as int, b as int),
{
    let wide: i64 = if a <= b {
        b as i64 - a as i64
    } else {
        a as i64 - b as i64
    };
    wide as u32
}

impl Point {
    pub fn new(x: i32, y: i32) -> (p: Point)
        ensures
            p == (Point { x, y }),
    {
        Point { x, y }
    }

    /// Turns the answer of a cursor position query into a point: the position
    /// where there is one, the sentinel `(-1, -1)` where the query failed.
    pub fn from_cursor_query(answer: Option<(i32, i32)>) -> (p: Point)
        ensures
            p == match answer {
                Some(pos) => Point { x: pos.0, y: pos.1 },
                None => cursor_sentinel(),
            },
    {
        match answer {
            Some(pos) => Point { x: pos.0, y: pos.1 },
            None => Point { x: -1, y: -1 },
        }
    }
}

impl Region {
    /// Derives the region spanned by two points. The order of the points does
    /// not matter, and every pair of points has a region: the distance between
    /// two `i32` coordinates always fits in a `u32`.
    pub fn from_points(p1: Point, p2: Point) -> (r: Region)
        ensures
            r == region_of(p1, p2),
            r.x == min_of(p1.x as int, p2.x as int),
            r.y == min_of(p1.y as int, p2.y as int),
            r.width == distance(p1.x as int, p2.x as int),
            r.height == distance(p1.y as int, p2.y as int),
    {
        Region {
            x: if p1.x <= p2.x { p1.x } else { p2.x },
            y: if p1.y <= p2.y { p1.y } else { p2.y },
            width: span(p1.x, p2.x),
            height: span(p1.y, p2.y),
        }
    }

    /// Whether the region has no area.
    pub open spec fn degenerate(self) -> bool {
        self.width == 0 || self.height == 0
    }

    /// Whether the region has no area, and so cannot be captured.
    pub fn is_degenerate(&self) -> (b: bool)
        ensures
            b == self.degenerate(),
    {
        self.width == 0 || self.height == 0
    }

    /// The `(x, y, width, height)` tuple sent to the overlay.
    pub fn payload(&self) -> (t: (i32, i32, u32, u32))
        ensures
            t == (self.x, self.y, self.width, self.height),
    {
        (self.x, self.y, self.width, self.height)
    }
}

/// The region of two points does not depend on their order.
pub proof fn lemma_region_symmetric(p1: Point, p2: Point)
    ensures
        region_of(p1, p2) == region_of(p2, p1),
{
}

/// The region of two points starts at the smaller coordinate on each axis and
/// extends by the distance between the coordinates, which fits the unsigned
/// fields without loss.
pub proof fn lemma_region_fields(p1: Point, p2: Point)
    ensures
        region_of(p1, p2).x == min_of(p1.x as int, p2.x as int),
        region_of(p1, p2).y == min_of(p1.y as int, p2.y as int),
        region_of(p1, p2).width == distance(p1.x as int, p2.x as int),
        region_of(p1, p2).height == distance(p1.y as int, p2.y as int),
        region_of(p1, p2).degenerate() <==> (p1.x == p2.x || p1.y == p2.y),
{
}

} // verus!
