//! Integer geometry in global display coordinates.
//!
//! The origin is the top-left corner of the primary display. A
//! rectangle stores its top-left corner together with its width and
//! height; all window and screen geometry in the library uses these
//! two types.

use vstd::prelude::*;

verus! {

/// An integer point in global display coordinates.
#[derive(Debug, Clone, Copy, PartialEq, Eq, Structural)]
pub struct Point {
    pub x: i32,
    pub y: i32,
}

/// An integer rectangle `(x, y, w, h)` in global display coordinates.
#[derive(Debug, Clone, Copy, PartialEq, Eq, Structural)]
pub struct Rect {
    pub x: i32,
    pub y: i32,
    pub w: u32,
    pub h: u32,
}

impl Point {
    pub fn new(x: i32, y: i32) -> (p: Point)
        ensures
            p.x == x,
            p.y == y,
    {
        Point { x, y }
    }
}

/// A rectangle whose far corner still fits in signed 32-bit display
/// coordinates. Display and window bounds reported by the OS satisfy
/// this; it is what lets corner and midpoint arithmetic stay exact.
pub open spec fn rect_in_bounds(r: Rect) -> bool {
    r.x + r.w <= i32::MAX && r.y + r.h <= i32::MAX
}

/// The midpoint of `r`, as the display server rounds it: the corner
/// plus half the extent, truncated.
pub open spec fn spec_midpoint(r: Rect) -> Point {
    Point { x: (r.x + r.w as int / 2) as i32, y: (r.y + r.h as int / 2) as i32 }
}

/// Whether `p` lies inside `r`; the right and bottom edges are
/// excluded, so adjacent screens never share a point.
pub open spec fn spec_contains_point(r: Rect, p: Point) -> bool {
    &&& r.x <= p.x < r.x + r.w
    &&& r.y <= p.y < r.y + r.h
}

impl Rect {
    pub fn new(x: i32, y: i32, w: u32, h: u32) -> (r: Rect)
        ensures
            r == (Rect { x, y, w, h }),
    {
        Rect { x, y, w, h }
    }

    /// The centre of the rectangle, used to decide which screen a
    /// window belongs to.
    pub fn midpoint(&self) -> (p: Point)
        requires
            rect_in_bounds(*self),
        ensures
            p == spec_midpoint(*self),
    {
        Point { x: self.x + (self.w / 2) as i32, y: self.y + (self.h / 2) as i32 }
    }

    /// Whether `p` lies inside the rectangle.
    pub fn contains_point(&self, p: Point) -> (b: bool)
        requires
            rect_in_bounds(*self),
        ensures
            b == spec_contains_point(*self, p),
    {
        let x_in = self.x <= p.x && (p.x as i64) < self.x as i64 + self.w as i64;
        let y_in = self.y <= p.y && (p.y as i64) < self.y as i64 + self.h as i64;
        x_in && y_in
    }
}

} // verus!
