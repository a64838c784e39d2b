//! Clipping of 2D line segments against an axis-aligned rectangular window.
//!
//! The library works on integer coordinates. A segment is clipped with the
//! Cohen-Sutherland algorithm, implemented and verified in
//! [`cohen_sutherland`]: each endpoint is classified against the window's four
//! boundaries, and out-of-window endpoints are moved onto the boundary they
//! violate until the segment is accepted or proven to lie entirely outside.

use vstd::prelude::*;

pub mod cohen_sutherland;

verus! {

/// A point in 2D space.
#[derive(Debug, Clone, Copy, PartialEq, Eq, Structural)]
pub struct Point {
    /// The x coordinate of the point.
    pub x: i64,

    /// The y coordinate of the point.
    pub y: i64,
}

impl Point {
    /// Creates a new point.
    pub fn new(x: i64, y: i64) -> (p: Point)
        ensures
            p.x == x,
            p.y == y,
    {
        Point { x, y }
    }
}

/// A line segment in 2D space.
#[derive(Debug, Clone, Copy, PartialEq, Eq, Structural)]
pub struct LineSegment {
    /// The first point of the line segment.
    pub p1: Point,

    /// The second point of the line segment.
    pub p2: Point,
}

impl LineSegment {
    /// Creates a new line segment.
    pub fn new(p1: Point, p2: Point) -> (s: LineSegment)
        ensures
            s.p1 == p1,
            s.p2 == p2,
    {
        LineSegment { p1, p2 }
    }
}

/// A rectangular region to clip lines against.
#[derive(Debug, Clone, Copy)]
pub struct Window {
    /// The minimum x coordinate of the window.
    pub x_min: i64,

    /// The maximum x coordinate of the window.
    pub x_max: i64,

    /// The minimum y coordinate of the window.
    pub y_min: i64,

    /// The maximum y coordinate of the window.
    pub y_max: i64,
}

impl Window {
    /// Creates a new window.
    ///
    /// No validation is performed: a degenerate window (a minimum above the
    /// corresponding maximum) is accepted here and rejects every segment when
    /// clipped against, since no point lies inside it.
    pub fn new(x_min: i64, x_max: i64, y_min: i64, y_max: i64) -> (w: Window)
        ensures
            w.x_min == x_min,
            w.x_max == x_max,
            w.y_min == y_min,
            w.y_max == y_max,
    {
        Window { x_min, x_max, y_min, y_max }
    }

    /// A window is valid when each minimum is at most the corresponding maximum.
    pub open spec fn valid(self) -> bool {
        self.x_min <= self.x_max && self.y_min <= self.y_max
    }

    /// A point lies inside the window when both coordinates are within the
    /// window's bounds; points exactly on a boundary count as inside.
    pub open spec fn contains(self, p: Point) -> bool {
        self.x_min <= p.x <= self.x_max && self.y_min <= p.y <= self.y_max
    }
}

} // verus!
