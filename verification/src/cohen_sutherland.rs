//! The Cohen-Sutherland line clipping algorithm.
//!
//! The plane is divided into nine regions by extending the window's four
//! boundary lines. Each endpoint of a segment is classified by a [`Region`]
//! code saying which boundaries it violates; the driver [`clip_line`] then
//! accepts, rejects, or moves an outside endpoint onto the boundary it
//! violates and classifies again, until the segment is accepted or rejected.
//!
//! The regions and their codes (left/right and bottom/top flags):
//!
//! ```text
//! left|top    |    top     | right|top
//! ------------|------------|-------------
//! left        |   inside   | right
//! ------------|------------|-------------
//! left|bottom |   bottom   | right|bottom
//! ```

use vstd::prelude::*;
use vstd::arithmetic::div_mod::{
    lemma_div_is_ordered, lemma_div_multiples_vanish, lemma_div_pos_is_pos,
};
use vstd::arithmetic::mul::{
    lemma_mul_inequality, lemma_mul_nonnegative, lemma_mul_strictly_positive,
    lemma_mul_unary_negation, lemma_mul_upper_bound,
};
use vstd::math::abs;

use crate::{LineSegment, Point, Window};

verus! {

/// The region code of a point relative to a window: one flag for each
/// boundary the point violates. All flags false means the point is inside
/// the window or on its boundary.
///
/// By construction ([`Region::from_point`]) `left` and `right` are mutually
/// exclusive, and so are `bottom` and `top`.
#[derive(Debug, Clone, Copy, PartialEq, Eq, Structural)]
pub struct Region {
    /// The point lies left of the window: x < x_min.
    pub left: bool,

    /// The point lies right of the window: x > x_max (and not left).
    pub right: bool,

    /// The point lies below the window: y < y_min.
    pub bottom: bool,

    /// The point lies above the window: y > y_max (and not below).
    pub top: bool,
}

impl Region {
    /// The region code that [`Region::from_point`] assigns to `p` against `w`.
    ///
    /// Each axis is an if/else-if pair, so `left` excludes `right` and
    /// `bottom` excludes `top`. A coordinate exactly on a boundary is
    /// classified as inside on that axis.
    pub open spec fn spec_from_point(p: Point, w: Window) -> Region {
        Region {
            left: p.x < w.x_min,
            right: !(p.x < w.x_min) && p.x > w.x_max,
            bottom: p.y < w.y_min,
            top: !(p.y < w.y_min) && p.y > w.y_max,
        }
    }

    /// Determines the region in which a point lies.
    pub fn from_point(point: Point, window: Window) -> (r: Region)
        ensures
            r == Region::spec_from_point(point, window),
    {
        let mut region = Region { left: false, right: false, bottom: false, top: false };
        if point.x < window.x_min {
            region.left = true;
        } else if point.x > window.x_max {
            region.right = true;
        }
        if point.y < window.y_min {
            region.bottom = true;
        } else if point.y > window.y_max {
            region.top = true;
        }
        region
    }

    /// Whether any flag is set, i.e. the point lies outside the window.
    pub open spec fn spec_is_outside(self) -> bool {
        self.left || self.right || self.bottom || self.top
    }

    /// Whether the classified point lies outside the window.
    #[verifier::when_used_as_spec(spec_is_outside)]
    pub fn is_outside(self) -> (b: bool)
        ensures
            b == self.spec_is_outside(),
    {
        self.left || self.right || self.bottom || self.top
    }

    /// Whether two region codes share a set flag.
    pub open spec fn spec_intersects(self, other: Region) -> bool {
        (self.left && other.left) || (self.right && other.right) || (self.bottom
            && other.bottom) || (self.top && other.top)
    }

    /// Whether two region codes share a set flag. Two points whose codes
    /// share a flag lie outside the window on the same side, so the segment
    /// between them cannot meet the window.
    #[verifier::when_used_as_spec(spec_intersects)]
    pub fn intersects(self, other: Region) -> (b: bool)
        ensures
            b == self.spec_intersects(other),
    {
        (self.left && other.left) || (self.right && other.right) || (self.bottom
            && other.bottom) || (self.top && other.top)
    }

    /// How many flags are set: 0, 1 or 2.
    pub open spec fn count(self) -> int {
        (if self.left {
            1int
        } else {
            0int
        }) + (if self.right {
            1int
        } else {
            0int
        }) + (if self.bottom {
            1int
        } else {
            0int
        }) + (if self.top {
            1int
        } else {
            0int
        })
    }
}

/// The quotient of `a` by `b`, rounded toward zero, as Rust's integer
/// division computes it. (In spec code, `/` alone rounds toward negative
/// infinity when exactly one operand is negative.)
pub open spec fn tdiv(a: int, b: int) -> int
    recommends
        b != 0,
{
    if (a < 0) == (b < 0) {
        abs(a) as int / abs(b) as int
    } else {
        -(abs(a) as int / abs(b) as int)
    }
}

/// Moving from `from` a fraction `a / c` of the way toward `to` lands between
/// the two, whatever the rounding of [`tdiv`] does: the step `tdiv(a * (to -
/// from), c)` has the sign of `to - from` and magnitude at most `abs(to -
/// from)`.
proof fn lemma_interpolate_bounds(a: int, c: int, from: int, to: int)
    requires
        0 < a <= c,
    ensures
        from <= to ==> from <= from + tdiv(a * (to - from), c) <= to,
        to <= from ==> to <= from + tdiv(a * (to - from), c) <= from,
{
    let d = to - from;
    let m = abs(a * d) as int;
    let q = m / c;
    if d >= 0 {
        lemma_mul_nonnegative(a, d);
        assert(m == a * d);
        lemma_mul_inequality(a, c, d);
        lemma_div_is_ordered(a * d, c * d, c);
        lemma_div_multiples_vanish(d, c);
        lemma_div_pos_is_pos(m, c);
        assert(0 <= q <= d);
        assert(tdiv(a * d, c) == q);
    } else {
        lemma_mul_strictly_positive(a, -d);
        lemma_mul_unary_negation(a, d);
        assert(a * d < 0);
        assert(m == a * (-d));
        lemma_mul_inequality(a, c, -d);
        lemma_div_is_ordered(a * (-d), c * (-d), c);
        lemma_div_multiples_vanish(-d, c);
        lemma_div_pos_is_pos(m, c);
        assert(0 <= q <= -d);
        assert(tdiv(a * d, c) == -q);
    }
}

/// The point `a / c` of the way from `from` toward `to`, with the division
/// rounded toward zero: `from + tdiv(a * (to - from), c)`. The result always
/// lies between `from` and `to`, so it fits in an `i64`.
///
/// `a` and `c` are distances along the other axis and may span the full
/// `i64` range, so they arrive as `i128`; the product is formed in `u128`,
/// where it cannot overflow.
fn interpolate(a: i128, c: i128, from: i64, to: i64) -> (r: i64)
    requires
        0 < a <= c,
        c <= u64::MAX,
    ensures
        r == from + tdiv(a * (to - from), c as int),
        from <= to ==> from <= r <= to,
        to <= from ==> to <= r <= from,
{
    proof {
        lemma_interpolate_bounds(a as int, c as int, from as int, to as int);
    }
    let d: i128 = (to as i128) - (from as i128);
    let d_abs: u128 = if d < 0 {
        (-d) as u128
    } else {
        d as u128
    };
    assert((a as u128) * d_abs <= (u64::MAX as u128) * (u64::MAX as u128)) by {
        lemma_mul_upper_bound(a as int, u64::MAX as int, d_abs as int, u64::MAX as int);
    }
    let q_abs: u128 = ((a as u128) * d_abs) / (c as u128);
    proof {
        let ai = a as int;
        let ci = c as int;
        let di = d as int;
        lemma_mul_inequality(ai, ci, d_abs as int);
        lemma_div_is_ordered(ai * d_abs, ci * d_abs, ci);
        lemma_div_multiples_vanish(d_abs as int, ci);
        assert(q_abs <= d_abs);
        if di >= 0 {
            lemma_mul_nonnegative(ai, di);
            assert(q_abs == tdiv(ai * di, ci));
        } else {
            lemma_mul_strictly_positive(ai, -di);
            lemma_mul_unary_negation(ai, di);
            assert(ai * di < 0);
            assert(abs(ai * di) == ai * (-di));
            assert(-(q_abs as int) == tdiv(ai * di, ci));
        }
    }
    let r_wide: i128 = if d < 0 {
        (from as i128) - (q_abs as i128)
    } else {
        (from as i128) + (q_abs as i128)
    };
    r_wide as i64
}

/// The y coordinate where the segment from `from` to `to` crosses the
/// vertical line `x == xb`, with the division rounded toward zero.
pub open spec fn spec_cross_y(from: Point, to: Point, xb: int) -> int {
    from.y + tdiv((xb - from.x) * (to.y - from.y), to.x - from.x)
}

/// The x coordinate where the segment from `from` to `to` crosses the
/// horizontal line `y == yb`, with the division rounded toward zero.
pub open spec fn spec_cross_x(from: Point, to: Point, yb: int) -> int {
    from.x + tdiv((yb - from.y) * (to.x - from.x), to.y - from.y)
}

/// The point [`calculate_intersection`] replaces `from` with: the crossing of
/// the segment from `from` to `to` with the first boundary of the window that
/// `region` flags, in the fixed priority order left, right, bottom, top.
/// A corner region is resolved one boundary at a time: only the first flagged
/// boundary is used, and the driver classifies the new point again.
pub open spec fn spec_intersection(from: Point, to: Point, region: Region, w: Window) -> Point {
    if region.left {
        Point { x: w.x_min, y: spec_cross_y(from, to, w.x_min as int) as i64 }
    } else if region.right {
        Point { x: w.x_max, y: spec_cross_y(from, to, w.x_max as int) as i64 }
    } else if region.bottom {
        Point { x: spec_cross_x(from, to, w.y_min as int) as i64, y: w.y_min }
    } else if region.top {
        Point { x: spec_cross_x(from, to, w.y_max as int) as i64, y: w.y_max }
    } else {
        from
    }
}

/// Computes the point where the segment from `p1` to `p2` crosses the window
/// boundary flagged by `region`, the region code of `p1`.
///
/// The caller guarantees that `p1` is outside the window and that `p2`'s code
/// shares no flag with `region`. When the left or right boundary is flagged,
/// the two endpoints then lie strictly on opposite sides of that vertical
/// boundary line, so the segment is not vertical and the division in the
/// formula is well defined; likewise for bottom/top and horizontal segments.
fn calculate_intersection(p1: Point, p2: Point, region: Region, window: Window) -> (p: Point)
    requires
        window.valid(),
        region == Region::spec_from_point(p1, window),
        region.spec_is_outside(),
        !region.spec_intersects(Region::spec_from_point(p2, window)),
    ensures
        p == spec_intersection(p1, p2, region, window),
{
    if region.left {
        let y = interpolate(
            (window.x_min as i128) - (p1.x as i128),
            (p2.x as i128) - (p1.x as i128),
            p1.y,
            p2.y,
        );
        Point { x: window.x_min, y }
    } else if region.right {
        // The formula divides by p2.x - p1.x, which is negative here; the
        // quotient is unchanged when numerator and denominator are negated,
        // which keeps the divisor passed to `interpolate` positive.
        let y = interpolate(
            (p1.x as i128) - (window.x_max as i128),
            (p1.x as i128) - (p2.x as i128),
            p1.y,
            p2.y,
        );
        proof {
            let n: int = window.x_max - p1.x;
            let dy: int = p2.y - p1.y;
            let c: int = p2.x - p1.x;
            lemma_mul_unary_negation(n, dy);
            assert(tdiv(-(n * dy), -c) == tdiv(n * dy, c));
        }
        Point { x: window.x_max, y }
    } else if region.bottom {
        let x = interpolate(
            (window.y_min as i128) - (p1.y as i128),
            (p2.y as i128) - (p1.y as i128),
            p1.x,
            p2.x,
        );
        Point { x, y: window.y_min }
    } else {
        let x = interpolate(
            (p1.y as i128) - (window.y_max as i128),
            (p1.y as i128) - (p2.y as i128),
            p1.x,
            p2.x,
        );
        proof {
            let n: int = window.y_max - p1.y;
            let dx: int = p2.x - p1.x;
            let c: int = p2.y - p1.y;
            lemma_mul_unary_negation(n, dx);
            assert(tdiv(-(n * dx), -c) == tdiv(n * dx, c));
        }
        Point { x, y: window.y_max }
    }
}

/// One clipping step makes progress. The new point lies exactly on the
/// processed boundary, so its region code drops the processed flag, cannot
/// flag the opposite side of the same axis, and so has at most one flag set.
/// And whenever the step does not strictly reduce the number of flags of the
/// processed endpoint, the new code shares a flag with the other endpoint's
/// code, so the driver rejects the segment on its next test: a freshly
/// violated boundary can only be one that the other endpoint also violates,
/// since the new point lies between the two endpoints on the unprocessed axis.
proof fn lemma_intersection_progress(p1: Point, p2: Point, region: Region, w: Window)
    requires
        w.valid(),
        region == Region::spec_from_point(p1, w),
        region.spec_is_outside(),
        !region.spec_intersects(Region::spec_from_point(p2, w)),
    ensures
        ({
            let nr = Region::spec_from_point(spec_intersection(p1, p2, region, w), w);
            let r2 = Region::spec_from_point(p2, w);
            nr.count() <= 1 && nr.count() <= region.count() && (nr.count() == region.count()
                ==> nr.spec_intersects(r2))
        }),
{
    let np = spec_intersection(p1, p2, region, w);
    let nr = Region::spec_from_point(np, w);
    let r2 = Region::spec_from_point(p2, w);
    if region.left {
        let a: int = w.x_min - p1.x;
        let c: int = p2.x - p1.x;
        lemma_interpolate_bounds(a, c, p1.y as int, p2.y as int);
        assert(np.x == w.x_min && !nr.left && !nr.right);
    } else if region.right {
        let a: int = p1.x - w.x_max;
        let c: int = p1.x - p2.x;
        let dy: int = p2.y - p1.y;
        lemma_mul_unary_negation(w.x_max - p1.x, dy);
        assert(tdiv((w.x_max - p1.x) * dy, p2.x - p1.x) == tdiv(a * dy, c));
        lemma_interpolate_bounds(a, c, p1.y as int, p2.y as int);
        assert(np.x == w.x_max && !nr.left && !nr.right);
    } else if region.bottom {
        let a: int = w.y_min - p1.y;
        let c: int = p2.y - p1.y;
        lemma_interpolate_bounds(a, c, p1.x as int, p2.x as int);
        assert(np.y == w.y_min && !nr.bottom && !nr.top);
    } else {
        let a: int = p1.y - w.y_max;
        let c: int = p1.y - p2.y;
        let dx: int = p2.x - p1.x;
        lemma_mul_unary_negation(w.y_max - p1.y, dx);
        assert(tdiv((w.y_max - p1.y) * dx, p2.y - p1.y) == tdiv(a * dx, c));
        lemma_interpolate_bounds(a, c, p1.x as int, p2.x as int);
        assert(np.y == w.y_max && !nr.bottom && !nr.top);
    }
}

/// Termination measure for the clipping recursion: twice the number of flags
/// set over the two endpoints' codes, plus one while the codes share no flag.
/// Each clipping step either strictly reduces the flag count, or keeps it and
/// makes the codes share a flag, which settles the very next test; either way
/// the measure falls.
pub open spec fn clip_measure(p1: Point, p2: Point, w: Window) -> nat {
    let r1 = Region::spec_from_point(p1, w);
    let r2 = Region::spec_from_point(p2, w);
    (2 * (r1.count() + r2.count()) + (if r1.spec_intersects(r2) {
        0int
    } else {
        1int
    })) as nat
}

/// What [`clip_line`] returns for a valid window, step by step: accept when
/// both endpoints are inside, reject when the codes share a flag, and
/// otherwise replace one outside endpoint - the first, if both are outside -
/// by its boundary intersection and start over.
pub open spec fn spec_clip(p1: Point, p2: Point, w: Window) -> Option<LineSegment>
    decreases clip_measure(p1, p2, w),
        when w.valid()
        via spec_clip_decreases
{
    let r1 = Region::spec_from_point(p1, w);
    let r2 = Region::spec_from_point(p2, w);
    if !r1.spec_is_outside() && !r2.spec_is_outside() {
        Some(LineSegment { p1, p2 })
    } else if r1.spec_intersects(r2) {
        None
    } else if r1.spec_is_outside() {
        spec_clip(spec_intersection(p1, p2, r1, w), p2, w)
    } else {
        spec_clip(p1, spec_intersection(p2, p1, r2, w), w)
    }
}

#[via_fn]
proof fn spec_clip_decreases(p1: Point, p2: Point, w: Window) {
    let r1 = Region::spec_from_point(p1, w);
    let r2 = Region::spec_from_point(p2, w);
    if w.valid() && !r1.spec_intersects(r2) {
        if r1.spec_is_outside() {
            lemma_intersection_progress(p1, p2, r1, w);
        } else if r2.spec_is_outside() {
            lemma_intersection_progress(p2, p1, r2, w);
        }
    }
}

/// Implements the Cohen-Sutherland line clipping algorithm.
///
/// Returns the clipped line if the original line intersects the clipping
/// window, or `None` if the original line is completely outside the clipping
/// window. A segment whose endpoints both lie inside the window, boundary
/// included, is returned unchanged. A degenerate window (a minimum above the
/// corresponding maximum) contains no points and rejects every segment.
///
/// An endpoint moved onto a boundary keeps the exact boundary coordinate on
/// the clipped axis; the coordinate on the other axis is interpolated with
/// the division rounded toward zero, and always lies between the two
/// endpoints' coordinates on that axis.
pub fn clip_line(line: LineSegment, window: Window) -> (result: Option<LineSegment>)
    ensures
        window.valid() ==> result == spec_clip(line.p1, line.p2, window),
        !window.valid() ==> result is None,
        result matches Some(clipped) ==> window.contains(clipped.p1) && window.contains(
            clipped.p2,
        ),
        window.contains(line.p1) && window.contains(line.p2) ==> result == Some(line),
{
    if window.x_min > window.x_max || window.y_min > window.y_max {
        // Every point is then outside on some axis, so no segment can ever
        // reach a state where both region codes are empty.
        return None;
    }
    let mut seg = line;
    let mut region_1 = Region::from_point(seg.p1, window);
    let mut region_2 = Region::from_point(seg.p2, window);

    while region_1.is_outside() || region_2.is_outside()
        invariant
            window.valid(),
            region_1 == Region::spec_from_point(seg.p1, window),
            region_2 == Region::spec_from_point(seg.p2, window),
            spec_clip(seg.p1, seg.p2, window) == spec_clip(line.p1, line.p2, window),
        decreases clip_measure(seg.p1, seg.p2, window),
    {
        if region_1.intersects(region_2) {
            // The line is completely outside the clipping window.
            proof {
                assert(spec_clip(seg.p1, seg.p2, window) is None);
                if window.contains(line.p1) && window.contains(line.p2) {
                    assert(spec_clip(line.p1, line.p2, window) == Some(
                        LineSegment { p1: line.p1, p2: line.p2 },
                    ));
                }
            }
            return None;
        }
        if region_1.is_outside() {
            proof {
                lemma_intersection_progress(seg.p1, seg.p2, region_1, window);
            }
            seg.p1 = calculate_intersection(seg.p1, seg.p2, region_1, window);
            region_1 = Region::from_point(seg.p1, window);
        } else {
            proof {
                lemma_intersection_progress(seg.p2, seg.p1, region_2, window);
            }
            seg.p2 = calculate_intersection(seg.p2, seg.p1, region_2, window);
            region_2 = Region::from_point(seg.p2, window);
        }
    }

    Some(seg)
}

/// The two endpoints of a segment, as a set: the segment as a geometric
/// object, with the order of its endpoints forgotten.
pub open spec fn endpoints(seg: LineSegment) -> Set<Point> {
    set![seg.p1, seg.p2]
}

/// Containment: an accepted segment lies inside the window, boundary
/// included - both its endpoints satisfy the window's bounds.
pub proof fn lemma_clip_containment(p1: Point, p2: Point, w: Window, clipped: LineSegment)
    requires
        w.valid(),
        spec_clip(p1, p2, w) == Some(clipped),
    ensures
        w.contains(clipped.p1),
        w.contains(clipped.p2),
    decreases clip_measure(p1, p2, w),
{
    let r1 = Region::spec_from_point(p1, w);
    let r2 = Region::spec_from_point(p2, w);
    if !r1.spec_is_outside() && !r2.spec_is_outside() {
        assert(clipped.p1 == p1 && clipped.p2 == p2);
    } else if r1.spec_intersects(r2) {
        assert(false);
    } else if r1.spec_is_outside() {
        lemma_intersection_progress(p1, p2, r1, w);
        lemma_clip_containment(spec_intersection(p1, p2, r1, w), p2, w, clipped);
    } else {
        lemma_intersection_progress(p2, p1, r2, w);
        lemma_clip_containment(p1, spec_intersection(p2, p1, r2, w), w, clipped);
    }
}

/// Boundary inclusion: a segment whose endpoints both lie inside the window,
/// boundary included - in particular one lying exactly on a window edge - is
/// accepted unchanged.
pub proof fn lemma_clip_accepts_inside(p1: Point, p2: Point, w: Window)
    requires
        w.contains(p1),
        w.contains(p2),
    ensures
        spec_clip(p1, p2, w) == (Some(LineSegment { p1, p2 })),
{
}

/// Idempotence: clipping an already-accepted segment against the same window
/// returns it unchanged.
pub proof fn lemma_clip_idempotent(p1: Point, p2: Point, w: Window, clipped: LineSegment)
    requires
        w.valid(),
        spec_clip(p1, p2, w) == Some(clipped),
    ensures
        spec_clip(clipped.p1, clipped.p2, w) == Some(clipped),
{
    lemma_clip_containment(p1, p2, w, clipped);
    lemma_clip_accepts_inside(clipped.p1, clipped.p2, w);
}

/// Symmetry, for segments with at least one endpoint inside the window:
/// clipping (p1, p2) and clipping (p2, p1) both accept, and the accepted
/// segments have the same set of endpoints, though the driver's tie-break
/// may assign them to different slots. Such a segment meets the window, and
/// every intersection is computed from the one outside endpoint toward the
/// same fixed point in either order.
///
/// (When both endpoints are outside, the two orders can differ by one unit:
/// the second endpoint's intersection is computed against the first one's
/// already-rounded intersection, which depends on which endpoint went first.)
pub proof fn lemma_clip_symmetric(p1: Point, p2: Point, w: Window)
    requires
        w.contains(p1) || w.contains(p2),
    ensures
        spec_clip(p1, p2, w) is Some,
        spec_clip(p2, p1, w) is Some,
        endpoints(spec_clip(p1, p2, w)->Some_0) == endpoints(spec_clip(p2, p1, w)->Some_0),
    decreases clip_measure(p1, p2, w),
{
    let r1 = Region::spec_from_point(p1, w);
    let r2 = Region::spec_from_point(p2, w);
    if !r1.spec_is_outside() && !r2.spec_is_outside() {
        assert(endpoints(spec_clip(p1, p2, w)->Some_0) =~= endpoints(
            spec_clip(p2, p1, w)->Some_0,
        ));
    } else if r1.spec_is_outside() {
        lemma_intersection_progress(p1, p2, r1, w);
        lemma_clip_symmetric(spec_intersection(p1, p2, r1, w), p2, w);
    } else {
        lemma_intersection_progress(p2, p1, r2, w);
        lemma_clip_symmetric(p1, spec_intersection(p2, p1, r2, w), w);
    }
}

/// A zero-length segment is accepted unchanged when its point lies inside
/// the window, and rejected otherwise: both endpoints get the same region
/// code, which is either empty or shares a flag with itself.
pub proof fn lemma_clip_degenerate(p: Point, w: Window)
    requires
        w.valid(),
    ensures
        w.contains(p) ==> spec_clip(p, p, w) == (Some(LineSegment { p1: p, p2: p })),
        !w.contains(p) ==> spec_clip(p, p, w) is None,
{
}

} // verus!
