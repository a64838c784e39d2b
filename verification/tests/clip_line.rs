use line_clipping::cohen_sutherland::clip_line;
use line_clipping::{LineSegment, Point, Window};

fn seg(x1: i64, y1: i64, x2: i64, y2: i64) -> LineSegment {
    LineSegment::new(Point::new(x1, y1), Point::new(x2, y2))
}

/// Segments entirely outside the window: both endpoints violate a common
/// boundary, in each of the eight outside regions.
#[test]
fn outside() {
    let window = Window::new(-1, 1, -1, 1);
    assert_eq!(clip_line(seg(-2, 2, -3, 3), window), None); // top left
    assert_eq!(clip_line(seg(2, 2, 3, 3), window), None); // top right
    assert_eq!(clip_line(seg(-2, -2, -3, -3), window), None); // bottom left
    assert_eq!(clip_line(seg(2, -2, 3, -3), window), None); // bottom right
    assert_eq!(clip_line(seg(-2, 0, -3, 0), window), None); // left
    assert_eq!(clip_line(seg(2, 0, 3, 0), window), None); // right
    assert_eq!(clip_line(seg(0, 2, 0, 2), window), None); // top
    assert_eq!(clip_line(seg(0, -2, 0, -3), window), None); // bottom
}

/// Segments entirely inside the window come back unchanged, including ones
/// lying exactly on a border and ones joining opposite corners.
#[test]
fn inside() {
    let window = Window::new(-2, 2, -2, 2);
    let cases = [
        seg(-2, -2, -2, 2), // left border
        seg(2, -2, 2, 2), // right border
        seg(-2, 2, 2, 2), // top border
        seg(-2, -2, 2, -2), // bottom border
        seg(-2, -2, 2, 2), // corners up
        seg(-2, 2, 2, -2), // corners down
        seg(-1, 0, 1, 0), // horizontal
        seg(0, -1, 0, 1), // vertical
        seg(-1, -1, 1, 1), // diagonal up
        seg(-1, 1, 1, -1), // diagonal down
    ];
    for line in cases {
        assert_eq!(clip_line(line, window), Some(line));
    }
}

/// Lines pointing at the origin from outside the window, entering through
/// the top edge: one endpoint is clipped, the origin stays.
#[test]
fn one_intersection_top() {
    let window = Window::new(-4, 4, -4, 4);
    let origin = Point::new(0, 0);
    let cases = [
        ((-8, 8), (-4, 4)),
        ((-6, 8), (-3, 4)),
        ((-4, 8), (-2, 4)),
        ((-2, 8), (-1, 4)),
        ((0, 8), (0, 4)),
        ((2, 8), (1, 4)),
        ((4, 8), (2, 4)),
        ((6, 8), (3, 4)),
    ];
    for ((x1, y1), (ex, ey)) in cases {
        let line = LineSegment::new(Point::new(x1, y1), origin);
        let expected = LineSegment::new(Point::new(ex, ey), origin);
        assert_eq!(clip_line(line, window), Some(expected));
    }
}

/// Lines pointing at the origin, entering through the right edge.
#[test]
fn one_intersection_right() {
    let window = Window::new(-4, 4, -4, 4);
    let origin = Point::new(0, 0);
    let cases = [
        ((8, 8), (4, 4)),
        ((8, 6), (4, 3)),
        ((8, 4), (4, 2)),
        ((8, 2), (4, 1)),
        ((8, 0), (4, 0)),
        ((8, -2), (4, -1)),
        ((8, -4), (4, -2)),
        ((8, -6), (4, -3)),
    ];
    for ((x1, y1), (ex, ey)) in cases {
        let line = LineSegment::new(Point::new(x1, y1), origin);
        let expected = LineSegment::new(Point::new(ex, ey), origin);
        assert_eq!(clip_line(line, window), Some(expected));
    }
}

/// Lines pointing at the origin, entering through the bottom edge.
#[test]
fn one_intersection_bottom() {
    let window = Window::new(-4, 4, -4, 4);
    let origin = Point::new(0, 0);
    let cases = [
        ((8, -8), (4, -4)),
        ((6, -8), (3, -4)),
        ((4, -8), (2, -4)),
        ((2, -8), (1, -4)),
        ((0, -8), (0, -4)),
        ((-2, -8), (-1, -4)),
        ((-4, -8), (-2, -4)),
        ((-6, -8), (-3, -4)),
    ];
    for ((x1, y1), (ex, ey)) in cases {
        let line = LineSegment::new(Point::new(x1, y1), origin);
        let expected = LineSegment::new(Point::new(ex, ey), origin);
        assert_eq!(clip_line(line, window), Some(expected));
    }
}

/// Lines pointing at the origin, entering through the left edge.
#[test]
fn one_intersection_left() {
    let window = Window::new(-4, 4, -4, 4);
    let origin = Point::new(0, 0);
    let cases = [
        ((-8, -8), (-4, -4)),
        ((-8, -6), (-4, -3)),
        ((-8, -4), (-4, -2)),
        ((-8, -2), (-4, -1)),
        ((-8, 0), (-4, 0)),
        ((-8, 2), (-4, 1)),
        ((-8, 4), (-4, 2)),
        ((-8, 6), (-4, 3)),
    ];
    for ((x1, y1), (ex, ey)) in cases {
        let line = LineSegment::new(Point::new(x1, y1), origin);
        let expected = LineSegment::new(Point::new(ex, ey), origin);
        assert_eq!(clip_line(line, window), Some(expected));
    }
}

/// Lines crossing the window between two outside regions, so that both
/// endpoints are clipped. The start and end points sweep clockwise around
/// the window:
///
/// ```text
/// A       B       C
///     +-------+
///     |       |
/// H   |   .   |   D
///     |       |
///     +-------+
/// G       F       E
/// ```
#[test]
fn two_intersections() {
    let a = (-4, 4);
    let b = (0, 4);
    let c = (4, 4);
    let d = (4, 0);
    let e = (4, -4);
    let f = (0, -4);
    let g = (-4, -4);
    let h = (-4, 0);
    let cases = [
        (a, d, (0, 2), (2, 1)),
        (a, e, (-2, 2), (2, -2)),
        (a, f, (-2, 0), (-1, -2)),
        (b, d, (2, 2), (2, 2)),
        (b, e, (1, 2), (2, 0)),
        (b, f, (0, 2), (0, -2)),
        (b, g, (-1, 2), (-2, 0)),
        (b, h, (-2, 2), (-2, 2)),
        (c, f, (2, 0), (1, -2)),
        (c, g, (2, 2), (-2, -2)),
        (c, h, (0, 2), (-2, 1)),
        (d, f, (2, -2), (2, -2)),
        (d, g, (2, -1), (0, -2)),
        (d, h, (2, 0), (-2, 0)),
        (e, h, (0, -2), (-2, -1)),
        (f, h, (-2, -2), (-2, -2)),
    ];
    let window = Window::new(-2, 2, -2, 2);
    for ((x1, y1), (x2, y2), (ex1, ey1), (ex2, ey2)) in cases {
        let line = seg(x1, y1, x2, y2);
        let expected = seg(ex1, ey1, ex2, ey2);
        assert_eq!(clip_line(line, window), Some(expected));
    }
}
