use vstd::prelude::*;
use vstd::arithmetic::div_mod::lemma_fundamental_div_mod;
use vstd::arithmetic::div_mod::lemma_fundamental_div_mod_converse;
use vstd::arithmetic::div_mod::lemma_mod_pos_bound;
use crate::geometry::{Point, abs, sgn, is_point, sign};
use crate::canvas::{Color, grid, in_grid, covers, painted, set_pixel, lemma_paint_one};

verus! {

/// `n` steps in the direction of the sign `s`.
pub open spec fn step(s: int, n: int) -> int {
    if s > 0 {
        n
    } else if s < 0 {
        -n
    } else {
        0
    }
}

/// How far a line has moved along its minor axis after `i` steps along its major axis,
/// when it covers `minor` along the minor axis in `major` steps: `i * minor / major`
/// rounded to the nearest integer, with exact halves rounded down.
pub open spec fn minor_steps(i: int, minor: int, major: int) -> int {
    if major <= 0 {
        0
    } else {
        (i * minor + major - 1 - major / 2) / major
    }
}

/// The number of steps a line takes along its major axis.
pub open spec fn line_length(start: Point, end: Point) -> int {
    let ax = abs(end.0 - start.0);
    let ay = abs(end.1 - start.1);
    if ax > ay {
        ax
    } else {
        ay
    }
}

/// Whether the line runs along the x axis (it is wider than it is tall).
pub open spec fn x_major(start: Point, end: Point) -> bool {
    abs(end.0 - start.0) > abs(end.1 - start.1)
}

/// The point that the line from `start` to `end` reaches after `i` steps along its
/// major axis.
pub open spec fn line_point(start: Point, end: Point, i: int) -> (int, int) {
    let dx = end.0 - start.0;
    let dy = end.1 - start.1;
    if x_major(start, end) {
        (start.0 + step(sgn(dx), i), start.1 + step(sgn(dy), minor_steps(i, abs(dy), abs(dx))))
    } else {
        (start.0 + step(sgn(dx), minor_steps(i, abs(dx), abs(dy))), start.1 + step(sgn(dy), i))
    }
}

/// Whether `(x, y)` is one of the first `n + 1` points of the line from `start` to `end`.
/// A point of the line is found by its position along the major axis.
pub open spec fn on_line_upto(start: Point, end: Point, n: int, x: int, y: int) -> bool {
    let i = if x_major(start, end) {
        step(sgn(end.0 - start.0), x - start.0)
    } else {
        step(sgn(end.1 - start.1), y - start.1)
    };
    0 <= i <= n && (x, y) == line_point(start, end, i)
}

/// The pixels of the line from `start` to `end`.
pub open spec fn line_region(start: Point, end: Point) -> spec_fn(int, int) -> bool {
    |x: int, y: int| on_line_upto(start, end, line_length(start, end), x, y)
}

/// The error term of the line after `i` major steps lies in `[0, major)`.
pub proof fn lemma_minor_steps_err(i: int, minor: int, major: int)
    requires
        major > 0,
        i >= 0,
        minor >= 0,
    ensures
        0 <= major / 2 - i * minor + minor_steps(i, minor, major) * major < major,
{
    let v = i * minor + major - 1 - major / 2;
    lemma_fundamental_div_mod(v, major);
    assert(v >= 0) by (nonlinear_arith)
        requires
            i >= 0,
            minor >= 0,
            major > 0,
            v == i * minor + major - 1 - major / 2,
    ;
    lemma_mod_pos_bound(v, major);
    assert(major * (v / major) == (v / major) * major) by (nonlinear_arith);
}

/// An error term in `[0, major)` pins down the number of minor steps.
pub proof fn lemma_minor_steps_unique(i: int, minor: int, major: int, k: int)
    requires
        major > 0,
        0 <= major / 2 - i * minor + k * major < major,
    ensures
        k == minor_steps(i, minor, major),
{
    let err = major / 2 - i * minor + k * major;
    let v = i * minor + major - 1 - major / 2;
    assert(v == k * major + (major - 1 - err));
    lemma_fundamental_div_mod_converse(v, major, k, major - 1 - err);
}

/// The minor steps stay between none and all of them.
pub proof fn lemma_minor_steps_bounds(i: int, minor: int, major: int)
    requires
        major > 0,
        0 <= i <= major,
        0 <= minor <= major,
    ensures
        0 <= minor_steps(i, minor, major) <= minor,
{
    lemma_minor_steps_err(i, minor, major);
    let k = minor_steps(i, minor, major);
    let h = major / 2;
    assert(0 <= h < major);
    assert(0 <= k <= minor) by (nonlinear_arith)
        requires
            major > 0,
            0 <= i <= major,
            0 <= minor <= major,
            0 <= h < major,
            0 <= h - i * minor + k * major < major,
    ;
}

/// From one major step to the next the line moves by no or one minor step;
/// it moves exactly when the error term drops below zero.
pub proof fn lemma_minor_steps_next(i: int, minor: int, major: int)
    requires
        major > 0,
        0 <= i,
        0 <= minor <= major,
    ensures
        ({
            let err = major / 2 - i * minor + minor_steps(i, minor, major) * major;
            if err - minor < 0 {
                minor_steps(i + 1, minor, major) == minor_steps(i, minor, major) + 1
            } else {
                minor_steps(i + 1, minor, major) == minor_steps(i, minor, major)
            }
        }),
{
    lemma_minor_steps_err(i, minor, major);
    let k = minor_steps(i, minor, major);
    let err = major / 2 - i * minor + k * major;
    assert((i + 1) * minor == i * minor + minor) by (nonlinear_arith);
    assert((k + 1) * major == k * major + major) by (nonlinear_arith);
    if err - minor < 0 {
        lemma_minor_steps_unique(i + 1, minor, major, k + 1);
    } else {
        lemma_minor_steps_unique(i + 1, minor, major, k);
    }
}

/// The first point of a line is its start.
pub proof fn lemma_line_point_first(start: Point, end: Point)
    ensures
        line_point(start, end, 0) == (start.0 as int, start.1 as int),
{
    let ax = abs(end.0 - start.0);
    let ay = abs(end.1 - start.1);
    if x_major(start, end) {
        lemma_minor_steps_unique(0, ay, ax, 0);
    } else if ay > 0 {
        lemma_minor_steps_unique(0, ax, ay, 0);
    }
}

/// Only the start lies among the first point of a line.
pub proof fn lemma_upto_zero(start: Point, end: Point, x: int, y: int)
    ensures
        on_line_upto(start, end, 0, x, y) == (x == start.0 && y == start.1),
{
    lemma_line_point_first(start, end);
}

/// Taking one more point of a line adds exactly that point.
pub proof fn lemma_upto_next(start: Point, end: Point, n: int, x: int, y: int)
    requires
        0 <= n,
    ensures
        on_line_upto(start, end, n + 1, x, y) == (on_line_upto(start, end, n, x, y) || (x, y)
            == line_point(start, end, n + 1)),
{
    let ax = abs(end.0 - start.0);
    let ay = abs(end.1 - start.1);
    if !x_major(start, end) && ay == 0 {
        lemma_line_point_first(start, end);
        assert(line_point(start, end, n + 1) == line_point(start, end, 0));
    }
}

/// Draws the line from `start` to `end` in `color` (Bresenham's algorithm): the
/// pixels of `line_region(start, end)` take the colour, all others keep theirs.
pub fn draw_line(pixels: &mut Vec<Vec<Color>>, start: Point, end: Point, color: Color)
    requires
        is_point(start),
        is_point(end),
        covers(grid(old(pixels)), line_region(start, end)),
    ensures
        painted(grid(old(pixels)), grid(final(pixels)), line_region(start, end), color),
{
    let ghost g0 = grid(pixels);
    let ghost xm = x_major(start, end);
    let ghost ax = abs(end.0 - start.0);
    let ghost ay = abs(end.1 - start.1);
    let ghost major: int = if xm { ax } else { ay };
    let ghost minor: int = if xm { ay } else { ax };

    let pdx: i8;
    let ddx: i8;
    let pdy: i8;
    let ddy: i8;

    let deltasd: isize;
    let deltafd: isize;

    let mut dx: isize = (end.0 as isize) - (start.0 as isize);
    let mut dy: isize = (end.1 as isize) - (start.1 as isize);
    let incx: i8 = sign(dx);
    let incy: i8 = sign(dy);
    if dx < 0 {
        dx = -dx;
    }
    if dy < 0 {
        dy = -dy;
    }

    if dx > dy {
        pdx = incx;
        pdy = 0;

        ddx = incx;
        ddy = incy;

        deltasd = dy;
        deltafd = dx;
    } else {
        pdx = 0;
        pdy = incy;

        ddx = incx;
        ddy = incy;

        deltasd = dx;
        deltafd = dy;
    }

    let mut x: isize = start.0 as isize;
    let mut y: isize = start.1 as isize;

    let mut err: isize = deltafd / 2;

    proof {
        lemma_line_point_first(start, end);
        lemma_upto_zero(start, end, start.0 as int, start.1 as int);
        if major > 0 {
            lemma_minor_steps_unique(0, minor, major, 0);
        }
    }
    assert(line_region(start, end)(start.0 as int, start.1 as int));
    assert(in_grid(g0, start.0 as int, start.1 as int));
    let ghost before = grid(pixels);
    set_pixel(pixels, start.0, start.1, color);
    proof {
        let none = |xx: int, yy: int| false;
        let first = |xx: int, yy: int| on_line_upto(start, end, 0, xx, yy);
        crate::canvas::lemma_paint_nothing(g0, none, color);
        assert forall|xx: int, yy: int| #[trigger] first(xx, yy) == (none(xx, yy) || (xx
            == start.0 && yy == start.1)) by {
            lemma_upto_zero(start, end, xx, yy);
        }
        lemma_paint_one(g0, before, grid(pixels), none, first, start.0 as int, start.1 as int, color);
    }

    let mut i: isize = 0;
    while i < deltafd
        invariant
            g0 == grid(old(pixels)),
            is_point(start),
            is_point(end),
            covers(g0, line_region(start, end)),
            xm == x_major(start, end),
            ax == abs(end.0 - start.0),
            ay == abs(end.1 - start.1),
            major == (if xm { ax } else { ay }),
            minor == (if xm { ay } else { ax }),
            major == line_length(start, end),
            deltafd == major,
            deltasd == minor,
            0 <= minor <= major,
            incx == sgn(end.0 - start.0),
            incy == sgn(end.1 - start.1),
            xm ==> pdx == incx && pdy == 0,
            !xm ==> pdx == 0 && pdy == incy,
            ddx == incx,
            ddy == incy,
            0 <= i <= deltafd,
            major > 0 ==> err == major / 2 - i * minor + minor_steps(i as int, minor, major) * major,
            (x as int, y as int) == line_point(start, end, i as int),
            painted(g0, grid(pixels), |xx: int, yy: int| on_line_upto(start, end, i as int, xx, yy), color),
        decreases deltafd - i,
    {
        proof {
            lemma_minor_steps_next(i as int, minor, major);
            lemma_minor_steps_err(i as int, minor, major);
            lemma_minor_steps_bounds(i + 1, minor, major);
            assert((i + 1) * minor == i * minor + minor) by (nonlinear_arith);
            assert((minor_steps(i as int, minor, major) + 1) * major == minor_steps(i as int, minor, major) * major + major) by (nonlinear_arith);
            lemma_upto_next(start, end, i as int, line_point(start, end, i + 1).0, line_point(start, end, i + 1).1);
        }
        err -= deltasd;
        if err < 0 {
            err += deltafd;
            x += ddx as isize;
            y += ddy as isize;
        } else {
            x += pdx as isize;
            y += pdy as isize;
        }
        assert(on_line_upto(start, end, i + 1, x as int, y as int));
        assert(line_region(start, end)(x as int, y as int));
        assert(in_grid(g0, x as int, y as int));
        assert(grid(pixels)[y as int].len() == g0[y as int].len());
        let ghost mid = grid(pixels);
        set_pixel(pixels, x as usize, y as usize, color);
        proof {
            let done = |xx: int, yy: int| on_line_upto(start, end, i as int, xx, yy);
            let grown = |xx: int, yy: int| on_line_upto(start, end, i + 1, xx, yy);
            assert forall|xx: int, yy: int| #[trigger] grown(xx, yy) == (done(xx, yy) || (xx == x
                && yy == y)) by {
                lemma_upto_next(start, end, i as int, xx, yy);
            }
            lemma_paint_one(g0, mid, grid(pixels), done, grown, x as int, y as int, color);
        }
        i += 1;
    }
}

/// A line ends at its end point: its last point is `end`, and its region holds
/// both `start` and `end`.
pub proof fn lemma_line_endpoints(start: Point, end: Point)
    ensures
        line_point(start, end, line_length(start, end)) == (end.0 as int, end.1 as int),
        line_region(start, end)(start.0 as int, start.1 as int),
        line_region(start, end)(end.0 as int, end.1 as int),
{
    let ax = abs(end.0 - start.0);
    let ay = abs(end.1 - start.1);
    let d = line_length(start, end);
    if x_major(start, end) {
        assert(ay * ax == ax * ay) by (nonlinear_arith);
        lemma_minor_steps_unique(ax, ay, ax, ay);
    } else if ay > 0 {
        assert(ax * ay == ay * ax) by (nonlinear_arith);
        lemma_minor_steps_unique(ay, ax, ay, ax);
    }
    lemma_upto_zero(start, end, start.0 as int, start.1 as int);
}

/// The region of a line is exactly the points it reaches in `0..=line_length` steps.
pub proof fn lemma_line_region_points(start: Point, end: Point, x: int, y: int)
    ensures
        line_region(start, end)(x, y) <==> exists|i: int|
            0 <= i <= line_length(start, end) && #[trigger] line_point(start, end, i) == (x, y),
{
    let d = line_length(start, end);
    if exists|i: int| 0 <= i <= d && #[trigger] line_point(start, end, i) == (x, y) {
        let i = choose|i: int| 0 <= i <= d && #[trigger] line_point(start, end, i) == (x, y);
        if !x_major(start, end) && abs(end.1 - start.1) == 0 {
            lemma_line_point_first(start, end);
            assert(line_point(start, end, i) == line_point(start, end, 0));
        }
    }
}

/// A line is connected: each step moves to one of the eight neighbouring pixels.
pub proof fn lemma_line_steps_adjacent(start: Point, end: Point, i: int)
    requires
        0 <= i < line_length(start, end),
    ensures
        abs(line_point(start, end, i + 1).0 - line_point(start, end, i).0) <= 1,
        abs(line_point(start, end, i + 1).1 - line_point(start, end, i).1) <= 1,
{
    let ax = abs(end.0 - start.0);
    let ay = abs(end.1 - start.1);
    if x_major(start, end) {
        lemma_minor_steps_next(i, ay, ax);
    } else {
        lemma_minor_steps_next(i, ax, ay);
    }
}

/// A line stays inside the rectangle spanned by its end points.
pub proof fn lemma_line_in_box(start: Point, end: Point, x: int, y: int)
    requires
        line_region(start, end)(x, y),
    ensures
        (start.0 <= x <= end.0) || (end.0 <= x <= start.0),
        (start.1 <= y <= end.1) || (end.1 <= y <= start.1),
{
    let ax = abs(end.0 - start.0);
    let ay = abs(end.1 - start.1);
    let d = line_length(start, end);
    if x_major(start, end) {
        let i = step(sgn(end.0 - start.0), x - start.0);
        lemma_minor_steps_bounds(i, ay, ax);
    } else if ay > 0 {
        let i = step(sgn(end.1 - start.1), y - start.1);
        lemma_minor_steps_bounds(i, ax, ay);
    } else {
        lemma_upto_zero(start, end, x, y);
    }
}

/// The points of a line, told apart from how they are computed: after `i` steps the
/// line has moved `i` pixels along its major axis and `k` along its minor axis, both
/// towards `end`, where `k` is `i * minor / major` rounded to the nearest integer,
/// exact halves rounded down (`-major <= 2 * (k * major - i * minor) < major`).
pub proof fn lemma_line_point_rounding(start: Point, end: Point, i: int)
    requires
        0 <= i <= line_length(start, end),
    ensures
        ({
            let (px, py) = line_point(start, end, i);
            let dx = end.0 - start.0;
            let dy = end.1 - start.1;
            &&& (px - start.0) * dx >= 0
            &&& (py - start.1) * dy >= 0
            &&& abs(dx) > abs(dy) ==> {
                &&& abs(px - start.0) == i
                &&& -abs(dx) <= 2 * (abs(py - start.1) * abs(dx) - i * abs(dy)) < abs(dx)
            }
            &&& abs(dx) <= abs(dy) && dy != 0 ==> {
                &&& abs(py - start.1) == i
                &&& -abs(dy) <= 2 * (abs(px - start.0) * abs(dy) - i * abs(dx)) < abs(dy)
            }
            &&& dx == 0 && dy == 0 ==> px == start.0 && py == start.1
        }),
{
    let dx = end.0 - start.0;
    let dy = end.1 - start.1;
    let ax = abs(dx);
    let ay = abs(dy);
    let (px, py) = line_point(start, end, i);
    if ax > ay {
        lemma_minor_steps_err(i, ay, ax);
        lemma_minor_steps_bounds(i, ay, ax);
        let k = minor_steps(i, ay, ax);
        let h = ax / 2;
        assert(abs(py - start.1) == k);
        assert(-ax <= 2 * (k * ax - i * ay) < ax) by {
            assert(0 <= h - i * ay + k * ax < ax);
            assert(ax == 2 * h || ax == 2 * h + 1);
        }
        assert((px - start.0) * dx >= 0) by (nonlinear_arith)
            requires
                (dx > 0 && px - start.0 == i) || (dx < 0 && px - start.0 == -i),
                i >= 0,
        ;
        assert((py - start.1) * dy >= 0) by (nonlinear_arith)
            requires
                (dy > 0 && py - start.1 == k) || (dy < 0 && py - start.1 == -k) || dy == 0,
                k >= 0,
        ;
    } else if ay > 0 {
        lemma_minor_steps_err(i, ax, ay);
        lemma_minor_steps_bounds(i, ax, ay);
        let k = minor_steps(i, ax, ay);
        let h = ay / 2;
        assert(abs(px - start.0) == k);
        assert(-ay <= 2 * (k * ay - i * ax) < ay) by {
            assert(0 <= h - i * ax + k * ay < ay);
            assert(ay == 2 * h || ay == 2 * h + 1);
        }
        assert((py - start.1) * dy >= 0) by (nonlinear_arith)
            requires
                (dy > 0 && py - start.1 == i) || (dy < 0 && py - start.1 == -i),
                i >= 0,
        ;
        assert((px - start.0) * dx >= 0) by (nonlinear_arith)
            requires
                (dx > 0 && px - start.0 == k) || (dx < 0 && px - start.0 == -k) || dx == 0,
                k >= 0,
        ;
    } else {
        assert(dx == 0 && dy == 0);
    }
}

} // verus!
