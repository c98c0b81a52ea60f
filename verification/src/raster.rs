use vstd::prelude::*;
use crate::geometry::{Point, min3, max3, fits_isize, is_point, min, max};
use crate::canvas::{Color, grid, in_grid, covers, painted, set_pixel, lemma_paint_one};

verus! {

/// The edge function of the directed edge from `a` to `b` at `(x, y)`: the cross
/// product of `a - b` and `a - (x, y)`. It is positive on one side of the edge,
/// negative on the other and zero on the line through it.
pub open spec fn edge(a: Point, b: Point, x: int, y: int) -> int {
    (a.1 - b.1) * (a.0 - x) - (a.0 - b.0) * (a.1 - y)
}

/// Whether `(x, y)` is a pixel that rasterizing the triangle `p1, p2, p3` fills:
/// it lies in the bounding box, upper bounds excluded, and strictly on the positive
/// side of all three edges.
pub open spec fn raster_in(p1: Point, p2: Point, p3: Point, x: int, y: int) -> bool {
    &&& min3(p1.0 as int, p2.0 as int, p3.0 as int) <= x < max3(p1.0 as int, p2.0 as int, p3.0 as int)
    &&& min3(p1.1 as int, p2.1 as int, p3.1 as int) <= y < max3(p1.1 as int, p2.1 as int, p3.1 as int)
    &&& edge(p1, p2, x, y) > 0
    &&& edge(p2, p3, x, y) > 0
    &&& edge(p3, p1, x, y) > 0
}

/// The pixels that rasterizing the triangle `p1, p2, p3` fills.
pub open spec fn raster_region(p1: Point, p2: Point, p3: Point) -> spec_fn(int, int) -> bool {
    |x: int, y: int| raster_in(p1, p2, p3, x, y)
}

/// Whether the values computed before the sweep for the edge from `a` to `b`
/// stay within `isize`.
pub open spec fn edge_setup_fits(a: Point, b: Point, lo_x: int, lo_y: int) -> bool {
    let dx = a.0 - b.0;
    let dy = a.1 - b.1;
    let c = dy * a.0 - dx * a.1;
    &&& fits_isize(dy * a.0)
    &&& fits_isize(dx * a.1)
    &&& fits_isize(c)
    &&& fits_isize(dx * lo_y)
    &&& fits_isize(c + dx * lo_y)
    &&& fits_isize(dy * lo_x)
    &&& fits_isize(c + dx * lo_y - dy * lo_x)
}

/// Whether the edge function values that the sweep over the box
/// `[lo_x, hi_x) x [lo_y, hi_y)` computes stay within `isize`.
pub open spec fn edge_sweep_fits(a: Point, b: Point, lo_x: int, lo_y: int, hi_x: int, hi_y: int) -> bool {
    &&& forall|x: int, y: int|
        lo_x <= x <= hi_x && lo_y <= y < hi_y ==> fits_isize(#[trigger] edge(a, b, x, y))
    &&& lo_y < hi_y ==> fits_isize(edge(a, b, lo_x, hi_y))
}

/// Whether all arithmetic of rasterizing the triangle `p1, p2, p3` stays within `isize`.
pub open spec fn raster_fits(p1: Point, p2: Point, p3: Point) -> bool {
    let lo_x = min3(p1.0 as int, p2.0 as int, p3.0 as int);
    let lo_y = min3(p1.1 as int, p2.1 as int, p3.1 as int);
    let hi_x = max3(p1.0 as int, p2.0 as int, p3.0 as int);
    let hi_y = max3(p1.1 as int, p2.1 as int, p3.1 as int);
    &&& is_point(p1)
    &&& is_point(p2)
    &&& is_point(p3)
    &&& edge_setup_fits(p1, p2, lo_x, lo_y)
    &&& edge_setup_fits(p2, p3, lo_x, lo_y)
    &&& edge_setup_fits(p3, p1, lo_x, lo_y)
    &&& edge_sweep_fits(p1, p2, lo_x, lo_y, hi_x, hi_y)
    &&& edge_sweep_fits(p2, p3, lo_x, lo_y, hi_x, hi_y)
    &&& edge_sweep_fits(p3, p1, lo_x, lo_y, hi_x, hi_y)
}

/// How an edge function changes along the axes, and its value from the
/// constants the sweep starts from.
pub proof fn lemma_edge_steps(a: Point, b: Point, x: int, y: int)
    ensures
        edge(a, b, x + 1, y) == edge(a, b, x, y) - (a.1 - b.1),
        edge(a, b, x, y + 1) == edge(a, b, x, y) + (a.0 - b.0),
        edge(a, b, x, y) == ((a.1 - b.1) * a.0 - (a.0 - b.0) * a.1) + (a.0 - b.0) * y - (a.1 - b.1)
            * x,
{
    let dx = a.0 - b.0;
    let dy = a.1 - b.1;
    assert(dy * (a.0 - (x + 1)) == dy * (a.0 - x) - dy) by (nonlinear_arith);
    assert(dx * (a.1 - (y + 1)) == dx * (a.1 - y) - dx) by (nonlinear_arith);
    assert(dy * (a.0 - x) == dy * a.0 - dy * x) by (nonlinear_arith);
    assert(dx * (a.1 - y) == dx * a.1 - dx * y) by (nonlinear_arith);
}

/// Fills the triangle `p1, p2, p3` in `color`: every pixel of its bounding box
/// (upper bounds excluded) that lies strictly on the positive side of all three
/// edges takes the colour; all others keep theirs.
pub fn rasterize(pixels: &mut Vec<Vec<Color>>, p1: Point, p2: Point, p3: Point, color: Color)
    requires
        raster_fits(p1, p2, p3),
        covers(grid(old(pixels)), raster_region(p1, p2, p3)),
    ensures
        painted(grid(old(pixels)), grid(final(pixels)), raster_region(p1, p2, p3), color),
{
    let ghost g0 = grid(pixels);
    let dx12: isize = (p1.0 as isize) - (p2.0 as isize);
    let dx23: isize = (p2.0 as isize) - (p3.0 as isize);
    let dx31: isize = (p3.0 as isize) - (p1.0 as isize);

    let dy12: isize = (p1.1 as isize) - (p2.1 as isize);
    let dy23: isize = (p2.1 as isize) - (p3.1 as isize);
    let dy31: isize = (p3.1 as isize) - (p1.1 as isize);

    let min_x = min(p1.0, p2.0, p3.0);
    let min_y = min(p1.1, p2.1, p3.1);

    let max_x = max(p1.0, p2.0, p3.0);
    let max_y = max(p1.1, p2.1, p3.1);

    let c1 = dy12 * (p1.0 as isize) - dx12 * (p1.1 as isize);
    let c2 = dy23 * (p2.0 as isize) - dx23 * (p2.1 as isize);
    let c3 = dy31 * (p3.0 as isize) - dx31 * (p3.1 as isize);

    let mut cy1 = c1 + dx12 * (min_y as isize) - dy12 * (min_x as isize);
    let mut cy2 = c2 + dx23 * (min_y as isize) - dy23 * (min_x as isize);
    let mut cy3 = c3 + dx31 * (min_y as isize) - dy31 * (min_x as isize);

    proof {
        lemma_edge_steps(p1, p2, min_x as int, min_y as int);
        lemma_edge_steps(p2, p3, min_x as int, min_y as int);
        lemma_edge_steps(p3, p1, min_x as int, min_y as int);
        crate::canvas::lemma_paint_nothing(
            g0,
            |xx: int, yy: int| raster_in(p1, p2, p3, xx, yy) && yy < min_y,
            color,
        );
    }

    let mut y: usize = min_y;
    while y < max_y
        invariant
            g0 == grid(old(pixels)),
            raster_fits(p1, p2, p3),
            covers(g0, raster_region(p1, p2, p3)),
            min_x == min3(p1.0 as int, p2.0 as int, p3.0 as int),
            min_y == min3(p1.1 as int, p2.1 as int, p3.1 as int),
            max_x == max3(p1.0 as int, p2.0 as int, p3.0 as int),
            max_y == max3(p1.1 as int, p2.1 as int, p3.1 as int),
            dx12 == p1.0 - p2.0,
            dx23 == p2.0 - p3.0,
            dx31 == p3.0 - p1.0,
            dy12 == p1.1 - p2.1,
            dy23 == p2.1 - p3.1,
            dy31 == p3.1 - p1.1,
            min_y <= y <= max_y,
            cy1 == edge(p1, p2, min_x as int, y as int),
            cy2 == edge(p2, p3, min_x as int, y as int),
            cy3 == edge(p3, p1, min_x as int, y as int),
            painted(
                g0,
                grid(pixels),
                |xx: int, yy: int| raster_in(p1, p2, p3, xx, yy) && yy < y,
                color,
            ),
        decreases max_y - y,
    {
        let mut cx1 = cy1;
        let mut cx2 = cy2;
        let mut cx3 = cy3;

        let mut x: usize = min_x;
        while x < max_x
            invariant
                g0 == grid(old(pixels)),
                raster_fits(p1, p2, p3),
                covers(g0, raster_region(p1, p2, p3)),
                min_x == min3(p1.0 as int, p2.0 as int, p3.0 as int),
                min_y == min3(p1.1 as int, p2.1 as int, p3.1 as int),
                max_x == max3(p1.0 as int, p2.0 as int, p3.0 as int),
                max_y == max3(p1.1 as int, p2.1 as int, p3.1 as int),
                dx12 == p1.0 - p2.0,
                dx23 == p2.0 - p3.0,
                dx31 == p3.0 - p1.0,
                dy12 == p1.1 - p2.1,
                dy23 == p2.1 - p3.1,
                dy31 == p3.1 - p1.1,
                min_y <= y < max_y,
                min_x <= x <= max_x,
                cy1 == edge(p1, p2, min_x as int, y as int),
                cy2 == edge(p2, p3, min_x as int, y as int),
                cy3 == edge(p3, p1, min_x as int, y as int),
                cx1 == edge(p1, p2, x as int, y as int),
                cx2 == edge(p2, p3, x as int, y as int),
                cx3 == edge(p3, p1, x as int, y as int),
                painted(
                    g0,
                    grid(pixels),
                    |xx: int, yy: int|
                        raster_in(p1, p2, p3, xx, yy) && (yy < y || (yy == y && xx < x)),
                    color,
                ),
            decreases max_x - x,
        {
            let ghost mid = grid(pixels);
            let ghost done = |xx: int, yy: int|
                raster_in(p1, p2, p3, xx, yy) && (yy < y || (yy == y && xx < x));
            let ghost grown = |xx: int, yy: int|
                raster_in(p1, p2, p3, xx, yy) && (yy < y || (yy == y && xx < x + 1));
            if cx1 > 0 && cx2 > 0 && cx3 > 0 {
                assert(raster_region(p1, p2, p3)(x as int, y as int));
                assert(in_grid(g0, x as int, y as int));
                assert(grid(pixels)[y as int].len() == g0[y as int].len());
                set_pixel(pixels, x, y, color);
                proof {
                    assert forall|xx: int, yy: int| #[trigger] grown(xx, yy) == (done(xx, yy) || (xx
                        == x && yy == y)) by {}
                    lemma_paint_one(g0, mid, grid(pixels), done, grown, x as int, y as int, color);
                }
            } else {
                proof {
                    assert forall|xx: int, yy: int| in_grid(g0, xx, yy) implies #[trigger] grid(pixels)[yy][xx] == (
                    if grown(xx, yy) {
                        color
                    } else {
                        g0[yy][xx]
                    }) by {
                        assert(grown(xx, yy) == done(xx, yy));
                    }
                }
            }
            proof {
                lemma_edge_steps(p1, p2, x as int, y as int);
                lemma_edge_steps(p2, p3, x as int, y as int);
                lemma_edge_steps(p3, p1, x as int, y as int);
            }
            cx1 -= dy12;
            cx2 -= dy23;
            cx3 -= dy31;
            x = x + 1;
        }
        proof {
            lemma_edge_steps(p1, p2, min_x as int, y as int);
            lemma_edge_steps(p2, p3, min_x as int, y as int);
            lemma_edge_steps(p3, p1, min_x as int, y as int);
            let row_done = |xx: int, yy: int|
                raster_in(p1, p2, p3, xx, yy) && (yy < y || (yy == y && xx < x));
            let next = |xx: int, yy: int| raster_in(p1, p2, p3, xx, yy) && yy < y + 1;
            assert forall|xx: int, yy: int| in_grid(g0, xx, yy) implies #[trigger] grid(pixels)[yy][xx] == (
            if next(xx, yy) {
                color
            } else {
                g0[yy][xx]
            }) by {
                assert(next(xx, yy) == row_done(xx, yy));
            }
        }
        cy1 += dx12;
        cy2 += dx23;
        cy3 += dx31;
        y = y + 1;
    }
    proof {
        let swept = |xx: int, yy: int| raster_in(p1, p2, p3, xx, yy) && yy < y;
        assert forall|xx: int, yy: int| in_grid(g0, xx, yy) implies #[trigger] grid(pixels)[yy][xx] == (
        if raster_region(p1, p2, p3)(xx, yy) {
            color
        } else {
            g0[yy][xx]
        }) by {
            assert(swept(xx, yy) == raster_region(p1, p2, p3)(xx, yy));
        }
    }
}

/// Twice the signed area of the triangle `p1, p2, p3`.
pub open spec fn twice_area(p1: Point, p2: Point, p3: Point) -> int {
    edge(p1, p2, p3.0 as int, p3.1 as int)
}

/// Rasterizing fills the same pixels whichever vertex the triangle starts from.
pub proof fn lemma_raster_rotation(p1: Point, p2: Point, p3: Point)
    ensures
        forall|x: int, y: int|
            #[trigger] raster_in(p1, p2, p3, x, y) == raster_in(p2, p3, p1, x, y),
{
}

/// An edge function written out as a sum of products of coordinates.
proof fn lemma_edge_expand(a: Point, b: Point, x: int, y: int)
    ensures
        edge(a, b, x, y) == -(a.1 * x) - a.0 * b.1 + b.1 * x + a.0 * y + a.1 * b.0 - b.0 * y,
{
    let (a0, a1, b0, b1) = (a.0 as int, a.1 as int, b.0 as int, b.1 as int);
    assert((a1 - b1) * (a0 - x) - (a0 - b0) * (a1 - y) == -(a1 * x) - a0 * b1 + b1 * x + a0 * y + a1
        * b0 - b0 * y) by (nonlinear_arith);
}

/// The three edge functions of a triangle add up to twice its signed area at
/// every point; so a triangle fills pixels only if its signed area is positive.
pub proof fn lemma_raster_orientation(p1: Point, p2: Point, p3: Point, x: int, y: int)
    ensures
        edge(p1, p2, x, y) + edge(p2, p3, x, y) + edge(p3, p1, x, y) == twice_area(p1, p2, p3),
        raster_in(p1, p2, p3, x, y) ==> twice_area(p1, p2, p3) > 0,
{
    lemma_edge_expand(p1, p2, x, y);
    lemma_edge_expand(p2, p3, x, y);
    lemma_edge_expand(p3, p1, x, y);
    lemma_edge_expand(p1, p2, p3.0 as int, p3.1 as int);
    assert(p3.0 * p1.1 == p1.1 * p3.0) by (nonlinear_arith);
    assert(p3.1 * p1.0 == p1.0 * p3.1) by (nonlinear_arith);
}

/// Reversing the order of the vertices flips the side of every edge, so the two
/// orders of a triangle never fill the same pixel.
pub proof fn lemma_raster_reversed(p1: Point, p2: Point, p3: Point, x: int, y: int)
    ensures
        !(raster_in(p1, p2, p3, x, y) && raster_in(p1, p3, p2, x, y)),
{
    let (a0, a1, b0, b1) = (p1.0 as int, p1.1 as int, p3.0 as int, p3.1 as int);
    assert((a1 - b1) * (a0 - x) - (a0 - b0) * (a1 - y) == -((b1 - a1) * (b0 - x) - (b0 - a0) * (b1
        - y))) by (nonlinear_arith);
}

/// An edge function vanishes at both ends of its edge and changes sign when the edge
/// is reversed; with `lemma_edge_steps` this fixes it at every point.
pub proof fn lemma_edge_vanishes_on_edge(a: Point, b: Point, x: int, y: int)
    ensures
        edge(a, b, a.0 as int, a.1 as int) == 0,
        edge(a, b, b.0 as int, b.1 as int) == 0,
        edge(a, b, x, y) == -edge(b, a, x, y),
{
    let (a0, a1, b0, b1) = (a.0 as int, a.1 as int, b.0 as int, b.1 as int);
    assert((a1 - b1) * (a0 - b0) - (a0 - b0) * (a1 - b1) == 0) by (nonlinear_arith);
    assert((a1 - b1) * (a0 - x) - (a0 - b0) * (a1 - y) == -((b1 - a1) * (b0 - x) - (b0 - a0) * (b1
        - y))) by (nonlinear_arith);
}

} // verus!
