use vstd::prelude::*;
use vstd::multiset::Multiset;
use crate::geometry::{Point, is_point, can_displace, add_vector};
use crate::canvas::{Color, grid, covers, painted, lemma_paint_then, lemma_paint_keeps_cover, lemma_paint_same_region};
use crate::raster::{raster_fits, raster_region, rasterize, raster_in, lemma_raster_rotation};
use crate::line::{line_region, draw_line, lemma_line_endpoints};

verus! {

/// The two points ordered by column, the right one last (kept as they are on a tie).
pub open spec fn sort_x(a: Point, b: Point) -> (Point, Point) {
    if a.0 > b.0 {
        (b, a)
    } else {
        (a, b)
    }
}

/// The two points ordered by row, the lower one first (kept as they are on a tie).
pub open spec fn sort_y(a: Point, b: Point) -> (Point, Point) {
    if a.1 > b.1 {
        (b, a)
    } else {
        (a, b)
    }
}

/// The two points ordered by row, the higher one first (kept as they are on a tie).
pub open spec fn sort_y_down(a: Point, b: Point) -> (Point, Point) {
    if a.1 < b.1 {
        (b, a)
    } else {
        (a, b)
    }
}

/// The corners of a quadrangle rearranged into a left pair and a right pair, each
/// pair ordered by row.
pub open spec fn untangled(p1: Point, p2: Point, p3: Point, p4: Point) -> (Point, Point, Point, Point) {
    let (a, b) = sort_x(p1, p2);
    let (b, c) = sort_x(b, p3);
    let (a, b, d) = if a.0 < b.0 {
        let (b, d) = sort_x(b, p4);
        (a, b, d)
    } else {
        let (a, d) = sort_x(a, p4);
        (a, b, d)
    };
    let (a, b) = sort_y(a, b);
    let (c, d) = sort_y(c, d);
    (a, b, c, d)
}

/// The multiset of four points.
pub open spec fn bag4(a: Point, b: Point, c: Point, d: Point) -> Multiset<Point> {
    Multiset::empty().insert(a).insert(b).insert(c).insert(d)
}

/// The multiset of three points.
pub open spec fn bag3(a: Point, b: Point, c: Point) -> Multiset<Point> {
    Multiset::empty().insert(a).insert(b).insert(c)
}

/// Rearranges the corners of a quadrangle so that the first two form its left
/// pair and the last two its right pair, each pair ordered by row.
pub fn untangle_quadrangle(p1: Point, p2: Point, p3: Point, p4: Point) -> (r: [Point; 4])
    ensures
        r@ == seq![
            untangled(p1, p2, p3, p4).0,
            untangled(p1, p2, p3, p4).1,
            untangled(p1, p2, p3, p4).2,
            untangled(p1, p2, p3, p4).3,
        ],
{
    let mut p1 = p1;
    let mut p2 = p2;
    let mut p3 = p3;
    let mut p4 = p4;
    if p1.0 > p2.0 {
        let temp = p1;
        p1 = p2;
        p2 = temp;
    }
    if p2.0 > p3.0 {
        let temp = p2;
        p2 = p3;
        p3 = temp;
    }
    if p1.0 < p2.0 {
        if p2.0 > p4.0 {
            let temp = p2;
            p2 = p4;
            p4 = temp;
        }
    } else {
        if p1.0 > p4.0 {
            let temp = p1;
            p1 = p4;
            p4 = temp;
        }
    }
    if p1.1 > p2.1 {
        let temp = p1;
        p1 = p2;
        p2 = temp;
    }
    if p3.1 > p4.1 {
        let temp = p3;
        p3 = p4;
        p4 = temp;
    }
    let r = [p1, p2, p3, p4];
    assert(r@ =~= seq![p1, p2, p3, p4]);
    r
}

/// Untangling only rearranges the corners: the result holds the same four points.
/// The first two are the left pair: neither lies right of either of the last two.
/// Each pair is ordered by row.
pub proof fn lemma_untangled(p1: Point, p2: Point, p3: Point, p4: Point)
    ensures
        ({
            let (a, b, c, d) = untangled(p1, p2, p3, p4);
            &&& bag4(a, b, c, d) =~= bag4(p1, p2, p3, p4)
            &&& a.0 <= c.0 && a.0 <= d.0 && b.0 <= c.0 && b.0 <= d.0
            &&& a.1 <= b.1
            &&& c.1 <= d.1
        }),
{
    broadcast use vstd::multiset::group_multiset_axioms;
}

/// Untangling an untangled quadrangle changes nothing, unless the left pair lies in
/// one row with its corners out of column order (the first untangling keeps a tie in
/// rows as it is, the second puts the pair in column order first).
pub proof fn lemma_untangled_stable(p1: Point, p2: Point, p3: Point, p4: Point)
    requires
        ({
            let (a, b, c, d) = untangled(p1, p2, p3, p4);
            a.1 < b.1 || a.0 <= b.0
        }),
    ensures
        ({
            let (a, b, c, d) = untangled(p1, p2, p3, p4);
            untangled(a, b, c, d) == (a, b, c, d)
        }),
{
    lemma_untangled(p1, p2, p3, p4);
}

/// The point `p` moved by `v`.
pub open spec fn moved_point(p: Point, v: (isize, isize)) -> Point {
    ((p.0 + v.0) as usize, (p.1 + v.1) as usize)
}

/// The vector from `mid` to `p`.
pub open spec fn offset(p: Point, mid: Point) -> (isize, isize) {
    ((p.0 - mid.0) as isize, (p.1 - mid.1) as isize)
}

/// The vector `v` reversed.
pub open spec fn reversed(v: (isize, isize)) -> (isize, isize) {
    ((-v.0) as isize, (-v.1) as isize)
}

/// One round of the vertex ordering that drawing a triangle applies: order the first
/// two by column, then the last two by row, higher first.
pub open spec fn draw_round(t: (Point, Point, Point)) -> (Point, Point, Point) {
    let (a, b) = sort_x(t.0, t.1);
    let (b, c) = sort_y_down(b, t.2);
    (a, b, c)
}

/// A shape that can be filled, outlined and moved on a canvas.
pub trait Object: Sized {
    /// The pixels that `draw` fills.
    spec fn fill_region(&self) -> spec_fn(int, int) -> bool;

    /// Whether the arithmetic of filling the shape stays within `isize`.
    spec fn can_fill(&self) -> bool;

    /// The pixels that `outline` draws.
    spec fn outline_region(&self) -> spec_fn(int, int) -> bool;

    /// Whether all corners are proper coordinates.
    spec fn has_points(&self) -> bool;

    /// Whether every corner can be moved by `v`.
    spec fn can_move(&self, v: (isize, isize)) -> bool;

    /// The shape moved by `v`.
    spec fn moved(&self, v: (isize, isize)) -> Self;

    /// Fills the shape in `color`.
    fn draw(&self, pixels: &mut Vec<Vec<Color>>, color: Color)
        requires
            self.can_fill(),
            covers(grid(old(pixels)), self.fill_region()),
        ensures
            painted(grid(old(pixels)), grid(final(pixels)), self.fill_region(), color),
    ;

    /// Draws the sides of the shape in `color`.
    fn outline(&self, pixels: &mut Vec<Vec<Color>>, color: Color)
        requires
            self.has_points(),
            covers(grid(old(pixels)), self.outline_region()),
        ensures
            painted(grid(old(pixels)), grid(final(pixels)), self.outline_region(), color),
    ;

    /// Moves every corner by `vector`.
    fn displace(&mut self, vector: (isize, isize))
        requires
            old(self).can_move(vector),
        ensures
            *final(self) == old(self).moved(vector),
    ;
}

/// A triangle given by its three corners.
pub struct Triangle {
    pub p1: Point,
    pub p2: Point,
    pub p3: Point,
}

impl Object for Triangle {
    /// The pixels that `draw` fills.
    open spec fn fill_region(&self) -> spec_fn(int, int) -> bool {
        let o = self.draw_order();
        raster_region(o.0, o.1, o.2)
    }

    /// Whether the arithmetic of filling the triangle stays within `isize`.
    open spec fn can_fill(&self) -> bool {
        let o = self.draw_order();
        raster_fits(o.0, o.1, o.2)
    }

    /// The pixels of the three sides.
    open spec fn outline_region(&self) -> spec_fn(int, int) -> bool {
        |x: int, y: int|
            line_region(self.p1, self.p2)(x, y) || line_region(self.p2, self.p3)(x, y)
                || line_region(self.p1, self.p3)(x, y)
    }

    /// Whether all corners are proper coordinates.
    open spec fn has_points(&self) -> bool {
        is_point(self.p1) && is_point(self.p2) && is_point(self.p3)
    }

    /// Whether every corner can be moved by `v`.
    open spec fn can_move(&self, v: (isize, isize)) -> bool {
        can_displace(self.p1, v) && can_displace(self.p2, v) && can_displace(self.p3, v)
    }

    /// The triangle moved by `v`.
    open spec fn moved(&self, v: (isize, isize)) -> Triangle {
        Triangle { p1: moved_point(self.p1, v), p2: moved_point(self.p2, v), p3: moved_point(self.p3, v) }
    }

    /// Fills the triangle in `color`.
    fn draw(&self, pixels: &mut Vec<Vec<Color>>, color: Color) {
        let mut p1 = self.p1;
        let mut p2 = self.p2;
        let mut p3 = self.p3;
        if p1.0 > p2.0 {
            let temp = p1;
            p1 = p2;
            p2 = temp;
        }
        if p2.1 < p3.1 {
            let temp = p2;
            p2 = p3;
            p3 = temp;
        }
        if p1.0 > p2.0 {
            let temp = p1;
            p1 = p2;
            p2 = temp;
        }
        if p2.1 < p3.1 {
            let temp = p2;
            p2 = p3;
            p3 = temp;
        }
        if p1.0 > p2.0 {
            let temp = p1;
            p1 = p2;
            p2 = temp;
        }
        if p2.1 < p3.1 {
            let temp = p2;
            p2 = p3;
            p3 = temp;
        }
        assert((p1, p2, p3) == self.draw_order());
        rasterize(pixels, p1, p2, p3, color);
    }

    /// Draws the three sides of the triangle in `color`.
    fn outline(&self, pixels: &mut Vec<Vec<Color>>, color: Color) {
        let ghost g0 = grid(pixels);
        let ghost r1 = line_region(self.p1, self.p2);
        let ghost r2 = line_region(self.p2, self.p3);
        let ghost r3 = line_region(self.p1, self.p3);
        assert forall|x: int, y: int| #[trigger] r1(x, y) implies crate::canvas::in_grid(g0, x, y) by {
            assert(self.outline_region()(x, y));
        }
        draw_line(pixels, self.p1, self.p2, color);
        let ghost g1 = grid(pixels);
        proof {
            assert forall|x: int, y: int| #[trigger] r2(x, y) implies crate::canvas::in_grid(g0, x, y) by {
                assert(self.outline_region()(x, y));
            }
            lemma_paint_keeps_cover(g0, g1, r1, r2, color);
        }
        draw_line(pixels, self.p2, self.p3, color);
        let ghost g2 = grid(pixels);
        proof {
            lemma_paint_then(g0, g1, g2, r1, r2, color);
            assert forall|x: int, y: int| #[trigger] r3(x, y) implies crate::canvas::in_grid(g0, x, y) by {
                assert(self.outline_region()(x, y));
            }
            lemma_paint_keeps_cover(g0, g2, |x: int, y: int| r1(x, y) || r2(x, y), r3, color);
        }
        draw_line(pixels, self.p1, self.p3, color);
        proof {
            let r12 = |x: int, y: int| r1(x, y) || r2(x, y);
            lemma_paint_then(g0, g2, grid(pixels), r12, r3, color);
            lemma_paint_same_region(
                g0,
                grid(pixels),
                |x: int, y: int| r12(x, y) || r3(x, y),
                self.outline_region(),
                color,
            );
        }
    }

    /// Moves every corner by `vector`.
    fn displace(&mut self, vector: (isize, isize)) {
        self.p1 = add_vector(self.p1, vector);
        self.p2 = add_vector(self.p2, vector);
        self.p3 = add_vector(self.p3, vector);
    }
}

impl Triangle {
    /// The order in which `draw` hands the corners to the rasterizer.
    pub open spec fn draw_order(&self) -> (Point, Point, Point) {
        draw_round(draw_round(draw_round((self.p1, self.p2, self.p3))))
    }

    /// The point about which the triangle turns: the mean of its corners, rounded down.
    pub open spec fn centre_of(&self) -> Point {
        (
            ((self.p1.0 + self.p2.0 + self.p3.0) / 3) as usize,
            ((self.p1.1 + self.p2.1 + self.p3.1) / 3) as usize,
        )
    }

    /// The point about which the triangle turns.
    pub fn centre(&self) -> (c: Point)
        requires
            self.p1.0 + self.p2.0 + self.p3.0 <= usize::MAX,
            self.p1.1 + self.p2.1 + self.p3.1 <= usize::MAX,
        ensures
            c == self.centre_of(),
    {
        ((self.p1.0 + self.p2.0 + self.p3.0) / 3, (self.p1.1 + self.p2.1 + self.p3.1) / 3)
    }

    /// The vectors from `mid` to the three corners.
    pub fn offsets_from(&self, mid: Point) -> (d: [(isize, isize); 3])
        requires
            self.has_points(),
            is_point(mid),
        ensures
            d@ == seq![offset(self.p1, mid), offset(self.p2, mid), offset(self.p3, mid)],
    {
        let dif1 = ((self.p1.0 as isize) - (mid.0 as isize), (self.p1.1 as isize) - (mid.1 as isize));
        let dif2 = ((self.p2.0 as isize) - (mid.0 as isize), (self.p2.1 as isize) - (mid.1 as isize));
        let dif3 = ((self.p3.0 as isize) - (mid.0 as isize), (self.p3.1 as isize) - (mid.1 as isize));
        let d = [dif1, dif2, dif3];
        assert(d@ =~= seq![offset(self.p1, mid), offset(self.p2, mid), offset(self.p3, mid)]);
        d
    }

    /// Puts the corners at `mid` moved by the three vectors of `difs`.
    pub fn place_around(&mut self, mid: Point, difs: [(isize, isize); 3])
        requires
            can_displace(mid, difs@[0]),
            can_displace(mid, difs@[1]),
            can_displace(mid, difs@[2]),
        ensures
            final(self).p1 == moved_point(mid, difs@[0]),
            final(self).p2 == moved_point(mid, difs@[1]),
            final(self).p3 == moved_point(mid, difs@[2]),
    {
        self.p1 = add_vector(mid, difs[0]);
        self.p2 = add_vector(mid, difs[1]);
        self.p3 = add_vector(mid, difs[2]);
    }
}

/// Drawing only reorders the corners: the rasterizer gets the same three points.
pub proof fn lemma_draw_order_permutes(t: Triangle)
    ensures
        bag3(t.draw_order().0, t.draw_order().1, t.draw_order().2) =~= bag3(t.p1, t.p2, t.p3),
{
    broadcast use vstd::multiset::group_multiset_axioms;
}

/// Whatever the order of its corners, a triangle fills only pixels strictly inside
/// it: those on the inner side of its three edges taken one way round or the other.
pub proof fn lemma_triangle_fills_inside(t: Triangle, x: int, y: int)
    ensures
        t.fill_region()(x, y) ==> raster_in(t.p1, t.p2, t.p3, x, y) || raster_in(t.p1, t.p3, t.p2, x, y),
{
    let o = t.draw_order();
    let (a, b, c) = (t.p1, t.p2, t.p3);
    assert(o == (a, b, c) || o == (b, c, a) || o == (c, a, b) || o == (a, c, b) || o == (c, b, a)
        || o == (b, a, c));
    lemma_raster_rotation(a, b, c);
    lemma_raster_rotation(b, c, a);
    lemma_raster_rotation(a, c, b);
    lemma_raster_rotation(c, b, a);
}

/// Moving a point by `v` and then by the reverse of `v` brings it back.
pub proof fn lemma_move_point_back(p: Point, v: (isize, isize))
    requires
        can_displace(p, v),
        v.0 != isize::MIN,
        v.1 != isize::MIN,
    ensures
        can_displace(moved_point(p, v), reversed(v)),
        moved_point(moved_point(p, v), reversed(v)) == p,
{
}

/// Displacing a triangle by `v` and then by the reverse of `v` gives it back.
pub proof fn lemma_triangle_displace_back(t: Triangle, v: (isize, isize))
    requires
        t.can_move(v),
        v.0 != isize::MIN,
        v.1 != isize::MIN,
    ensures
        t.moved(v).can_move(reversed(v)),
        t.moved(v).moved(reversed(v)) == t,
{
    lemma_move_point_back(t.p1, v);
    lemma_move_point_back(t.p2, v);
    lemma_move_point_back(t.p3, v);
}

/// Placing a point at its own offset from `mid` puts it back where it was.
pub proof fn lemma_place_at_offset(p: Point, mid: Point)
    requires
        is_point(p),
        is_point(mid),
    ensures
        can_displace(mid, offset(p, mid)),
        moved_point(mid, offset(p, mid)) == p,
{
}

/// Placing the corners of a triangle around a point at their own offsets from it
/// (a turn by no angle) gives the triangle back.
pub proof fn lemma_triangle_place_offsets(t: Triangle, mid: Point)
    requires
        t.has_points(),
        is_point(mid),
    ensures
        can_displace(mid, offset(t.p1, mid)),
        can_displace(mid, offset(t.p2, mid)),
        can_displace(mid, offset(t.p3, mid)),
        (Triangle {
            p1: moved_point(mid, offset(t.p1, mid)),
            p2: moved_point(mid, offset(t.p2, mid)),
            p3: moved_point(mid, offset(t.p3, mid)),
        }) == t,
{
    lemma_place_at_offset(t.p1, mid);
    lemma_place_at_offset(t.p2, mid);
    lemma_place_at_offset(t.p3, mid);
}

/// The centre of a triangle whose corners are proper coordinates is one too.
pub proof fn lemma_triangle_centre_is_point(t: Triangle)
    requires
        t.has_points(),
    ensures
        is_point(t.centre_of()),
{
}

/// A quadrangle given by its four corners.
pub struct Quadrangle {
    pub p1: Point,
    pub p2: Point,
    pub p3: Point,
    pub p4: Point,
}

impl Object for Quadrangle {
    /// The pixels that `draw` fills: both halves and the diagonal between them.
    open spec fn fill_region(&self) -> spec_fn(int, int) -> bool {
        |x: int, y: int|
            self.first_half().fill_region()(x, y) || self.second_half().fill_region()(x, y)
                || line_region(self.p2, self.p3)(x, y)
    }

    /// Whether the arithmetic of filling the quadrangle stays within `isize`.
    open spec fn can_fill(&self) -> bool {
        &&& self.first_half().can_fill()
        &&& self.second_half().can_fill()
    }

    /// The pixels of the four sides: `p1`-`p2`, `p2`-`p4`, `p1`-`p3` and `p3`-`p4`.
    open spec fn outline_region(&self) -> spec_fn(int, int) -> bool {
        |x: int, y: int|
            line_region(self.p1, self.p2)(x, y) || line_region(self.p2, self.p4)(x, y)
                || line_region(self.p1, self.p3)(x, y) || line_region(self.p3, self.p4)(x, y)
    }

    /// Whether all corners are proper coordinates.
    open spec fn has_points(&self) -> bool {
        is_point(self.p1) && is_point(self.p2) && is_point(self.p3) && is_point(self.p4)
    }

    /// Whether every corner can be moved by `v`.
    open spec fn can_move(&self, v: (isize, isize)) -> bool {
        can_displace(self.p1, v) && can_displace(self.p2, v) && can_displace(self.p3, v)
            && can_displace(self.p4, v)
    }

    /// The quadrangle moved by `v`.
    open spec fn moved(&self, v: (isize, isize)) -> Quadrangle {
        Quadrangle {
            p1: moved_point(self.p1, v),
            p2: moved_point(self.p2, v),
            p3: moved_point(self.p3, v),
            p4: moved_point(self.p4, v),
        }
    }

    /// and the diagonal `p2`-`p3` between them.
    fn draw(&self, pixels: &mut Vec<Vec<Color>>, color: Color) {
        let ghost g0 = grid(pixels);
        let ghost r1 = self.first_half().fill_region();
        let ghost r2 = self.second_half().fill_region();
        let ghost r3 = line_region(self.p2, self.p3);
        assert forall|x: int, y: int| #[trigger] r1(x, y) implies crate::canvas::in_grid(g0, x, y) by {
            assert(self.fill_region()(x, y));
        }
        Triangle { p1: self.p1, p2: self.p2, p3: self.p3 }.draw(pixels, color);
        let ghost g1 = grid(pixels);
        proof {
            assert forall|x: int, y: int| #[trigger] r2(x, y) implies crate::canvas::in_grid(g0, x, y) by {
                assert(self.fill_region()(x, y));
            }
            lemma_paint_keeps_cover(g0, g1, r1, r2, color);
        }
        Triangle { p1: self.p4, p2: self.p2, p3: self.p3 }.draw(pixels, color);
        let ghost g2 = grid(pixels);
        proof {
            lemma_paint_then(g0, g1, g2, r1, r2, color);
            assert forall|x: int, y: int| #[trigger] r3(x, y) implies crate::canvas::in_grid(g0, x, y) by {
                assert(self.fill_region()(x, y));
            }
            lemma_paint_keeps_cover(g0, g2, |x: int, y: int| r1(x, y) || r2(x, y), r3, color);
            let o = self.first_half().draw_order();
            lemma_draw_order_permutes(self.first_half());
            broadcast use vstd::multiset::group_multiset_axioms;
            assert(bag3(o.0, o.1, o.2).count(self.p2) > 0);
            assert(is_point(self.p2) && is_point(self.p3));
        }
        draw_line(pixels, self.p2, self.p3, color);
        proof {
            let r12 = |x: int, y: int| r1(x, y) || r2(x, y);
            lemma_paint_then(g0, g2, grid(pixels), r12, r3, color);
            lemma_paint_same_region(
                g0,
                grid(pixels),
                |x: int, y: int| r12(x, y) || r3(x, y),
                self.fill_region(),
                color,
            );
        }
    }

    /// Draws the four sides of the quadrangle in `color`.
    fn outline(&self, pixels: &mut Vec<Vec<Color>>, color: Color) {
        let ghost g0 = grid(pixels);
        let ghost r1 = line_region(self.p1, self.p2);
        let ghost r2 = line_region(self.p2, self.p4);
        let ghost r3 = line_region(self.p1, self.p3);
        let ghost r4 = line_region(self.p3, self.p4);
        assert forall|x: int, y: int| #[trigger] r1(x, y) implies crate::canvas::in_grid(g0, x, y) by {
            assert(self.outline_region()(x, y));
        }
        draw_line(pixels, self.p1, self.p2, color);
        let ghost g1 = grid(pixels);
        proof {
            assert forall|x: int, y: int| #[trigger] r2(x, y) implies crate::canvas::in_grid(g0, x, y) by {
                assert(self.outline_region()(x, y));
            }
            lemma_paint_keeps_cover(g0, g1, r1, r2, color);
        }
        draw_line(pixels, self.p2, self.p4, color);
        let ghost g2 = grid(pixels);
        let ghost r12 = |x: int, y: int| r1(x, y) || r2(x, y);
        proof {
            lemma_paint_then(g0, g1, g2, r1, r2, color);
            assert forall|x: int, y: int| #[trigger] r3(x, y) implies crate::canvas::in_grid(g0, x, y) by {
                assert(self.outline_region()(x, y));
            }
            lemma_paint_keeps_cover(g0, g2, r12, r3, color);
        }
        draw_line(pixels, self.p1, self.p3, color);
        let ghost g3 = grid(pixels);
        let ghost r123 = |x: int, y: int| r12(x, y) || r3(x, y);
        proof {
            lemma_paint_then(g0, g2, g3, r12, r3, color);
            assert forall|x: int, y: int| #[trigger] r4(x, y) implies crate::canvas::in_grid(g0, x, y) by {
                assert(self.outline_region()(x, y));
            }
            lemma_paint_keeps_cover(g0, g3, r123, r4, color);
        }
        draw_line(pixels, self.p3, self.p4, color);
        proof {
            lemma_paint_then(g0, g3, grid(pixels), r123, r4, color);
            lemma_paint_same_region(
                g0,
                grid(pixels),
                |x: int, y: int| r123(x, y) || r4(x, y),
                self.outline_region(),
                color,
            );
        }
    }

    /// Moves every corner by `vector`.
    fn displace(&mut self, vector: (isize, isize)) {
        self.p1 = add_vector(self.p1, vector);
        self.p2 = add_vector(self.p2, vector);
        self.p3 = add_vector(self.p3, vector);
        self.p4 = add_vector(self.p4, vector);
    }
}

impl Quadrangle {
    /// The triangle of the first three corners.
    pub open spec fn first_half(&self) -> Triangle {
        Triangle { p1: self.p1, p2: self.p2, p3: self.p3 }
    }

    /// The triangle of the last corner and the middle two.
    pub open spec fn second_half(&self) -> Triangle {
        Triangle { p1: self.p4, p2: self.p2, p3: self.p3 }
    }

    /// The point about which the quadrangle turns: the mean of its corners, rounded down.
    pub open spec fn centre_of(&self) -> Point {
        (
            ((self.p1.0 + self.p2.0 + self.p3.0 + self.p4.0) / 4) as usize,
            ((self.p1.1 + self.p2.1 + self.p3.1 + self.p4.1) / 4) as usize,
        )
    }

    /// Fills the quadrangle in `color`, as the triangles `p1 p2 p3` and `p4 p2 p3`
    /// Rearranges the corners so that `p1`, `p2` form the left pair and `p3`, `p4`
    /// the right pair, each pair ordered by row; the same rearrangement as
    /// `untangle_quadrangle`.
    pub fn untangle(&mut self)
        ensures
            (final(self).p1, final(self).p2, final(self).p3, final(self).p4) == untangled(
                old(self).p1,
                old(self).p2,
                old(self).p3,
                old(self).p4,
            ),
    {
        let mut p1 = self.p1;
        let mut p2 = self.p2;
        let mut p3 = self.p3;
        let mut p4 = self.p4;
        if p1.0 > p2.0 {
            let temp = p1;
            p1 = p2;
            p2 = temp;
        }
        if p2.0 > p3.0 {
            let temp = p2;
            p2 = p3;
            p3 = temp;
        }
        if p1.0 < p2.0 {
            if p2.0 > p4.0 {
                let temp = p2;
                p2 = p4;
                p4 = temp;
            }
        } else {
            if p1.0 > p4.0 {
                let temp = p1;
                p1 = p4;
                p4 = temp;
            }
        }
        if p1.1 > p2.1 {
            let temp = p1;
            p1 = p2;
            p2 = temp;
        }
        if p3.1 > p4.1 {
            let temp = p3;
            p3 = p4;
            p4 = temp;
        }
        self.p1 = p1;
        self.p2 = p2;
        self.p3 = p3;
        self.p4 = p4;
    }

    /// The point about which the quadrangle turns.
    pub fn centre(&self) -> (c: Point)
        requires
            self.p1.0 + self.p2.0 + self.p3.0 + self.p4.0 <= usize::MAX,
            self.p1.1 + self.p2.1 + self.p3.1 + self.p4.1 <= usize::MAX,
        ensures
            c == self.centre_of(),
    {
        (
            (self.p1.0 + self.p2.0 + self.p3.0 + self.p4.0) / 4,
            (self.p1.1 + self.p2.1 + self.p3.1 + self.p4.1) / 4,
        )
    }

    /// The vectors from `mid` to the four corners.
    pub fn offsets_from(&self, mid: Point) -> (d: [(isize, isize); 4])
        requires
            self.has_points(),
            is_point(mid),
        ensures
            d@ == seq![
                offset(self.p1, mid),
                offset(self.p2, mid),
                offset(self.p3, mid),
                offset(self.p4, mid),
            ],
    {
        let dif1 = ((self.p1.0 as isize) - (mid.0 as isize), (self.p1.1 as isize) - (mid.1 as isize));
        let dif2 = ((self.p2.0 as isize) - (mid.0 as isize), (self.p2.1 as isize) - (mid.1 as isize));
        let dif3 = ((self.p3.0 as isize) - (mid.0 as isize), (self.p3.1 as isize) - (mid.1 as isize));
        let dif4 = ((self.p4.0 as isize) - (mid.0 as isize), (self.p4.1 as isize) - (mid.1 as isize));
        let d = [dif1, dif2, dif3, dif4];
        assert(d@ =~= seq![
            offset(self.p1, mid),
            offset(self.p2, mid),
            offset(self.p3, mid),
            offset(self.p4, mid),
        ]);
        d
    }

    /// Puts the corners at `mid` moved by the four vectors of `difs`.
    pub fn place_around(&mut self, mid: Point, difs: [(isize, isize); 4])
        requires
            can_displace(mid, difs@[0]),
            can_displace(mid, difs@[1]),
            can_displace(mid, difs@[2]),
            can_displace(mid, difs@[3]),
        ensures
            final(self).p1 == moved_point(mid, difs@[0]),
            final(self).p2 == moved_point(mid, difs@[1]),
            final(self).p3 == moved_point(mid, difs@[2]),
            final(self).p4 == moved_point(mid, difs@[3]),
    {
        self.p1 = add_vector(mid, difs[0]);
        self.p2 = add_vector(mid, difs[1]);
        self.p3 = add_vector(mid, difs[2]);
        self.p4 = add_vector(mid, difs[3]);
    }
}

/// Displacing a quadrangle by `v` and then by the reverse of `v` gives it back.
pub proof fn lemma_quadrangle_displace_back(q: Quadrangle, v: (isize, isize))
    requires
        q.can_move(v),
        v.0 != isize::MIN,
        v.1 != isize::MIN,
    ensures
        q.moved(v).can_move(reversed(v)),
        q.moved(v).moved(reversed(v)) == q,
{
    lemma_move_point_back(q.p1, v);
    lemma_move_point_back(q.p2, v);
    lemma_move_point_back(q.p3, v);
    lemma_move_point_back(q.p4, v);
}

/// Placing the corners of a quadrangle around a point at their own offsets from it
/// (a turn by no angle) gives the quadrangle back.
pub proof fn lemma_quadrangle_place_offsets(q: Quadrangle, mid: Point)
    requires
        q.has_points(),
        is_point(mid),
    ensures
        can_displace(mid, offset(q.p1, mid)),
        can_displace(mid, offset(q.p2, mid)),
        can_displace(mid, offset(q.p3, mid)),
        can_displace(mid, offset(q.p4, mid)),
        (Quadrangle {
            p1: moved_point(mid, offset(q.p1, mid)),
            p2: moved_point(mid, offset(q.p2, mid)),
            p3: moved_point(mid, offset(q.p3, mid)),
            p4: moved_point(mid, offset(q.p4, mid)),
        }) == q,
{
    lemma_place_at_offset(q.p1, mid);
    lemma_place_at_offset(q.p2, mid);
    lemma_place_at_offset(q.p3, mid);
    lemma_place_at_offset(q.p4, mid);
}

/// The centre of a quadrangle whose corners are proper coordinates is one too.
pub proof fn lemma_quadrangle_centre_is_point(q: Quadrangle)
    requires
        q.has_points(),
    ensures
        is_point(q.centre_of()),
{
}

/// Corners already in drawing order (the first two by column, the last two by row,
/// higher first) go to the rasterizer as they are: the triangle fills exactly the
/// pixels strictly on the positive side of `p1`-`p2`, `p2`-`p3` and `p3`-`p1`.
pub proof fn lemma_draw_keeps_ordered_corners(t: Triangle)
    requires
        t.p1.0 <= t.p2.0,
        t.p2.1 >= t.p3.1,
    ensures
        t.draw_order() == (t.p1, t.p2, t.p3),
        forall|x: int, y: int| #[trigger] t.fill_region()(x, y) == raster_in(t.p1, t.p2, t.p3, x, y),
{
}

/// Two corners out of column order at the front are drawn as if given the other way
/// round.
pub proof fn lemma_draw_swaps_first_pair(t: Triangle)
    requires
        t.p1.0 > t.p2.0,
    ensures
        (Triangle { p1: t.p2, p2: t.p1, p3: t.p3 }).draw_order() == t.draw_order(),
        forall|x: int, y: int| #[trigger] t.fill_region()(x, y) == (Triangle { p1: t.p2, p2: t.p1, p3: t.p3 }).fill_region()(x, y),
{
}

/// With the first two corners in column order, the last two out of row order are
/// drawn as if given the other way round.
pub proof fn lemma_draw_swaps_last_pair(t: Triangle)
    requires
        t.p1.0 <= t.p2.0,
        t.p2.1 < t.p3.1,
    ensures
        (Triangle { p1: t.p1, p2: t.p3, p3: t.p2 }).draw_order() == t.draw_order(),
        forall|x: int, y: int| #[trigger] t.fill_region()(x, y) == (Triangle { p1: t.p1, p2: t.p3, p3: t.p2 }).fill_region()(x, y),
{
}

/// The corners go to the rasterizer in drawing order: the first two by column and the
/// last two by row, higher first; and a triangle given in that order is drawn as is.
pub proof fn lemma_draw_order_is_ordered(t: Triangle)
    ensures
        t.draw_order().0.0 <= t.draw_order().1.0,
        t.draw_order().1.1 >= t.draw_order().2.1,
        (Triangle { p1: t.draw_order().0, p2: t.draw_order().1, p3: t.draw_order().2 }).draw_order()
            == t.draw_order(),
{
}

/// A quadrangle fills the triangle of its corners `p1 p2 p3`, the triangle of its
/// corners `p4 p2 p3` (in that order), and the diagonal from `p2` to `p3`; and it can
/// be filled when both triangles can.
pub proof fn lemma_quadrangle_fill_halves(q: Quadrangle)
    ensures
        forall|x: int, y: int| #[trigger] q.fill_region()(x, y) == ((Triangle {
            p1: q.p1,
            p2: q.p2,
            p3: q.p3,
        }).fill_region()(x, y) || (Triangle { p1: q.p4, p2: q.p2, p3: q.p3 }).fill_region()(x, y)
            || line_region(q.p2, q.p3)(x, y)),
        q.can_fill() == ((Triangle { p1: q.p1, p2: q.p2, p3: q.p3 }).can_fill() && (Triangle {
            p1: q.p4,
            p2: q.p2,
            p3: q.p3,
        }).can_fill()),
{
}

/// The outline of a triangle is exactly its three sides `p1`-`p2`, `p2`-`p3` and
/// `p1`-`p3`; in particular it holds all three corners.
pub proof fn lemma_triangle_outline_sides(t: Triangle)
    ensures
        forall|x: int, y: int| #[trigger] t.outline_region()(x, y) == (line_region(t.p1, t.p2)(x, y)
            || line_region(t.p2, t.p3)(x, y) || line_region(t.p1, t.p3)(x, y)),
        t.outline_region()(t.p1.0 as int, t.p1.1 as int),
        t.outline_region()(t.p2.0 as int, t.p2.1 as int),
        t.outline_region()(t.p3.0 as int, t.p3.1 as int),
{
    lemma_line_endpoints(t.p1, t.p2);
    lemma_line_endpoints(t.p2, t.p3);
}

/// The outline of a quadrangle is exactly its four sides `p1`-`p2`, `p2`-`p4`,
/// `p1`-`p3` and `p3`-`p4`; in particular it holds all four corners.
pub proof fn lemma_quadrangle_outline_sides(q: Quadrangle)
    ensures
        forall|x: int, y: int| #[trigger] q.outline_region()(x, y) == (line_region(q.p1, q.p2)(x, y)
            || line_region(q.p2, q.p4)(x, y) || line_region(q.p1, q.p3)(x, y) || line_region(
            q.p3,
            q.p4,
        )(x, y)),
        q.outline_region()(q.p1.0 as int, q.p1.1 as int),
        q.outline_region()(q.p2.0 as int, q.p2.1 as int),
        q.outline_region()(q.p3.0 as int, q.p3.1 as int),
        q.outline_region()(q.p4.0 as int, q.p4.1 as int),
{
    lemma_line_endpoints(q.p1, q.p2);
    lemma_line_endpoints(q.p3, q.p4);
}

/// Moving a point adds the vector to each coordinate.
pub proof fn lemma_moved_point_coords(p: Point, v: (isize, isize))
    requires
        can_displace(p, v),
    ensures
        moved_point(p, v).0 == p.0 + v.0,
        moved_point(p, v).1 == p.1 + v.1,
{
}

/// Placing at an offset from a point and taking the offset back agree: the offset of
/// `p` from `mid` is `p - mid`, coordinate by coordinate.
pub proof fn lemma_offset_coords(p: Point, mid: Point)
    requires
        is_point(p),
        is_point(mid),
    ensures
        offset(p, mid).0 == p.0 - mid.0,
        offset(p, mid).1 == p.1 - mid.1,
{
}

/// Displacing a triangle moves each corner by the vector, coordinate by coordinate.
pub proof fn lemma_triangle_moved_corners(t: Triangle, v: (isize, isize))
    requires
        t.can_move(v),
    ensures
        t.moved(v).p1.0 == t.p1.0 + v.0 && t.moved(v).p1.1 == t.p1.1 + v.1,
        t.moved(v).p2.0 == t.p2.0 + v.0 && t.moved(v).p2.1 == t.p2.1 + v.1,
        t.moved(v).p3.0 == t.p3.0 + v.0 && t.moved(v).p3.1 == t.p3.1 + v.1,
{
}

/// Displacing a quadrangle moves each corner by the vector, coordinate by coordinate.
pub proof fn lemma_quadrangle_moved_corners(q: Quadrangle, v: (isize, isize))
    requires
        q.can_move(v),
    ensures
        q.moved(v).p1.0 == q.p1.0 + v.0 && q.moved(v).p1.1 == q.p1.1 + v.1,
        q.moved(v).p2.0 == q.p2.0 + v.0 && q.moved(v).p2.1 == q.p2.1 + v.1,
        q.moved(v).p3.0 == q.p3.0 + v.0 && q.moved(v).p3.1 == q.p3.1 + v.1,
        q.moved(v).p4.0 == q.p4.0 + v.0 && q.moved(v).p4.1 == q.p4.1 + v.1,
{
}

/// The centre of a triangle is the mean of its corners rounded down, coordinate by
/// coordinate: three times it is at most the sum and more than the sum minus three.
pub proof fn lemma_triangle_centre_is_mean(t: Triangle)
    requires
        t.p1.0 + t.p2.0 + t.p3.0 <= usize::MAX,
        t.p1.1 + t.p2.1 + t.p3.1 <= usize::MAX,
    ensures
        3 * t.centre_of().0 <= t.p1.0 + t.p2.0 + t.p3.0 < 3 * t.centre_of().0 + 3,
        3 * t.centre_of().1 <= t.p1.1 + t.p2.1 + t.p3.1 < 3 * t.centre_of().1 + 3,
{
}

/// The centre of a quadrangle is the mean of its corners rounded down, coordinate by
/// coordinate: four times it is at most the sum and more than the sum minus four.
pub proof fn lemma_quadrangle_centre_is_mean(q: Quadrangle)
    requires
        q.p1.0 + q.p2.0 + q.p3.0 + q.p4.0 <= usize::MAX,
        q.p1.1 + q.p2.1 + q.p3.1 + q.p4.1 <= usize::MAX,
    ensures
        4 * q.centre_of().0 <= q.p1.0 + q.p2.0 + q.p3.0 + q.p4.0 < 4 * q.centre_of().0 + 4,
        4 * q.centre_of().1 <= q.p1.1 + q.p2.1 + q.p3.1 + q.p4.1 < 4 * q.centre_of().1 + 4,
{
}

} // verus!
