use vstd::prelude::*;

verus! {

/// A colour: red, green and blue intensities.
pub type Color = [u8; 3];

/// The colour a fresh canvas is filled with.
pub open spec fn blank() -> Color {
    [255u8, 255u8, 255u8]
}

/// The pixels of a canvas as a sequence of rows; `grid(p)[i][j]` is `p[i][j]`.
pub open spec fn grid(pixels: &Vec<Vec<Color>>) -> Seq<Seq<Color>> {
    pixels@.map_values(|row: Vec<Color>| row@)
}

/// Whether `(x, y)` names a pixel of `g`: `y` picks the row, `x` the place in it.
pub open spec fn in_grid(g: Seq<Seq<Color>>, x: int, y: int) -> bool {
    0 <= y < g.len() && 0 <= x < g[y].len()
}

/// Whether every point of `region` names a pixel of `g`.
pub open spec fn covers(g: Seq<Seq<Color>>, region: spec_fn(int, int) -> bool) -> bool {
    forall|x: int, y: int| #[trigger] region(x, y) ==> in_grid(g, x, y)
}

/// Whether `new` is `old` with exactly the pixels of `region` set to `color`:
/// same shape, the pixels of the region hold `color`, all others are unchanged.
pub open spec fn painted(
    old: Seq<Seq<Color>>,
    new: Seq<Seq<Color>>,
    region: spec_fn(int, int) -> bool,
    color: Color,
) -> bool {
    &&& new.len() == old.len()
    &&& forall|y: int| 0 <= y < old.len() ==> #[trigger] new[y].len() == old[y].len()
    &&& forall|x: int, y: int|
        in_grid(old, x, y) ==> #[trigger] new[y][x] == (if region(x, y) {
            color
        } else {
            old[y][x]
        })
}

/// Sets the pixel in row `y`, place `x` to `color`.
pub(crate) fn set_pixel(pixels: &mut Vec<Vec<Color>>, x: usize, y: usize, color: Color)
    requires
        in_grid(grid(old(pixels)), x as int, y as int),
    ensures
        grid(final(pixels)) == grid(old(pixels)).update(
            y as int,
            grid(old(pixels))[y as int].update(x as int, color),
        ),
{
    pixels[y][x] = color;
    assert(grid(pixels) =~= grid(old(pixels)).update(
        y as int,
        grid(old(pixels))[y as int].update(x as int, color),
    ));
}

/// A canvas of `width` rows of `height` white pixels each
/// (the canvas is indexed `pixels[y][x]`; with `width == height` it is square).
pub fn create_pixels(width: usize, height: usize) -> (pixels: Vec<Vec<Color>>)
    ensures
        pixels.len() == width,
        forall|i: int| 0 <= i < width ==> #[trigger] grid(&pixels)[i].len() == height,
        forall|x: int, y: int|
            in_grid(grid(&pixels), x, y) ==> #[trigger] grid(&pixels)[y][x] == blank(),
{
    let white: Color = [0xFF; 3];
    let mut pixels: Vec<Vec<Color>> = Vec::new();
    for i in 0..width
        invariant
            pixels.len() == i,
            white == blank(),
            forall|k: int| 0 <= k < i ==> #[trigger] grid(&pixels)[k].len() == height,
            forall|x: int, y: int|
                in_grid(grid(&pixels), x, y) ==> #[trigger] grid(&pixels)[y][x] == blank(),
    {
        let mut row: Vec<Color> = Vec::new();
        for j in 0..height
            invariant
                row.len() == j,
                white == blank(),
                forall|k: int| 0 <= k < j ==> #[trigger] row@[k] == blank(),
        {
            row.push(white);
        }
        let ghost before = grid(&pixels);
        pixels.push(row);
        assert(grid(&pixels) =~= before.push(row@));
    }
    pixels
}

/// The square of side `size` whose first corner is `upper_left`, where
/// `upper_left.0` counts outer entries (`y`) and `upper_left.1` inner ones (`x`).
pub open spec fn square_region(upper_left: (usize, usize), size: usize) -> spec_fn(int, int) -> bool {
    |x: int, y: int|
        upper_left.0 <= y < upper_left.0 + size && upper_left.1 <= x < upper_left.1 + size
}

/// Fills the square of side `size` at `upper_left` with `color`; the parts of the
/// square that lie outside the canvas are left out.
pub fn draw_square_filled(
    pixels: &mut Vec<Vec<Color>>,
    upper_left: (usize, usize),
    size: usize,
    color: Color,
)
    ensures
        painted(grid(old(pixels)), grid(final(pixels)), square_region(upper_left, size), color),
{
    let ghost g0 = grid(pixels);
    let rows = pixels.len();
    if upper_left.0 >= rows {
        return;
    }
    let end_y: usize = if size <= rows - upper_left.0 {
        upper_left.0 + size
    } else {
        rows
    };
    let mut y: usize = upper_left.0;
    while y < end_y
        invariant
            upper_left.0 <= y <= end_y <= rows,
            end_y == upper_left.0 + size || end_y == rows,
            end_y <= upper_left.0 + size,
            rows == g0.len(),
            painted(
                g0,
                grid(pixels),
                |x: int, yy: int| square_region(upper_left, size)(x, yy) && yy < y,
                color,
            ),
        decreases end_y - y,
    {
        let len = pixels[y].len();
        assert(grid(pixels)[y as int] == pixels@[y as int]@);
        assert(grid(pixels)[y as int].len() == g0[y as int].len());
        let mut x: usize = upper_left.1;
        if x < len {
            let end_x: usize = if size <= len - upper_left.1 {
                upper_left.1 + size
            } else {
                len
            };
            while x < end_x
                invariant
                    upper_left.0 <= y < end_y <= rows,
                    end_y <= upper_left.0 + size,
                    upper_left.1 <= x <= end_x <= len,
                    end_x == upper_left.1 + size || end_x == len,
                    end_x <= upper_left.1 + size,
                    rows == g0.len(),
                    len == g0[y as int].len(),
                    painted(
                        g0,
                        grid(pixels),
                        |xx: int, yy: int|
                            square_region(upper_left, size)(xx, yy) && (yy < y || (yy == y
                                && xx < x)),
                        color,
                    ),
                decreases end_x - x,
            {
                set_pixel(pixels, x, y, color);
                x = x + 1;
            }
        }
        y = y + 1;
    }
}

/// Painting one more pixel extends a painted region by that pixel.
pub proof fn lemma_paint_one(
    old: Seq<Seq<Color>>,
    mid: Seq<Seq<Color>>,
    new: Seq<Seq<Color>>,
    region: spec_fn(int, int) -> bool,
    grown: spec_fn(int, int) -> bool,
    x: int,
    y: int,
    color: Color,
)
    requires
        painted(old, mid, region, color),
        in_grid(old, x, y),
        new == mid.update(y, mid[y].update(x, color)),
        forall|xx: int, yy: int| #[trigger] grown(xx, yy) == (region(xx, yy) || (xx == x && yy == y)),
    ensures
        painted(old, new, grown, color),
{
    assert forall|yy: int| 0 <= yy < old.len() implies #[trigger] new[yy].len() == old[yy].len() by {
        assert(mid[yy].len() == old[yy].len());
    }
    assert forall|xx: int, yy: int| in_grid(old, xx, yy) implies #[trigger] new[yy][xx] == (if grown(
        xx,
        yy,
    ) {
        color
    } else {
        old[yy][xx]
    }) by {
        assert(mid[yy][xx] == (if region(xx, yy) {
            color
        } else {
            old[yy][xx]
        }));
        assert(grown(xx, yy) == (region(xx, yy) || (xx == x && yy == y)));
    }
}

/// A canvas is painted with the empty region by leaving it as it is.
pub proof fn lemma_paint_nothing(g: Seq<Seq<Color>>, region: spec_fn(int, int) -> bool, color: Color)
    requires
        forall|x: int, y: int| !#[trigger] region(x, y),
    ensures
        painted(g, g, region, color),
{
    assert forall|x: int, y: int| in_grid(g, x, y) implies #[trigger] g[y][x] == (if region(x, y) {
        color
    } else {
        g[y][x]
    }) by {
        assert(!region(x, y));
    }
}

/// Painting one region and then another in the same colour paints their union.
pub proof fn lemma_paint_then(
    g0: Seq<Seq<Color>>,
    g1: Seq<Seq<Color>>,
    g2: Seq<Seq<Color>>,
    first: spec_fn(int, int) -> bool,
    second: spec_fn(int, int) -> bool,
    color: Color,
)
    requires
        painted(g0, g1, first, color),
        painted(g1, g2, second, color),
    ensures
        painted(g0, g2, |x: int, y: int| first(x, y) || second(x, y), color),
{
    assert forall|y: int| 0 <= y < g0.len() implies #[trigger] g2[y].len() == g0[y].len() by {
        assert(g1[y].len() == g0[y].len());
    }
    assert forall|x: int, y: int| in_grid(g0, x, y) implies #[trigger] g2[y][x] == (if first(x, y)
        || second(x, y) {
        color
    } else {
        g0[y][x]
    }) by {
        assert(g1[y].len() == g0[y].len());
        assert(in_grid(g1, x, y));
        assert(g1[y][x] == (if first(x, y) {
            color
        } else {
            g0[y][x]
        }));
    }
}

/// Painting keeps the shape of a canvas, so what a region covers stays covered.
pub proof fn lemma_paint_keeps_cover(
    g0: Seq<Seq<Color>>,
    g1: Seq<Seq<Color>>,
    done: spec_fn(int, int) -> bool,
    region: spec_fn(int, int) -> bool,
    color: Color,
)
    requires
        painted(g0, g1, done, color),
        covers(g0, region),
    ensures
        covers(g1, region),
{
    assert forall|x: int, y: int| #[trigger] region(x, y) implies in_grid(g1, x, y) by {
        assert(in_grid(g0, x, y));
        assert(g1[y].len() == g0[y].len());
    }
}

/// Whether a canvas is painted depends on the points of the region, not on how
/// the region is written.
pub proof fn lemma_paint_same_region(
    g0: Seq<Seq<Color>>,
    g1: Seq<Seq<Color>>,
    region: spec_fn(int, int) -> bool,
    same: spec_fn(int, int) -> bool,
    color: Color,
)
    requires
        painted(g0, g1, region, color),
        forall|x: int, y: int| #[trigger] region(x, y) == same(x, y),
    ensures
        painted(g0, g1, same, color),
{
    assert forall|x: int, y: int| in_grid(g0, x, y) implies #[trigger] g1[y][x] == (if same(x, y) {
        color
    } else {
        g0[y][x]
    }) by {
        assert(region(x, y) == same(x, y));
    }
}

/// Painting a region a second time in the same colour changes nothing more.
pub proof fn lemma_paint_twice(
    g0: Seq<Seq<Color>>,
    g1: Seq<Seq<Color>>,
    g2: Seq<Seq<Color>>,
    region: spec_fn(int, int) -> bool,
    color: Color,
)
    requires
        painted(g0, g1, region, color),
        painted(g1, g2, region, color),
    ensures
        g2 =~~= g1,
{
    assert forall|y: int| 0 <= y < g1.len() implies #[trigger] g2[y] =~= g1[y] by {
        assert(g1[y].len() == g0[y].len());
        assert forall|x: int| 0 <= x < g1[y].len() implies g2[y][x] == g1[y][x] by {
            assert(in_grid(g0, x, y));
            assert(in_grid(g1, x, y));
        }
    }
}

/// The square at `upper_left` of side `size` covers the outer indices (rows `y`)
/// from `upper_left.0` and the inner indices (`x`) from `upper_left.1`, `size` of
/// each; so a filled square paints exactly those pixels of the canvas.
pub proof fn lemma_square_region_bounds(upper_left: (usize, usize), size: usize, x: int, y: int)
    ensures
        square_region(upper_left, size)(x, y) <==> (upper_left.0 <= y && y - upper_left.0 < size
            && upper_left.1 <= x && x - upper_left.1 < size),
{
}

} // verus!
