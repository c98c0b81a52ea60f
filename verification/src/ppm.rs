use vstd::prelude::*;
use crate::canvas::{Color, grid};

verus! {

/// The decimal digits of `n` as ASCII bytes, most significant first.
pub open spec fn decimal(n: nat) -> Seq<u8>
    decreases n,
{
    if n < 10 {
        seq![(48 + n) as u8]
    } else {
        decimal(n / 10).push((48 + n % 10) as u8)
    }
}

/// The header of a binary PPM image (`P6`) of the given size, with colour depth 255:
/// `P6 <width> <height> 255` and a newline.
pub open spec fn ppm_header(width: nat, height: nat) -> Seq<u8> {
    seq![80u8, 54u8, 32u8] + decimal(width) + seq![32u8] + decimal(height) + seq![
        32u8,
        50u8,
        53u8,
        53u8,
        10u8,
    ]
}

/// The bytes of a colour: red, green, blue.
pub open spec fn color_bytes(c: Color) -> Seq<u8> {
    seq![c@[0], c@[1], c@[2]]
}

/// The bytes of a row of pixels, one colour after the other.
pub open spec fn row_bytes(row: Seq<Color>) -> Seq<u8>
    decreases row.len(),
{
    if row.len() == 0 {
        seq![]
    } else {
        row_bytes(row.drop_last()) + color_bytes(row.last())
    }
}

/// The bytes of all rows, one row after the other.
pub open spec fn grid_bytes(rows: Seq<Seq<Color>>) -> Seq<u8>
    decreases rows.len(),
{
    if rows.len() == 0 {
        seq![]
    } else {
        grid_bytes(rows.drop_last()) + row_bytes(rows.last())
    }
}

/// The PPM image of a canvas: the header, giving the number of rows as the width
/// and the length of the first row as the height, then the pixels row by row.
pub open spec fn ppm_image(g: Seq<Seq<Color>>) -> Seq<u8> {
    ppm_header(g.len(), g[0].len()) + grid_bytes(g)
}

/// Appends the decimal digits of `n`.
fn push_decimal(out: &mut Vec<u8>, n: usize)
    ensures
        final(out)@ == old(out)@ + decimal(n as nat),
    decreases n,
{
    if n >= 10 {
        push_decimal(out, n / 10);
    }
    out.push(48u8 + (n % 10) as u8);
    proof {
        if n < 10 {
            assert(decimal(n as nat) == seq![(48 + n) as u8]);
        }
    }
    assert(out@ =~= old(out)@ + decimal(n as nat));
}

/// The bytes of the binary PPM image of the canvas.
pub fn ppm_bytes(pixels: &Vec<Vec<Color>>) -> (bytes: Vec<u8>)
    requires
        pixels.len() > 0,
    ensures
        bytes@ == ppm_image(grid(pixels)),
{
    let ghost g = grid(pixels);
    let mut out: Vec<u8> = Vec::new();
    out.push(80u8);
    out.push(54u8);
    out.push(32u8);
    push_decimal(&mut out, pixels.len());
    out.push(32u8);
    assert(g[0] == pixels@[0]@);
    push_decimal(&mut out, pixels[0].len());
    out.push(32u8);
    out.push(50u8);
    out.push(53u8);
    out.push(53u8);
    out.push(10u8);
    let ghost header = out@;
    assert(header =~= ppm_header(g.len(), g[0].len()));
    assert(g.take(0) =~= Seq::<Seq<Color>>::empty());
    assert(out@ =~= header + grid_bytes(g.take(0)));
    let mut i: usize = 0;
    while i < pixels.len()
        invariant
            g == grid(pixels),
            header == ppm_header(g.len(), g[0].len()),
            0 <= i <= pixels.len(),
            out@ == header + grid_bytes(g.take(i as int)),
        decreases pixels.len() - i,
    {
        let row = &pixels[i];
        assert(g[i as int] == row@);
        assert(row@.take(0) =~= Seq::<Color>::empty());
        assert(out@ =~= header + grid_bytes(g.take(i as int)) + row_bytes(row@.take(0)));
        let mut j: usize = 0;
        while j < row.len()
            invariant
                g == grid(pixels),
                g[i as int] == row@,
                0 <= i < pixels.len(),
                0 <= j <= row.len(),
                out@ == header + grid_bytes(g.take(i as int)) + row_bytes(row@.take(j as int)),
            decreases row.len() - j,
        {
            let pix = row[j];
            out.push(pix[0]);
            out.push(pix[1]);
            out.push(pix[2]);
            assert(row@.take(j + 1).drop_last() =~= row@.take(j as int));
            assert(row@.take(j + 1).last() == pix);
            assert(out@ =~= header + grid_bytes(g.take(i as int)) + row_bytes(row@.take(j + 1)));
            j = j + 1;
        }
        assert(row@.take(j as int) =~= row@);
        assert(g.take(i + 1).drop_last() =~= g.take(i as int));
        assert(g.take(i + 1).last() == row@);
        assert(out@ =~= header + grid_bytes(g.take(i + 1)));
        i = i + 1;
    }
    assert(g.take(i as int) =~= g);
    out
}

/// The number that a sequence of ASCII decimal digits spells.
pub open spec fn digits_value(s: Seq<u8>) -> int
    decreases s.len(),
{
    if s.len() == 0 {
        0
    } else {
        digits_value(s.drop_last()) * 10 + (s.last() - 48)
    }
}

/// The digits of a number are ASCII digits and spell the number back.
pub proof fn lemma_decimal_reads_back(n: nat)
    ensures
        decimal(n).len() > 0,
        forall|i: int| 0 <= i < decimal(n).len() ==> 48 <= #[trigger] decimal(n)[i] <= 57,
        digits_value(decimal(n)) == n,
    decreases n,
{
    if n >= 10 {
        lemma_decimal_reads_back(n / 10);
        let d = decimal(n);
        assert(d.drop_last() =~= decimal(n / 10));
        assert(0 <= n % 10 < 10);
        assert(d.last() == 48 + n % 10);
        assert(n == (n / 10) * 10 + n % 10);
        assert(digits_value(d) == digits_value(decimal(n / 10)) * 10 + (d.last() - 48));
    } else {
        let d = decimal(n);
        assert(d.drop_last() =~= Seq::<u8>::empty());
        assert(digits_value(d.drop_last()) == 0);
        assert(d.last() == 48 + n);
        assert(digits_value(d) == digits_value(d.drop_last()) * 10 + (d.last() - 48));
    }
}

/// A row of pixels takes three bytes per pixel.
pub proof fn lemma_row_bytes_len(row: Seq<Color>)
    ensures
        row_bytes(row).len() == 3 * row.len(),
    decreases row.len(),
{
    if row.len() > 0 {
        lemma_row_bytes_len(row.drop_last());
    }
}

/// The pixels of a canvas of `rows` rows of `cols` pixels take `3 * rows * cols` bytes.
pub proof fn lemma_grid_bytes_len(g: Seq<Seq<Color>>, cols: nat)
    requires
        forall|y: int| 0 <= y < g.len() ==> #[trigger] g[y].len() == cols,
    ensures
        grid_bytes(g).len() == 3 * g.len() * cols,
    decreases g.len(),
{
    if g.len() > 0 {
        let rest = g.drop_last();
        assert forall|y: int| 0 <= y < rest.len() implies #[trigger] rest[y].len() == cols by {
            assert(rest[y] == g[y]);
        }
        lemma_grid_bytes_len(rest, cols);
        lemma_row_bytes_len(g.last());
        assert(g.last().len() == cols);
        assert(grid_bytes(g) == grid_bytes(rest) + row_bytes(g.last()));
        assert(rest.len() == g.len() - 1);
        assert(3 * g.len() * cols == 3 * (g.len() - 1) * cols + 3 * cols) by (nonlinear_arith)
            requires
                g.len() > 0,
        ;
    } else {
        assert(3 * g.len() * cols == 0) by (nonlinear_arith)
            requires
                g.len() == 0,
        ;
    }
}

/// The PPM image of a canvas of `rows` rows of `cols` pixels is its header and then
/// `3 * rows * cols` bytes of pixels.
pub proof fn lemma_ppm_image_len(g: Seq<Seq<Color>>, cols: nat)
    requires
        g.len() > 0,
        forall|y: int| 0 <= y < g.len() ==> #[trigger] g[y].len() == cols,
    ensures
        ppm_image(g).len() == ppm_header(g.len(), cols).len() + 3 * g.len() * cols,
{
    lemma_grid_bytes_len(g, cols);
}

/// The bytes of a row are its colours in index order: bytes `3 * j .. 3 * j + 3`
/// are the red, green and blue of pixel `j`.
pub proof fn lemma_row_bytes_index(row: Seq<Color>, j: int, k: int)
    requires
        0 <= j < row.len(),
        0 <= k < 3,
    ensures
        row_bytes(row).len() == 3 * row.len(),
        row_bytes(row)[3 * j + k] == row[j]@[k],
    decreases row.len(),
{
    lemma_row_bytes_len(row);
    let rest = row.drop_last();
    lemma_row_bytes_len(rest);
    if j < row.len() - 1 {
        lemma_row_bytes_index(rest, j, k);
        assert(rest[j] == row[j]);
    } else {
        assert(row_bytes(row) == row_bytes(rest) + color_bytes(row.last()));
    }
}

/// In a canvas of rows of `cols` pixels each, the pixel in row `y`, place `x` takes
/// bytes `3 * (y * cols + x) .. + 3`: rows in order, each row left to right.
pub proof fn lemma_grid_bytes_index(g: Seq<Seq<Color>>, cols: nat, y: int, x: int, k: int)
    requires
        forall|i: int| 0 <= i < g.len() ==> #[trigger] g[i].len() == cols,
        0 <= y < g.len(),
        0 <= x < cols,
        0 <= k < 3,
    ensures
        grid_bytes(g)[3 * (y * cols + x) + k] == g[y][x]@[k],
    decreases g.len(),
{
    let rest = g.drop_last();
    assert forall|i: int| 0 <= i < rest.len() implies #[trigger] rest[i].len() == cols by {
        assert(rest[i] == g[i]);
    }
    lemma_grid_bytes_len(rest, cols);
    assert(grid_bytes(g) == grid_bytes(rest) + row_bytes(g.last()));
    if y < g.len() - 1 {
        lemma_grid_bytes_index(rest, cols, y, x, k);
        assert(rest[y] == g[y]);
        assert(3 * (y * cols + x) + k < 3 * rest.len() * cols) by (nonlinear_arith)
            requires
                0 <= y < rest.len(),
                0 <= x < cols,
                0 <= k < 3,
        ;
    } else {
        assert(g.last().len() == cols);
        lemma_row_bytes_index(g.last(), x, k);
        assert(3 * (y * cols + x) + k == 3 * rest.len() * cols + (3 * x + k)) by (nonlinear_arith)
            requires
                y == rest.len(),
        ;
    }
}

/// The header of a PPM image spells `P6`, the width, the height and the depth 255,
/// separated by spaces and ended by a newline; each size is written in decimal digits
/// without leading zeros.
pub proof fn lemma_ppm_header_fields(width: nat, height: nat)
    ensures
        exists|w: Seq<u8>, h: Seq<u8>|
            {
                &&& ppm_header(width, height) == seq![80u8, 54u8, 32u8] + w + seq![32u8] + h + seq![
                    32u8,
                    50u8,
                    53u8,
                    53u8,
                    10u8,
                ]
                &&& #[trigger] digits_value(w) == width
                &&& #[trigger] digits_value(h) == height
                &&& is_decimal(w)
                &&& is_decimal(h)
            },
{
    lemma_decimal_reads_back(width);
    lemma_decimal_reads_back(height);
    lemma_decimal_no_leading_zero(width);
    lemma_decimal_no_leading_zero(height);
    let w = decimal(width);
    let h = decimal(height);
    assert(digits_value(w) == width);
    assert(digits_value(h) == height);
}

/// Whether `s` is a number in decimal: ASCII digits, at least one, and no leading zero
/// unless the number is zero.
pub open spec fn is_decimal(s: Seq<u8>) -> bool {
    &&& s.len() > 0
    &&& forall|i: int| 0 <= i < s.len() ==> 48 <= #[trigger] s[i] <= 57
    &&& s.len() > 1 ==> s[0] != 48
}

/// The digits of a number have no leading zero.
pub proof fn lemma_decimal_no_leading_zero(n: nat)
    ensures
        is_decimal(decimal(n)),
    decreases n,
{
    lemma_decimal_reads_back(n);
    if n >= 10 {
        lemma_decimal_no_leading_zero(n / 10);
        lemma_decimal_reads_back(n / 10);
        let d = decimal(n / 10);
        assert(d.len() > 0);
        assert(decimal(n) == d.push((48 + n % 10) as u8));
        assert(decimal(n)[0] == d[0]);
        if n / 10 < 10 {
            assert(1 <= n / 10);
            assert(d == seq![(48 + n / 10) as u8]);
            assert(d[0] == 48 + n / 10);
        } else {
            lemma_decimal_reads_back(n / 10 / 10);
            assert(d == decimal(n / 10 / 10).push((48 + (n / 10) % 10) as u8));
            assert(d.len() > 1);
        }
        assert(decimal(n)[0] != 48);
    }
}

/// In the PPM image of a canvas of rows of `cols` pixels, the pixel in row `y`,
/// place `x` takes bytes `3 * (y * cols + x) .. + 3` after the header.
pub proof fn lemma_ppm_image_pixel(g: Seq<Seq<Color>>, cols: nat, y: int, x: int, k: int)
    requires
        g.len() > 0,
        forall|i: int| 0 <= i < g.len() ==> #[trigger] g[i].len() == cols,
        0 <= y < g.len(),
        0 <= x < cols,
        0 <= k < 3,
    ensures
        ppm_image(g)[ppm_header(g.len(), cols).len() + 3 * (y * cols + x) + k] == g[y][x]@[k],
{
    assert(g[0].len() == cols);
    lemma_grid_bytes_index(g, cols, y, x, k);
    lemma_grid_bytes_len(g, cols);
    assert(3 * (y * cols + x) + k < 3 * g.len() * cols) by (nonlinear_arith)
        requires
            0 <= y < g.len(),
            0 <= x < cols,
            0 <= k < 3,
    ;
}

} // verus!
