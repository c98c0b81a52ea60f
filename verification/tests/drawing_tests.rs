use lib::canvas::{create_pixels, draw_square_filled};
use lib::line::draw_line;
use lib::raster::rasterize;
use lib::shapes::{Object, Quadrangle, Triangle};

const C: [u8; 3] = [1, 2, 3];
const WHITE: [u8; 3] = [255, 255, 255];

/// The pixels that hold `c`, as (x, y) with `pixels[y][x]`.
fn pixels_of(pixels: &Vec<Vec<[u8; 3]>>, c: [u8; 3]) -> Vec<(usize, usize)> {
    let mut out = Vec::new();
    for (y, row) in pixels.iter().enumerate() {
        for (x, v) in row.iter().enumerate() {
            if *v == c {
                out.push((x, y));
            }
        }
    }
    out.sort();
    out
}

#[test]
fn create_pixels_is_white_with_given_shape() {
    let p = create_pixels(3, 2);
    assert_eq!(p.len(), 3);
    for row in &p {
        assert_eq!(row.len(), 2);
        for v in row {
            assert_eq!(*v, WHITE);
        }
    }
    assert_eq!(create_pixels(0, 5).len(), 0);
}

#[test]
fn line_shallow_slope() {
    let mut p = create_pixels(8, 8);
    draw_line(&mut p, (0, 0), (4, 2), C);
    assert_eq!(pixels_of(&p, C), vec![(0, 0), (1, 0), (2, 1), (3, 1), (4, 2)]);
}

#[test]
fn line_reversed_direction() {
    let mut p = create_pixels(8, 8);
    draw_line(&mut p, (4, 2), (0, 0), C);
    assert_eq!(pixels_of(&p, C), vec![(0, 0), (1, 1), (2, 1), (3, 2), (4, 2)]);
}

#[test]
fn line_steep_slope() {
    let mut p = create_pixels(8, 8);
    draw_line(&mut p, (1, 1), (2, 5), C);
    assert_eq!(pixels_of(&p, C), vec![(1, 1), (1, 2), (1, 3), (2, 4), (2, 5)]);
}

#[test]
fn line_single_point() {
    let mut p = create_pixels(8, 8);
    draw_line(&mut p, (3, 3), (3, 3), C);
    assert_eq!(pixels_of(&p, C), vec![(3, 3)]);
}

#[test]
fn line_diagonal_and_horizontal() {
    let mut p = create_pixels(8, 8);
    draw_line(&mut p, (5, 0), (0, 5), C);
    assert_eq!(pixels_of(&p, C), vec![(0, 5), (1, 4), (2, 3), (3, 2), (4, 1), (5, 0)]);
    let mut q = create_pixels(8, 8);
    draw_line(&mut q, (0, 3), (6, 3), C);
    assert_eq!(pixels_of(&q, C), (0..7).map(|x| (x, 3)).collect::<Vec<_>>());
}

#[test]
fn line_keeps_end_points_and_is_connected() {
    let ends = [((0, 0), (7, 3)), ((7, 7), (2, 0)), ((6, 1), (0, 4)), ((2, 6), (3, 0))];
    for (s, e) in ends {
        let mut p = create_pixels(8, 8);
        draw_line(&mut p, s, e, C);
        let got = pixels_of(&p, C);
        assert!(got.contains(&s));
        assert!(got.contains(&e));
        let dx = (e.0 as isize - s.0 as isize).abs();
        let dy = (e.1 as isize - s.1 as isize).abs();
        assert_eq!(got.len() as isize, dx.max(dy) + 1);
        for &(x, y) in &got {
            assert!(x >= s.0.min(e.0) && x <= s.0.max(e.0));
            assert!(y >= s.1.min(e.1) && y <= s.1.max(e.1));
        }
    }
}

#[test]
fn line_leaves_other_pixels_alone() {
    let mut p = create_pixels(4, 4);
    p[3][0] = [9, 9, 9];
    draw_line(&mut p, (0, 0), (3, 0), C);
    assert_eq!(p[3][0], [9, 9, 9]);
    assert_eq!(p[1][1], WHITE);
    assert_eq!(pixels_of(&p, C), vec![(0, 0), (1, 0), (2, 0), (3, 0)]);
}

#[test]
fn rasterize_fills_only_positive_orientation() {
    let mut p = create_pixels(8, 8);
    rasterize(&mut p, (0, 0), (6, 0), (0, 6), C);
    assert!(pixels_of(&p, C).is_empty());
    let mut q = create_pixels(8, 8);
    rasterize(&mut q, (0, 0), (0, 6), (6, 0), C);
    assert_eq!(
        pixels_of(&q, C),
        vec![(1, 1), (1, 2), (1, 3), (1, 4), (2, 1), (2, 2), (2, 3), (3, 1), (3, 2), (4, 1)]
    );
}

#[test]
fn rasterize_same_pixels_from_any_starting_corner() {
    let mut a = create_pixels(8, 8);
    let mut b = create_pixels(8, 8);
    let mut c = create_pixels(8, 8);
    rasterize(&mut a, (0, 0), (0, 6), (6, 0), C);
    rasterize(&mut b, (0, 6), (6, 0), (0, 0), C);
    rasterize(&mut c, (6, 0), (0, 0), (0, 6), C);
    assert_eq!(a, b);
    assert_eq!(a, c);
}

#[test]
fn triangle_draw_orders_corners() {
    let mut p = create_pixels(8, 8);
    Triangle { p1: (0, 0), p2: (6, 0), p3: (0, 6) }.draw(&mut p, C);
    assert_eq!(
        pixels_of(&p, C),
        vec![(1, 1), (1, 2), (1, 3), (1, 4), (2, 1), (2, 2), (2, 3), (3, 1), (3, 2), (4, 1)]
    );
    let mut q = create_pixels(8, 8);
    Triangle { p1: (1, 1), p2: (6, 2), p3: (3, 6) }.draw(&mut q, C);
    assert_eq!(
        pixels_of(&q, C),
        vec![(2, 2), (2, 3), (3, 2), (3, 3), (3, 4), (3, 5), (4, 2), (4, 3), (4, 4), (5, 2), (5, 3)]
    );
}

#[test]
fn triangle_outline_draws_three_sides() {
    let mut p = create_pixels(8, 8);
    Triangle { p1: (1, 1), p2: (6, 2), p3: (3, 6) }.outline(&mut p, C);
    assert_eq!(
        pixels_of(&p, C),
        vec![
            (1, 1), (1, 2), (2, 1), (2, 3), (2, 4), (3, 1), (3, 5), (3, 6), (4, 2), (4, 5),
            (5, 2), (5, 3), (5, 4), (6, 2)
        ]
    );
}

#[test]
fn quadrangle_draw_fills_both_halves_and_diagonal() {
    let mut quad = Quadrangle { p1: (1, 1), p2: (6, 1), p3: (1, 6), p4: (6, 6) };
    quad.untangle();
    assert_eq!((quad.p1, quad.p2, quad.p3, quad.p4), ((1, 1), (1, 6), (6, 1), (6, 6)));
    let mut p = create_pixels(8, 8);
    quad.draw(&mut p, C);
    let mut expected = vec![(1, 6), (6, 1)];
    for x in 2..6 {
        for y in 2..6 {
            expected.push((x, y));
        }
    }
    expected.sort();
    assert_eq!(pixels_of(&p, C), expected);
}

#[test]
fn quadrangle_outline_draws_four_sides() {
    let quad = Quadrangle { p1: (1, 1), p2: (1, 6), p3: (6, 1), p4: (6, 6) };
    let mut p = create_pixels(8, 8);
    quad.outline(&mut p, C);
    let mut expected = Vec::new();
    for i in 1..7 {
        expected.push((1, i));
        expected.push((6, i));
        if i > 1 && i < 6 {
            expected.push((i, 1));
            expected.push((i, 6));
        }
    }
    expected.sort();
    assert_eq!(pixels_of(&p, C), expected);
}

#[test]
fn square_filled_inside_canvas() {
    let mut p = create_pixels(5, 5);
    draw_square_filled(&mut p, (1, 2), 2, C);
    assert_eq!(pixels_of(&p, C), vec![(2, 1), (2, 2), (3, 1), (3, 2)]);
}

#[test]
fn square_filled_is_clipped_at_the_border() {
    let mut p = create_pixels(4, 3);
    draw_square_filled(&mut p, (2, 1), 10, C);
    assert_eq!(pixels_of(&p, C), vec![(1, 2), (1, 3), (2, 2), (2, 3)]);
    let mut q = create_pixels(4, 3);
    draw_square_filled(&mut q, (7, 0), 3, C);
    assert!(pixels_of(&q, C).is_empty());
    draw_square_filled(&mut q, (0, 0), 0, C);
    assert!(pixels_of(&q, C).is_empty());
}

#[test]
fn drawing_twice_changes_nothing_more() {
    let tri = Triangle { p1: (1, 1), p2: (6, 2), p3: (3, 6) };
    let mut once = create_pixels(8, 8);
    tri.draw(&mut once, C);
    let mut twice = once.clone();
    tri.draw(&mut twice, C);
    assert_eq!(once, twice);
}

#[test]
fn reversed_triangle_fills_nothing_where_forward_fills() {
    let mut a = create_pixels(8, 8);
    let mut b = create_pixels(8, 8);
    rasterize(&mut a, (1, 1), (3, 6), (6, 2), C);
    rasterize(&mut b, (1, 1), (6, 2), (3, 6), C);
    let fa = pixels_of(&a, C);
    let fb = pixels_of(&b, C);
    assert!(!fa.is_empty());
    assert!(fb.is_empty());
}
