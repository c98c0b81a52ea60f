use lib::geometry::{add_vector, max, min, sign};
use lib::shapes::{untangle_quadrangle, Object, Quadrangle, Triangle};

#[test]
fn sign_of_positive_negative_and_zero() {
    assert_eq!(sign(5), 1);
    assert_eq!(sign(-3), -1);
    assert_eq!(sign(0), 0);
    assert_eq!(sign(isize::MAX), 1);
    assert_eq!(sign(isize::MIN), -1);
}

#[test]
fn min_and_max_of_three() {
    assert_eq!(min(3, 1, 2), 1);
    assert_eq!(min(1, 3, 2), 1);
    assert_eq!(min(3, 2, 1), 1);
    assert_eq!(min(4, 4, 4), 4);
    assert_eq!(max(3, 1, 2), 3);
    assert_eq!(max(1, 3, 2), 3);
    assert_eq!(max(1, 2, 3), 3);
    assert_eq!(max(0, 0, 0), 0);
}

#[test]
fn add_vector_moves_both_coordinates() {
    assert_eq!(add_vector((3, 4), (2, -4)), (5, 0));
    assert_eq!(add_vector((10, 0), (-10, 7)), (0, 7));
    assert_eq!(add_vector((0, 0), (0, 0)), (0, 0));
}

#[test]
fn untangle_quadrangle_of_the_demo_shape() {
    let r = untangle_quadrangle((300, 200), (700, 400), (200, 800), (500, 600));
    assert_eq!(r, [(300, 200), (200, 800), (700, 400), (500, 600)]);
}

#[test]
fn untangle_quadrangle_splits_left_and_right_pairs() {
    let r = untangle_quadrangle((5, 1), (1, 9), (3, 3), (0, 0));
    assert_eq!(r, [(0, 0), (1, 9), (5, 1), (3, 3)]);
    let left = r[0].0.max(r[1].0);
    let right = r[2].0.min(r[3].0);
    assert!(left <= right);
    assert!(r[0].1 <= r[1].1);
    assert!(r[2].1 <= r[3].1);
    let mut given = vec![(5, 1), (1, 9), (3, 3), (0, 0)];
    let mut got = r.to_vec();
    given.sort();
    got.sort();
    assert_eq!(given, got);
}

#[test]
fn quadrangle_untangle_agrees_with_untangle_quadrangle() {
    let mut quad = Quadrangle { p1: (300, 200), p2: (700, 400), p3: (200, 800), p4: (500, 600) };
    quad.untangle();
    let r = untangle_quadrangle((300, 200), (700, 400), (200, 800), (500, 600));
    assert_eq!([quad.p1, quad.p2, quad.p3, quad.p4], r);
}

#[test]
fn triangle_displace_and_back() {
    let mut tri = Triangle { p1: (200, 100), p2: (500, 300), p3: (100, 600) };
    tri.displace((-50, 25));
    assert_eq!((tri.p1, tri.p2, tri.p3), ((150, 125), (450, 325), (50, 625)));
    tri.displace((50, -25));
    assert_eq!((tri.p1, tri.p2, tri.p3), ((200, 100), (500, 300), (100, 600)));
}

#[test]
fn quadrangle_displace_and_back() {
    let mut quad = Quadrangle { p1: (1, 2), p2: (3, 4), p3: (5, 6), p4: (7, 8) };
    quad.displace((-1, 10));
    assert_eq!((quad.p1, quad.p2, quad.p3, quad.p4), ((0, 12), (2, 14), (4, 16), (6, 18)));
    quad.displace((1, -10));
    assert_eq!((quad.p1, quad.p2, quad.p3, quad.p4), ((1, 2), (3, 4), (5, 6), (7, 8)));
}

#[test]
fn triangle_centre_and_offsets() {
    let tri = Triangle { p1: (200, 100), p2: (500, 300), p3: (100, 600) };
    let mid = tri.centre();
    assert_eq!(mid, (266, 333));
    let d = tri.offsets_from(mid);
    assert_eq!(d, [(-66, -233), (234, -33), (-166, 267)]);
}

#[test]
fn triangle_placed_at_own_offsets_is_unchanged() {
    let mut tri = Triangle { p1: (200, 100), p2: (500, 300), p3: (100, 600) };
    let mid = tri.centre();
    let d = tri.offsets_from(mid);
    tri.place_around(mid, d);
    assert_eq!((tri.p1, tri.p2, tri.p3), ((200, 100), (500, 300), (100, 600)));
}

#[test]
fn triangle_place_around_with_turned_offsets() {
    let mut tri = Triangle { p1: (0, 0), p2: (0, 0), p3: (0, 0) };
    tri.place_around((10, 10), [(1, 0), (0, -1), (-3, 2)]);
    assert_eq!((tri.p1, tri.p2, tri.p3), ((11, 10), (10, 9), (7, 12)));
}

#[test]
fn quadrangle_centre_offsets_and_placement() {
    let mut quad = Quadrangle { p1: (300, 200), p2: (700, 400), p3: (200, 800), p4: (500, 600) };
    let mid = quad.centre();
    assert_eq!(mid, (425, 500));
    let d = quad.offsets_from(mid);
    assert_eq!(d, [(-125, -300), (275, -100), (-225, 300), (75, 100)]);
    quad.place_around(mid, d);
    assert_eq!((quad.p1, quad.p2, quad.p3, quad.p4), ((300, 200), (700, 400), (200, 800), (500, 600)));
}

#[test]
fn untangling_twice_is_stable() {
    let first = untangle_quadrangle((5, 1), (1, 9), (3, 3), (0, 0));
    let second = untangle_quadrangle(first[0], first[1], first[2], first[3]);
    assert_eq!(first, second);
}

#[test]
fn untangling_twice_reorders_a_left_pair_tied_in_rows() {
    let first = untangle_quadrangle((1, 0), (1, 0), (0, 0), (1, 0));
    assert_eq!(first, [(1, 0), (0, 0), (1, 0), (1, 0)]);
    let second = untangle_quadrangle(first[0], first[1], first[2], first[3]);
    assert_eq!(second, [(0, 0), (1, 0), (1, 0), (1, 0)]);
}
