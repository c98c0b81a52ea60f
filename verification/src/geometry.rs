use vstd::prelude::*;

verus! {

/// A pixel position: the column first, then the row.
pub type Point = (usize, usize);

/// The sign of an integer: 1, -1 or 0.
pub open spec fn sgn(v: int) -> int {
    if v > 0 {
        1
    } else if v < 0 {
        -1
    } else {
        0
    }
}

/// The absolute value of an integer.
pub open spec fn abs(v: int) -> int {
    if v < 0 {
        -v
    } else {
        v
    }
}

/// The least of three integers.
pub open spec fn min3(a: int, b: int, c: int) -> int {
    if a <= b && a <= c {
        a
    } else if b <= c {
        b
    } else {
        c
    }
}

/// The greatest of three integers.
pub open spec fn max3(a: int, b: int, c: int) -> int {
    if a >= b && a >= c {
        a
    } else if b >= c {
        b
    } else {
        c
    }
}

/// Whether an integer is a value of `isize`.
pub open spec fn fits_isize(v: int) -> bool {
    isize::MIN <= v <= isize::MAX
}

/// The sign of `x`.
pub fn sign(x: isize) -> (s: i8)
    ensures
        s == sgn(x as int),
        s * abs(x as int) == x,
{
    if x > 0 {
        return 1;
    }
    if x < 0 {
        return -1;
    }
    return 0;
}

/// The least of three coordinates.
pub fn min(a: usize, b: usize, c: usize) -> (m: usize)
    ensures
        m == min3(a as int, b as int, c as int),
        m <= a && m <= b && m <= c,
        m == a || m == b || m == c,
{
    if a < b {
        if a < c {
            return a;
        } else {
            return c;
        }
    } else {
        if b < c {
            return b;
        } else {
            return c;
        }
    }
}

/// The greatest of three coordinates.
pub fn max(a: usize, b: usize, c: usize) -> (m: usize)
    ensures
        m == max3(a as int, b as int, c as int),
        m >= a && m >= b && m >= c,
        m == a || m == b || m == c,
{
    if a > b {
        if a > c {
            return a;
        } else {
            return c;
        }
    } else {
        if b > c {
            return b;
        } else {
            return c;
        }
    }
}

/// Whether a coordinate can stand in signed arithmetic: a pixel coordinate
/// indexes a `Vec`, whose length never exceeds `isize::MAX`.
pub open spec fn is_coord(c: int) -> bool {
    0 <= c <= isize::MAX
}

/// Whether both coordinates of a point are proper coordinates.
pub open spec fn is_point(p: Point) -> bool {
    is_coord(p.0 as int) && is_coord(p.1 as int)
}

/// Whether moving `p` by `v` stays on the non-negative side of both axes
/// without leaving the range of `isize`.
pub open spec fn can_displace(p: Point, v: (isize, isize)) -> bool {
    &&& is_point(p)
    &&& is_coord(p.0 + v.0)
    &&& is_coord(p.1 + v.1)
}

/// The point `p` moved by `v`, in mathematical integers.
pub open spec fn displaced(p: Point, v: (isize, isize)) -> (int, int) {
    (p.0 + v.0, p.1 + v.1)
}

/// Moves the point `p` by the vector `v`.
/// A move that would take a coordinate below zero is refused by the contract.
pub fn add_vector(p: Point, vector: (isize, isize)) -> (q: Point)
    requires
        can_displace(p, vector),
    ensures
        q.0 == p.0 + vector.0,
        q.1 == p.1 + vector.1,
        is_point(q),
{
    let p0: isize = (p.0 as isize) + vector.0;
    let p1: isize = (p.1 as isize) + vector.1;
    (p0 as usize, p1 as usize)
}

} // verus!
