//! Rectangles and rectangle sums over a padded integral image.
use vstd::prelude::*;
pub use crate::matrix::{grid_view, is_grid};
use crate::matrix::Matrix;

verus! {

/// Largest magnitude that an entry of an integral image may have, so that
/// sums of a few rectangle areas stay far inside `i64`.
pub const INTEGRAL_BOUND: i64 = 0x100_0000_0000;

/// An axis-aligned rectangle in integral-image coordinates: `x` indexes
/// columns, `y` rows, and the corners are `(xmin, ymin)` and `(xmax, ymax)`.
#[derive(Debug)]
pub struct Rectangle {
    pub xmin: usize,
    pub xmax: usize,
    pub ymin: usize,
    pub ymax: usize,
}

impl Rectangle {
    /// Whether the rectangle has non-negative extents.
    pub open spec fn wf(&self) -> bool {
        self.xmin <= self.xmax && self.ymin <= self.ymax
    }

    /// The rectangle with corners `p1 = (xmin, ymin)` and `p2 = (xmax, ymax)`.
    pub fn new(p1: (usize, usize), p2: (usize, usize)) -> (r: Rectangle)
        requires
            p1.0 <= p2.0,
            p1.1 <= p2.1,
        ensures
            r.xmin == p1.0,
            r.ymin == p1.1,
            r.xmax == p2.0,
            r.ymax == p2.1,
            r.wf(),
    {
        Rectangle { xmin: p1.0, xmax: p2.0, ymin: p1.1, ymax: p2.1 }
    }
}

/// A non-empty rectangular matrix whose entries lie within `INTEGRAL_BOUND`.
pub open spec fn integral_ok(m: Seq<Seq<i64>>) -> bool {
    &&& 1 <= m.len() <= usize::MAX
    &&& 1 <= m[0].len() <= usize::MAX
    &&& is_grid(m, m.len() as int, m[0].len() as int)
    &&& forall|r: int, c: int|
        0 <= r < m.len() && 0 <= c < m[0].len() ==> -INTEGRAL_BOUND <= #[trigger] m[r][c]
            <= INTEGRAL_BOUND
}

/// Whether the rectangle's corners are entries of the matrix.
pub open spec fn rect_inside(m: Seq<Seq<i64>>, r: Rectangle) -> bool {
    r.wf() && r.ymax < m.len() && r.xmax < m[0].len()
}

/// The sum that a rectangle covers: zero for a rectangle without area, else the
/// four-corner inclusion-exclusion over the integral image.
pub open spec fn area_of(m: Seq<Seq<i64>>, r: Rectangle) -> int {
    if r.xmin == r.xmax || r.ymin == r.ymax {
        0
    } else {
        m[r.ymax as int][r.xmax as int] + m[r.ymin as int][r.xmin as int]
            - m[r.ymin as int][r.xmax as int] - m[r.ymax as int][r.xmin as int]
    }
}

/// Compute the area of a block within a padded integral image.
pub fn compute_area(img: &Matrix, r: &Rectangle) -> (a: i64)
    requires
        integral_ok(grid_view(img)),
        rect_inside(grid_view(img), *r),
    ensures
        a == area_of(grid_view(img), *r),
        -4 * INTEGRAL_BOUND <= a <= 4 * INTEGRAL_BOUND,
{
    let ghost m = grid_view(img);
    if r.xmin == r.xmax || r.ymin == r.ymax {
        return 0;
    }
    assert(-INTEGRAL_BOUND <= m[r.ymax as int][r.xmin as int] <= INTEGRAL_BOUND);
    assert(-INTEGRAL_BOUND <= m[r.ymin as int][r.xmax as int] <= INTEGRAL_BOUND);
    assert(-INTEGRAL_BOUND <= m[r.ymax as int][r.xmax as int] <= INTEGRAL_BOUND);
    assert(-INTEGRAL_BOUND <= m[r.ymin as int][r.xmin as int] <= INTEGRAL_BOUND);
    img.at(r.ymax, r.xmax) + img.at(r.ymin, r.xmin) - img.at(r.ymin, r.xmax) - img.at(r.ymax, r.xmin)
}

} // verus!
