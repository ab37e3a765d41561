//! Haar (rectangle-difference) features: their shapes, the signed
//! sub-rectangles they decompose into, their value on an integral image, and
//! the catalog of every placement inside a window.
use vstd::prelude::*;
use crate::Matrix;
use crate::util::{area_of, compute_area, grid_view, integral_ok, rect_inside, Rectangle, INTEGRAL_BOUND};

verus! {

/// A rectangle feature: a shape placed with its top-left sub-rectangle at
/// column `x`, row `y`, each sub-rectangle `w` wide and `h` high.
#[derive(Copy, Clone, Debug, PartialEq, Eq, Structural)]
pub struct HaarFeature {
    pub feature_type: HaarFeatureType,
    pub w: usize,
    pub h: usize,
    pub x: usize,
    pub y: usize,
}

/// The four shapes of feature.
#[derive(Copy, Clone, Debug, PartialEq, Eq, Structural)]
pub enum HaarFeatureType {
    TwoVertical,
    TwoHorizontal,
    ThreeHorizontal,
    TwoByTwo,
}

/// The sign that a sub-rectangle, or a decision stump's polarity, carries.
#[derive(Copy, Clone, Debug, PartialEq, Eq, Structural)]
pub enum Sign {
    Positive,
    Negative,
}

/// `+1` or `-1`.
pub open spec fn sign_value(s: Sign) -> int {
    match s {
        Sign::Positive => 1,
        Sign::Negative => -1,
    }
}

/// The opposite sign.
pub open spec fn flip(s: Sign) -> Sign {
    match s {
        Sign::Positive => Sign::Negative,
        Sign::Negative => Sign::Positive,
    }
}

impl Sign {
    /// The opposite sign.
    pub fn flipped(self) -> (r: Sign)
        ensures
            r == flip(self),
    {
        match self {
            Sign::Positive => Sign::Negative,
            Sign::Negative => Sign::Positive,
        }
    }

    /// The sign as `+1` or `-1`.
    pub fn multiplier(self) -> (r: i64)
        ensures
            r == sign_value(self),
    {
        match self {
            Sign::Positive => 1,
            Sign::Negative => -1,
        }
    }
}

/// The sign of a shape's top-left sub-rectangle.
pub open spec fn base_sign(t: HaarFeatureType) -> Sign {
    match t {
        HaarFeatureType::TwoVertical => Sign::Positive,
        _ => Sign::Negative,
    }
}

/// How many sub-rectangles a shape spans across.
pub open spec fn width_factor(t: HaarFeatureType) -> int {
    match t {
        HaarFeatureType::TwoVertical => 1,
        HaarFeatureType::TwoHorizontal => 2,
        HaarFeatureType::ThreeHorizontal => 3,
        HaarFeatureType::TwoByTwo => 2,
    }
}

/// How many sub-rectangles a shape spans down.
pub open spec fn height_factor(t: HaarFeatureType) -> int {
    match t {
        HaarFeatureType::TwoVertical => 2,
        HaarFeatureType::TwoHorizontal => 1,
        HaarFeatureType::ThreeHorizontal => 1,
        HaarFeatureType::TwoByTwo => 2,
    }
}

/// The feature lies inside a window `cols` pixels wide and `rows` high.
pub open spec fn fits_window(f: HaarFeature, cols: int, rows: int) -> bool {
    &&& f.x + width_factor(f.feature_type) * f.w <= cols
    &&& f.y + height_factor(f.feature_type) * f.h <= rows
}

/// The feature lies inside the window that an integral image pads.
pub open spec fn fits_integral(f: HaarFeature, m: Seq<Seq<i64>>) -> bool {
    fits_window(f, m[0].len() - 1, m.len() - 1)
}

/// The sub-rectangle `i` steps right and `j` steps down from the top-left one.
pub open spec fn cell(f: HaarFeature, i: int, j: int) -> Rectangle {
    Rectangle {
        xmin: (f.x + i * f.w) as usize,
        xmax: (f.x + (i + 1) * f.w) as usize,
        ymin: (f.y + j * f.h) as usize,
        ymax: (f.y + (j + 1) * f.h) as usize,
    }
}

/// The signed sub-rectangles of a feature, top-left one first.
pub open spec fn feature_rects(f: HaarFeature) -> Seq<(Rectangle, Sign)> {
    let s = base_sign(f.feature_type);
    match f.feature_type {
        HaarFeatureType::TwoVertical => seq![(cell(f, 0, 0), s), (cell(f, 0, 1), flip(s))],
        HaarFeatureType::TwoHorizontal => seq![(cell(f, 0, 0), s), (cell(f, 1, 0), flip(s))],
        HaarFeatureType::ThreeHorizontal => seq![
            (cell(f, 0, 0), s),
            (cell(f, 1, 0), flip(s)),
            (cell(f, 2, 0), s),
        ],
        HaarFeatureType::TwoByTwo => seq![
            (cell(f, 0, 0), s),
            (cell(f, 1, 0), flip(s)),
            (cell(f, 0, 1), flip(s)),
            (cell(f, 1, 1), s),
        ],
    }
}

/// The sum of `sign * area` over the first `n` signed rectangles.
pub open spec fn signed_area_sum(rs: Seq<(Rectangle, Sign)>, m: Seq<Seq<i64>>, n: int) -> int
    decreases n,
{
    if n <= 0 {
        0
    } else {
        signed_area_sum(rs, m, n - 1) + sign_value(rs[n - 1].1) * area_of(m, rs[n - 1].0)
    }
}

/// The value of a feature on an integral image.
pub open spec fn feature_value(f: HaarFeature, m: Seq<Seq<i64>>) -> int {
    let rs = feature_rects(f);
    signed_area_sum(rs, m, rs.len() as int)
}

/// Bound on the magnitude of a feature's value.
pub open spec fn score_bound() -> int {
    16 * INTEGRAL_BOUND
}

impl HaarFeature {
    /// A feature of the given shape, size and position.
    pub fn new(feature_type: HaarFeatureType, w: usize, h: usize, x: usize, y: usize) -> (r:
        HaarFeature)
        ensures
            r == (HaarFeature { feature_type, w, h, x, y }),
    {
        HaarFeature { feature_type, w, h, x, y }
    }

    fn rect_at(&self, i: usize, j: usize) -> (r: Rectangle)
        requires
            i <= 2,
            j <= 1,
            fits_window(*self, usize::MAX as int, usize::MAX as int),
            i < width_factor(self.feature_type),
            j < height_factor(self.feature_type),
        ensures
            r == cell(*self, i as int, j as int),
            r.wf(),
    {
        let t = self.feature_type;
        assert(i * self.w <= width_factor(t) * self.w && (i + 1) * self.w <= width_factor(t) * self.w)
            by (nonlinear_arith)
            requires
                i < width_factor(t),
        ;
        assert(j * self.h <= height_factor(t) * self.h && (j + 1) * self.h <= height_factor(t)
            * self.h) by (nonlinear_arith)
            requires
                j < height_factor(t),
        ;
        assert(i * self.w <= (i + 1) * self.w) by (nonlinear_arith);
        assert(j * self.h <= (j + 1) * self.h) by (nonlinear_arith);
        Rectangle::new(
            (self.x + i * self.w, self.y + j * self.h),
            (self.x + (i + 1) * self.w, self.y + (j + 1) * self.h),
        )
    }

    /// The feature's signed sub-rectangles, top-left one first.
    pub fn to_rectangles(&self) -> (rects: Vec<(Rectangle, Sign)>)
        requires
            fits_window(*self, usize::MAX as int, usize::MAX as int),
        ensures
            rects@ == feature_rects(*self),
    {
        let s = match self.feature_type {
            HaarFeatureType::TwoVertical => Sign::Positive,
            _ => Sign::Negative,
        };
        let mut rects = Vec::new();
        rects.push((self.rect_at(0, 0), s));
        match self.feature_type {
            HaarFeatureType::TwoVertical => {
                rects.push((self.rect_at(0, 1), s.flipped()));
            },
            HaarFeatureType::TwoHorizontal => {
                rects.push((self.rect_at(1, 0), s.flipped()));
            },
            HaarFeatureType::ThreeHorizontal => {
                rects.push((self.rect_at(1, 0), s.flipped()));
                rects.push((self.rect_at(2, 0), s));
            },
            HaarFeatureType::TwoByTwo => {
                rects.push((self.rect_at(1, 0), s.flipped()));
                rects.push((self.rect_at(0, 1), s.flipped()));
                rects.push((self.rect_at(1, 1), s));
            },
        }
        assert(rects@ =~= feature_rects(*self));
        rects
    }

    /// Evaluate the feature on a padded integral image: the sum of
    /// `sign * area` over its sub-rectangles.
    pub fn evaluate(&self, img: &Matrix) -> (score: i64)
        requires
            integral_ok(grid_view(img)),
            fits_integral(*self, grid_view(img)),
        ensures
            score == feature_value(*self, grid_view(img)),
            -score_bound() <= score <= score_bound(),
    {
        let ghost m = grid_view(img);
        proof {
            lemma_rects_inside(*self, m);
        }
        let rects = self.to_rectangles();
        let mut score: i64 = 0;
        let mut k: usize = 0;
        while k < rects.len()
            invariant
                m == grid_view(img),
                integral_ok(m),
                forall|q: int| 0 <= q < rects@.len() ==> rect_inside(m, #[trigger] rects@[q].0),
                rects@ == feature_rects(*self),
                rects@.len() <= 4,
                k <= rects@.len(),
                score == signed_area_sum(rects@, m, k as int),
                -0x400_0000_0000 * k <= score <= 0x400_0000_0000 * k,
            decreases rects.len() - k,
        {
            let a = compute_area(img, &rects[k].0);
            assert(signed_area_sum(rects@, m, k + 1) == signed_area_sum(rects@, m, k as int)
                + sign_value(rects@[k as int].1) * area_of(m, rects@[k as int].0));
            match rects[k].1 {
                Sign::Positive => {
                    score = score + a;
                },
                Sign::Negative => {
                    score = score - a;
                },
            }
            k = k + 1;
        }
        score
    }
}

pub proof fn lemma_cell_inside(f: HaarFeature, m: Seq<Seq<i64>>, i: int, j: int)
    requires
        integral_ok(m),
        fits_integral(f, m),
        0 <= i < width_factor(f.feature_type),
        0 <= j < height_factor(f.feature_type),
    ensures
        rect_inside(m, cell(f, i, j)),
        cell(f, i, j).xmin == f.x + i * f.w,
        cell(f, i, j).xmax == f.x + (i + 1) * f.w,
        cell(f, i, j).ymin == f.y + j * f.h,
        cell(f, i, j).ymax == f.y + (j + 1) * f.h,
        cell(f, i, j).xmax - cell(f, i, j).xmin == f.w,
        cell(f, i, j).ymax - cell(f, i, j).ymin == f.h,
{
    let t = f.feature_type;
    assert(0 <= i * f.w <= (i + 1) * f.w <= width_factor(t) * f.w) by (nonlinear_arith)
        requires
            0 <= i < width_factor(t),
            f.w >= 0,
    ;
    assert(0 <= j * f.h <= (j + 1) * f.h <= height_factor(t) * f.h) by (nonlinear_arith)
        requires
            0 <= j < height_factor(t),
            f.h >= 0,
    ;
    assert((i + 1) * f.w == i * f.w + f.w) by (nonlinear_arith);
    assert((j + 1) * f.h == j * f.h + f.h) by (nonlinear_arith);
}

/// Every sub-rectangle of a feature that fits lies inside the integral image.
proof fn lemma_rects_inside(f: HaarFeature, m: Seq<Seq<i64>>)
    requires
        integral_ok(m),
        fits_integral(f, m),
    ensures
        forall|q: int|
            0 <= q < feature_rects(f).len() ==> rect_inside(m, #[trigger] feature_rects(f)[q].0),
        feature_rects(f).len() <= 4,
{
    lemma_cell_inside(f, m, 0, 0);
    match f.feature_type {
        HaarFeatureType::TwoVertical => {
            lemma_cell_inside(f, m, 0, 1);
        },
        HaarFeatureType::TwoHorizontal => {
            lemma_cell_inside(f, m, 1, 0);
        },
        HaarFeatureType::ThreeHorizontal => {
            lemma_cell_inside(f, m, 1, 0);
            lemma_cell_inside(f, m, 2, 0);
        },
        HaarFeatureType::TwoByTwo => {
            lemma_cell_inside(f, m, 1, 0);
            lemma_cell_inside(f, m, 0, 1);
            lemma_cell_inside(f, m, 1, 1);
        },
    }
}

/// A feature's value on an integral image it fits stays within
/// `score_bound()`.
pub proof fn lemma_feature_value_bound(f: HaarFeature, m: Seq<Seq<i64>>)
    requires
        integral_ok(m),
        fits_integral(f, m),
    ensures
        -score_bound() <= feature_value(f, m) <= score_bound(),
{
    lemma_rects_inside(f, m);
    let rs = feature_rects(f);
    assert forall|q: int| 0 <= q <= rs.len() implies -0x400_0000_0000 * q <= #[trigger] signed_area_sum(rs, m, q) <= 0x400_0000_0000 * q by {
        lemma_signed_sum_bound(rs, m, q);
    }
}

proof fn lemma_signed_sum_bound(rs: Seq<(Rectangle, Sign)>, m: Seq<Seq<i64>>, q: int)
    requires
        integral_ok(m),
        0 <= q <= rs.len(),
        forall|i: int| 0 <= i < rs.len() ==> rect_inside(m, #[trigger] rs[i].0),
    ensures
        -0x400_0000_0000 * q <= signed_area_sum(rs, m, q) <= 0x400_0000_0000 * q,
    decreases q,
{
    if q > 0 {
        lemma_signed_sum_bound(rs, m, q - 1);
        lemma_area_bound(m, rs[q - 1].0);
        let a = area_of(m, rs[q - 1].0);
        assert(-0x400_0000_0000 <= sign_value(rs[q - 1].1) * a <= 0x400_0000_0000) by {
            match rs[q - 1].1 {
                Sign::Positive => {},
                Sign::Negative => {},
            }
        }
    }
}

proof fn lemma_area_bound(m: Seq<Seq<i64>>, r: Rectangle)
    requires
        integral_ok(m),
        rect_inside(m, r),
    ensures
        -4 * INTEGRAL_BOUND <= area_of(m, r) <= 4 * INTEGRAL_BOUND,
{
    assert(-INTEGRAL_BOUND <= m[r.ymax as int][r.xmin as int] <= INTEGRAL_BOUND);
    assert(-INTEGRAL_BOUND <= m[r.ymin as int][r.xmax as int] <= INTEGRAL_BOUND);
    assert(-INTEGRAL_BOUND <= m[r.ymax as int][r.xmax as int] <= INTEGRAL_BOUND);
    assert(-INTEGRAL_BOUND <= m[r.ymin as int][r.xmin as int] <= INTEGRAL_BOUND);
}

/// The position of a shape among the placements at one corner and size.
pub open spec fn shape_rank(t: HaarFeatureType) -> int {
    match t {
        HaarFeatureType::TwoHorizontal => 0,
        HaarFeatureType::TwoVertical => 1,
        HaarFeatureType::ThreeHorizontal => 2,
        HaarFeatureType::TwoByTwo => 3,
    }
}

/// A placement that the catalog holds: sub-rectangles between
/// `minw` by `minh` and `maxw` by `maxh`, the shape inside the `maxw` by
/// `maxh` window.
pub open spec fn in_catalog(f: HaarFeature, minw: int, minh: int, maxw: int, maxh: int) -> bool {
    &&& minw <= f.w <= maxw
    &&& minh <= f.h <= maxh
    &&& fits_window(f, maxw, maxh)
}

/// `(w, h, x, y)` of `f` comes before the given one, lexicographically.
pub open spec fn placed_before(f: HaarFeature, w: int, h: int, x: int, y: int) -> bool {
    f.w < w || (f.w == w && (f.h < h || (f.h == h && (f.x < x || (f.x == x && f.y < y)))))
}

/// Catalog order: lexicographic in `(w, h, x, y, shape)`.
pub open spec fn catalog_lt(a: HaarFeature, b: HaarFeature) -> bool {
    placed_before(a, b.w as int, b.h as int, b.x as int, b.y as int) || (a.w == b.w && a.h == b.h
        && a.x == b.x && a.y == b.y && shape_rank(a.feature_type) < shape_rank(b.feature_type))
}

/// `r` lists, in catalog order, exactly the placements of the catalog that
/// come before `(w, h, x, y)`.
pub open spec fn catalog_upto(
    r: Seq<HaarFeature>,
    minw: int,
    minh: int,
    maxw: int,
    maxh: int,
    w: int,
    h: int,
    x: int,
    y: int,
) -> bool {
    &&& forall|i: int|
        0 <= i < r.len() ==> in_catalog(#[trigger] r[i], minw, minh, maxw, maxh) && placed_before(
            r[i],
            w,
            h,
            x,
            y,
        )
    &&& forall|i: int, j: int| 0 <= i < j < r.len() ==> catalog_lt(r[i], r[j])
    &&& forall|f: HaarFeature|
        in_catalog(f, minw, minh, maxw, maxh) && placed_before(f, w, h, x, y) ==> #[trigger] r.contains(f)
}

fn push_if(r: &mut Vec<HaarFeature>, cond: bool, f: HaarFeature)
    ensures
        cond ==> final(r)@ == old(r)@.push(f),
        !cond ==> final(r)@ == old(r)@,
{
    if cond {
        r.push(f);
    }
}

/// Appends, in shape order, every shape that fits with its top-left
/// sub-rectangle `w` by `h` at column `x`, row `y`.
fn push_placements(
    r: &mut Vec<HaarFeature>,
    w: usize,
    h: usize,
    x: usize,
    y: usize,
    minw: usize,
    minh: usize,
    maxw: usize,
    maxh: usize,
)
    requires
        catalog_upto(old(r)@, minw as int, minh as int, maxw as int, maxh as int, w as int, h as int, x as int, y as int),
        minw <= w <= maxw,
        minh <= h <= maxh,
        x + w <= maxw,
        y + h <= maxh,
    ensures
        catalog_upto(final(r)@, minw as int, minh as int, maxw as int, maxh as int, w as int, h as int, x as int, y + 1),
{
    let ghost r0 = r@;
    let th = HaarFeature { feature_type: HaarFeatureType::TwoHorizontal, w, h, x, y };
    let tv = HaarFeature { feature_type: HaarFeatureType::TwoVertical, w, h, x, y };
    let t3 = HaarFeature { feature_type: HaarFeatureType::ThreeHorizontal, w, h, x, y };
    let tb = HaarFeature { feature_type: HaarFeatureType::TwoByTwo, w, h, x, y };
    let c1 = (x as u128) + 2 * (w as u128) <= (maxw as u128);
    let c2 = (y as u128) + 2 * (h as u128) <= (maxh as u128);
    let c3 = (x as u128) + 3 * (w as u128) <= (maxw as u128);
    push_if(r, c1, th);
    let ghost r1 = r@;
    push_if(r, c2, tv);
    let ghost r2 = r@;
    push_if(r, c3, t3);
    let ghost r3 = r@;
    push_if(r, c1 && c2, tb);
    proof {
        let (mw, mh, xw, xh) = (minw as int, minh as int, maxw as int, maxh as int);
        assert(c1 == in_catalog(th, mw, mh, xw, xh));
        assert(c2 == in_catalog(tv, mw, mh, xw, xh));
        assert(c3 == in_catalog(t3, mw, mh, xw, xh));
        assert((c1 && c2) == in_catalog(tb, mw, mh, xw, xh));
        let rf = r@;
        assert forall|i: int| 0 <= i < r0.len() implies rf[i] == r0[i] by {
            assert(r1[i] == r0[i]);
            assert(r2[i] == r0[i]);
            assert(r3[i] == r0[i]);
        }
        assert forall|i: int| r0.len() <= i < rf.len() implies (#[trigger] rf[i]).w == w && rf[i].h == h
            && rf[i].x == x && rf[i].y == y && in_catalog(rf[i], mw, mh, xw, xh) by {
            if i < r1.len() {
                assert(rf[i] == r1[i]);
            } else if i < r2.len() {
                assert(rf[i] == r2[i]);
            } else if i < r3.len() {
                assert(rf[i] == r3[i]);
            }
        }
        assert forall|i: int| 0 <= i < rf.len() implies in_catalog(#[trigger] rf[i], mw, mh, xw, xh)
            && placed_before(rf[i], w as int, h as int, x as int, y + 1) by {
            if i < r0.len() {
                assert(rf[i] == r0[i]);
            }
        }
        assert forall|i: int, j: int| 0 <= i < j < rf.len() implies catalog_lt(rf[i], rf[j]) by {
            if j < r0.len() {
                assert(rf[i] == r0[i] && rf[j] == r0[j]);
            } else if i < r0.len() {
                assert(rf[i] == r0[i]);
                assert(placed_before(r0[i], w as int, h as int, x as int, y as int));
            } else {
                let ri = shape_rank(rf[i].feature_type);
                let rj = shape_rank(rf[j].feature_type);
                if i < r1.len() {
                    assert(rf[i] == th);
                } else if i < r2.len() {
                    assert(rf[i] == tv);
                } else if i < r3.len() {
                    assert(rf[i] == t3);
                }
                if j < r1.len() {
                    assert(rf[j] == th);
                } else if j < r2.len() {
                    assert(rf[j] == tv);
                } else if j < r3.len() {
                    assert(rf[j] == t3);
                } else {
                    assert(rf[j] == tb);
                }
                assert(ri < rj);
            }
        }
        assert forall|f: HaarFeature|
            in_catalog(f, mw, mh, xw, xh) && placed_before(f, w as int, h as int, x as int, y + 1) implies #[trigger] rf.contains(f) by {
            if placed_before(f, w as int, h as int, x as int, y as int) {
                assert(r0.contains(f));
                let k = choose|k: int| 0 <= k < r0.len() && r0[k] == f;
                assert(rf[k] == f);
            } else {
                match f.feature_type {
                    HaarFeatureType::TwoHorizontal => {
                        assert(f == th);
                        assert(rf[r1.len() - 1] == th);
                    },
                    HaarFeatureType::TwoVertical => {
                        assert(f == tv);
                        assert(rf[r2.len() - 1] == tv);
                    },
                    HaarFeatureType::ThreeHorizontal => {
                        assert(f == t3);
                        assert(rf[r3.len() - 1] == t3);
                    },
                    HaarFeatureType::TwoByTwo => {
                        assert(f == tb);
                        assert(rf[rf.len() - 1] == tb);
                    },
                }
            }
        }
    }
}

proof fn lemma_upto_move(
    r: Seq<HaarFeature>,
    minw: int,
    minh: int,
    maxw: int,
    maxh: int,
    w: int,
    h: int,
    x: int,
    y: int,
    w2: int,
    h2: int,
    x2: int,
    y2: int,
)
    requires
        catalog_upto(r, minw, minh, maxw, maxh, w, h, x, y),
        forall|f: HaarFeature| placed_before(f, w, h, x, y) ==> #[trigger] placed_before(f, w2, h2, x2, y2),
        forall|f: HaarFeature|
            in_catalog(f, minw, minh, maxw, maxh) && #[trigger] placed_before(f, w2, h2, x2, y2)
                ==> placed_before(f, w, h, x, y),
    ensures
        catalog_upto(r, minw, minh, maxw, maxh, w2, h2, x2, y2),
{
    assert forall|i: int| 0 <= i < r.len() implies in_catalog(#[trigger] r[i], minw, minh, maxw, maxh)
        && placed_before(r[i], w2, h2, x2, y2) by {
        assert(placed_before(r[i], w, h, x, y));
    }
    assert forall|f: HaarFeature|
        in_catalog(f, minw, minh, maxw, maxh) && placed_before(f, w2, h2, x2, y2) implies #[trigger] r.contains(f) by {
        assert(placed_before(f, w, h, x, y));
    }
}

/// A catalog placement's corner leaves room for one sub-rectangle.
proof fn lemma_catalog_corner(f: HaarFeature, minw: int, minh: int, maxw: int, maxh: int)
    requires
        in_catalog(f, minw, minh, maxw, maxh),
    ensures
        f.x + f.w <= maxw,
        f.y + f.h <= maxh,
{
    match f.feature_type {
        HaarFeatureType::TwoVertical => {},
        HaarFeatureType::TwoHorizontal => {},
        HaarFeatureType::ThreeHorizontal => {},
        HaarFeatureType::TwoByTwo => {},
    }
}

/// Why a feature catalog could not be built.
#[derive(Copy, Clone, Debug, PartialEq, Eq, Structural)]
pub enum CatalogError {
    /// The smallest sub-rectangle is wider or higher than the window.
    InvertedBounds,
}

/// Create every feature placement for a `maxw` by `maxh` window whose
/// sub-rectangles measure between `minw` by `minh` and `maxw` by `maxh`:
/// each shape at each size and corner where it fits, listed in increasing
/// `(w, h, x, y, shape)` order with shapes ordered `TwoHorizontal`,
/// `TwoVertical`, `ThreeHorizontal`, `TwoByTwo`. Inverted bounds
/// (`minw > maxw` or `minh > maxh`) are rejected.
pub fn init_haar_features(minw: usize, minh: usize, maxw: usize, maxh: usize) -> (r: Result<Vec<HaarFeature>, CatalogError>)
    requires
        maxw < usize::MAX,
        maxh < usize::MAX,
    ensures
        r is Err <==> minw > maxw || minh > maxh,
        r is Ok ==> forall|i: int| 0 <= i < r->Ok_0@.len() ==> in_catalog(#[trigger] r->Ok_0@[i], minw as int, minh as int, maxw as int, maxh as int),
        r is Ok ==> forall|i: int, j: int| 0 <= i < j < r->Ok_0@.len() ==> catalog_lt(r->Ok_0@[i], r->Ok_0@[j]),
        r is Ok ==> forall|f: HaarFeature| in_catalog(f, minw as int, minh as int, maxw as int, maxh as int) ==> #[trigger] r->Ok_0@.contains(f),
{
    if minw > maxw || minh > maxh {
        return Err(CatalogError::InvertedBounds);
    }
    Ok(catalog(minw, minh, maxw, maxh))
}

/// Every placement of the catalog, in catalog order.
fn catalog(minw: usize, minh: usize, maxw: usize, maxh: usize) -> (haar_features: Vec<HaarFeature>)
    requires
        maxw < usize::MAX,
        maxh < usize::MAX,
    ensures
        forall|i: int| 0 <= i < haar_features@.len() ==> in_catalog(#[trigger] haar_features@[i], minw as int, minh as int, maxw as int, maxh as int),
        forall|i: int, j: int| 0 <= i < j < haar_features@.len() ==> catalog_lt(haar_features@[i], haar_features@[j]),
        forall|f: HaarFeature| in_catalog(f, minw as int, minh as int, maxw as int, maxh as int) ==> #[trigger] haar_features@.contains(f),
{
    let ghost (mw, mh, xw, xh) = (minw as int, minh as int, maxw as int, maxh as int);
    let mut haar_features: Vec<HaarFeature> = Vec::new();
    let mut w: usize = minw;
    while w <= maxw
        invariant
            mw == minw,
            mh == minh,
            xw == maxw,
            xh == maxh,
            maxw < usize::MAX,
            maxh < usize::MAX,
            minw <= w,
            w <= maxw + 1 || w == minw,
            catalog_upto(haar_features@, mw, mh, xw, xh, w as int, 0, 0, 0),
        decreases maxw + 1 - w,
    {
        let mut h: usize = minh;
        while h <= maxh
            invariant
                mw == minw,
                mh == minh,
                xw == maxw,
                xh == maxh,
                maxw < usize::MAX,
                maxh < usize::MAX,
                minw <= w <= maxw,
                minh <= h,
                h <= maxh + 1 || h == minh,
                catalog_upto(haar_features@, mw, mh, xw, xh, w as int, h as int, 0, 0),
            decreases maxh + 1 - h,
        {
            let mut x: usize = 0;
            while x <= maxw - w
                invariant
                    mw == minw,
                    mh == minh,
                    xw == maxw,
                    xh == maxh,
                    maxw < usize::MAX,
                    maxh < usize::MAX,
                    minw <= w <= maxw,
                    minh <= h <= maxh,
                    x <= maxw - w + 1,
                    catalog_upto(haar_features@, mw, mh, xw, xh, w as int, h as int, x as int, 0),
                decreases maxw - w + 1 - x,
            {
                let mut y: usize = 0;
                while y <= maxh - h
                    invariant
                        mw == minw,
                        mh == minh,
                        xw == maxw,
                        xh == maxh,
                        maxw < usize::MAX,
                        maxh < usize::MAX,
                        minw <= w <= maxw,
                        minh <= h <= maxh,
                        x <= maxw - w,
                        y <= maxh - h + 1,
                        catalog_upto(haar_features@, mw, mh, xw, xh, w as int, h as int, x as int, y as int),
                    decreases maxh - h + 1 - y,
                {
                    push_placements(&mut haar_features, w, h, x, y, minw, minh, maxw, maxh);
                    y = y + 1;
                }
                proof {
                    assert forall|f: HaarFeature|
                        in_catalog(f, mw, mh, xw, xh) && #[trigger] placed_before(f, w as int, h as int, x + 1, 0)
                            implies placed_before(f, w as int, h as int, x as int, y as int) by {
                        lemma_catalog_corner(f, mw, mh, xw, xh);
                    }
                    lemma_upto_move(haar_features@, mw, mh, xw, xh, w as int, h as int, x as int, y as int, w as int, h as int, x + 1, 0);
                }
                x = x + 1;
            }
            proof {
                assert forall|f: HaarFeature|
                    in_catalog(f, mw, mh, xw, xh) && #[trigger] placed_before(f, w as int, h + 1, 0, 0)
                        implies placed_before(f, w as int, h as int, x as int, 0) by {
                    lemma_catalog_corner(f, mw, mh, xw, xh);
                }
                lemma_upto_move(haar_features@, mw, mh, xw, xh, w as int, h as int, x as int, 0, w as int, h + 1, 0, 0);
            }
            h = h + 1;
        }
        proof {
            assert forall|f: HaarFeature|
                in_catalog(f, mw, mh, xw, xh) && #[trigger] placed_before(f, w + 1, 0, 0, 0)
                    implies placed_before(f, w as int, h as int, 0, 0) by {
            }
            lemma_upto_move(haar_features@, mw, mh, xw, xh, w as int, h as int, 0, 0, w + 1, 0, 0, 0);
        }
        w = w + 1;
    }
    proof {
        assert forall|f: HaarFeature| in_catalog(f, mw, mh, xw, xh) implies #[trigger] haar_features@.contains(f) by {
            assert(placed_before(f, w as int, 0, 0, 0));
        }
    }
    haar_features
}

} // verus!
