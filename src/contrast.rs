//! What features and area queries give on images of known shape: uniform
//! images, images split into a top and a bottom band, and the whole window.
use vstd::prelude::*;
use crate::features::{
    cell, feature_rects, feature_value, fits_integral, height_factor, signed_area_sum, width_factor,
    HaarFeature, HaarFeatureType,
};
use crate::preprocess::{cols_of, is_integral_of, prefix_sum, row_prefix};
use crate::util::{area_of, integral_ok, is_grid, rect_inside, Rectangle};

verus! {

/// Every pixel of the image is `v`.
pub open spec fn uniform_image(img: Seq<Seq<i64>>, v: i64) -> bool {
    &&& is_grid(img, img.len() as int, cols_of(img))
    &&& forall|r: int, c: int| 0 <= r < img.len() && 0 <= c < cols_of(img) ==> #[trigger] img[r][c] == v
}

/// Rows above `k` hold `a` in every pixel, the rows from `k` down hold `b`.
pub open spec fn split_image(img: Seq<Seq<i64>>, k: int, a: i64, b: i64) -> bool {
    &&& is_grid(img, img.len() as int, cols_of(img))
    &&& forall|r: int, c: int|
        0 <= r < img.len() && 0 <= c < cols_of(img) ==> #[trigger] img[r][c] == if r < k {
            a
        } else {
            b
        }
}

proof fn lemma_row_const(row: Seq<i64>, c: int, v: i64)
    requires
        0 <= c <= row.len(),
        forall|j: int| 0 <= j < c ==> #[trigger] row[j] == v,
    ensures
        row_prefix(row, c) == c * v,
    decreases c,
{
    if c > 0 {
        lemma_row_const(row, c - 1, v);
        assert((c - 1) * v + v == c * v) by (nonlinear_arith);
    }
}

/// The amount a split image's column gains over its first `r` rows.
pub open spec fn band_height(r: int, k: int, a: int, b: int) -> int {
    if r <= k {
        a * r
    } else {
        a * k + b * (r - k)
    }
}

proof fn lemma_split_prefix(img: Seq<Seq<i64>>, k: int, a: i64, b: i64, r: int, c: int)
    requires
        split_image(img, k, a, b),
        0 <= k,
        0 <= r <= img.len(),
        0 <= c <= cols_of(img),
    ensures
        prefix_sum(img, r, c) == c * band_height(r, k, a as int, b as int),
    decreases r,
{
    if r > 0 {
        lemma_split_prefix(img, k, a, b, r - 1, c);
        let v: i64 = if r - 1 < k {
            a
        } else {
            b
        };
        assert forall|j: int| 0 <= j < c implies #[trigger] img[r - 1][j] == v by {
            assert(img[r - 1][j] == if r - 1 < k {
                a
            } else {
                b
            });
        }
        lemma_row_const(img[r - 1], c, v);
        let h1 = band_height(r - 1, k, a as int, b as int);
        let h2 = band_height(r, k, a as int, b as int);
        lemma_band_step(r, k, a as int, b as int);
        assert(c * h1 + c * v == c * h2) by (nonlinear_arith)
            requires
                h2 == h1 + v,
        ;
    } else {
        assert(c * band_height(0, k, a as int, b as int) == 0) by (nonlinear_arith)
            requires
                band_height(0, k, a as int, b as int) == 0,
        ;
    }
}

proof fn lemma_band_step(r: int, k: int, a: int, b: int)
    requires
        r >= 1,
        k >= 0,
    ensures
        band_height(r, k, a, b) == band_height(r - 1, k, a, b) + if r - 1 < k {
            a
        } else {
            b
        },
{
    if r <= k {
        assert(a * r == a * (r - 1) + a) by (nonlinear_arith);
    } else if r - 1 == k {
        assert(b * (r - k) == b) by (nonlinear_arith)
            requires
                r - k == 1,
        ;
    } else {
        assert(b * (r - k) == b * (r - 1 - k) + b) by (nonlinear_arith);
    }
}

/// On the integral image of a split image, a rectangle's area is its width
/// times the gain of the bands it spans.
proof fn lemma_split_area(
    img: Seq<Seq<i64>>,
    integral: Seq<Seq<i64>>,
    k: int,
    a: i64,
    b: i64,
    r: Rectangle,
)
    requires
        split_image(img, k, a, b),
        0 <= k,
        is_integral_of(integral, img, cols_of(img)),
        rect_inside(integral, r),
    ensures
        area_of(integral, r) == (r.xmax - r.xmin) * (band_height(r.ymax as int, k, a as int, b as int)
            - band_height(r.ymin as int, k, a as int, b as int)),
{
    assert(integral[0].len() == cols_of(img) + 1);
    lemma_split_prefix(img, k, a, b, r.ymax as int, r.xmax as int);
    lemma_split_prefix(img, k, a, b, r.ymin as int, r.xmin as int);
    lemma_split_prefix(img, k, a, b, r.ymin as int, r.xmax as int);
    lemma_split_prefix(img, k, a, b, r.ymax as int, r.xmin as int);
    let h1 = band_height(r.ymax as int, k, a as int, b as int);
    let h0 = band_height(r.ymin as int, k, a as int, b as int);
    let x1 = r.xmax as int;
    let x0 = r.xmin as int;
    assert(x1 * h1 + x0 * h0 - x0 * h1 - x1 * h0 == (x1 - x0) * (h1 - h0)) by (nonlinear_arith);
    if r.xmin == r.xmax || r.ymin == r.ymax {
        assert((x1 - x0) * (h1 - h0) == 0) by (nonlinear_arith)
            requires
                x1 == x0 || h1 == h0,
        ;
    }
}

proof fn lemma_cell_area(
    img: Seq<Seq<i64>>,
    integral: Seq<Seq<i64>>,
    k: int,
    a: i64,
    b: i64,
    f: HaarFeature,
    i: int,
    j: int,
)
    requires
        split_image(img, k, a, b),
        0 <= k,
        is_integral_of(integral, img, cols_of(img)),
        integral_ok(integral),
        fits_integral(f, integral),
        0 <= i < width_factor(f.feature_type),
        0 <= j < height_factor(f.feature_type),
    ensures
        area_of(integral, cell(f, i, j)) == f.w * (band_height(f.y + (j + 1) * f.h, k, a as int, b as int)
            - band_height(f.y + j * f.h, k, a as int, b as int)),
{
    crate::features::lemma_cell_inside(f, integral, i, j);
    lemma_split_area(img, integral, k, a, b, cell(f, i, j));
    assert(0 <= j * f.h <= (j + 1) * f.h) by (nonlinear_arith)
        requires
            0 <= j,
            f.h >= 0,
    ;
}

/// On a uniform image, two-rectangle and four-rectangle features see no
/// contrast and evaluate to zero; a three-rectangle feature, whose outer
/// rectangles outweigh the middle one, gives minus one rectangle's sum.
pub proof fn lemma_uniform_no_contrast(
    f: HaarFeature,
    img: Seq<Seq<i64>>,
    integral: Seq<Seq<i64>>,
    v: i64,
)
    requires
        uniform_image(img, v),
        is_integral_of(integral, img, cols_of(img)),
        integral_ok(integral),
        fits_integral(f, integral),
    ensures
        f.feature_type != HaarFeatureType::ThreeHorizontal ==> feature_value(f, integral) == 0,
        f.feature_type == HaarFeatureType::ThreeHorizontal ==> feature_value(f, integral) == -(v
            * f.w * f.h),
{
    assert(split_image(img, 0, v, v));
    assert forall|r: int| r >= 0 implies #[trigger] band_height(r, 0, v as int, v as int) == v * r by {
        if r > 0 {
            assert(v * 0 + v * (r - 0) == v * r) by (nonlinear_arith);
        } else {
            assert(v * r == 0) by (nonlinear_arith)
                requires
                    r == 0,
            ;
        }
    }
    let t = f.feature_type;
    let (w, h, y) = (f.w as int, f.h as int, f.y as int);
    assert(w * (v * (y + h) - v * y) == v * w * h) by (nonlinear_arith);
    assert(w * (v * (y + 2 * h) - v * (y + h)) == v * w * h) by (nonlinear_arith);
    assert(y + 1 * h == y + h);
    assert(y + 0 * h == y);
    assert(y + (1 + 1) * h == y + 2 * h);
    lemma_cell_area(img, integral, 0, v, v, f, 0, 0);
    match t {
        HaarFeatureType::TwoVertical => {
            lemma_cell_area(img, integral, 0, v, v, f, 0, 1);
        },
        HaarFeatureType::TwoHorizontal => {
            lemma_cell_area(img, integral, 0, v, v, f, 1, 0);
        },
        HaarFeatureType::ThreeHorizontal => {
            lemma_cell_area(img, integral, 0, v, v, f, 1, 0);
            lemma_cell_area(img, integral, 0, v, v, f, 2, 0);
        },
        HaarFeatureType::TwoByTwo => {
            lemma_cell_area(img, integral, 0, v, v, f, 1, 0);
            lemma_cell_area(img, integral, 0, v, v, f, 0, 1);
            lemma_cell_area(img, integral, 0, v, v, f, 1, 1);
        },
    }
    let rs = feature_rects(f);
    let c00 = area_of(integral, cell(f, 0, 0));
    assert(c00 == v * f.w * f.h);
    assert(signed_area_sum(rs, integral, 0) == 0);
    assert(signed_area_sum(rs, integral, 1) == crate::features::sign_value(rs[0].1) * c00);
    assert(signed_area_sum(rs, integral, 2) == signed_area_sum(rs, integral, 1)
        + crate::features::sign_value(rs[1].1) * area_of(integral, rs[1].0));
    if rs.len() > 2 {
        assert(signed_area_sum(rs, integral, 3) == signed_area_sum(rs, integral, 2)
            + crate::features::sign_value(rs[2].1) * area_of(integral, rs[2].0));
    }
    if rs.len() > 3 {
        assert(signed_area_sum(rs, integral, 4) == signed_area_sum(rs, integral, 3)
            + crate::features::sign_value(rs[3].1) * area_of(integral, rs[3].0));
    }
}

/// On an image whose top `k` rows hold `a` and the rest `b`, a two-rectangle
/// vertical feature whose split lies on row `k` gives `(a - b) * w * h`, and
/// one that lies wholly above or wholly below row `k` gives zero.
pub proof fn lemma_vertical_split(
    f: HaarFeature,
    img: Seq<Seq<i64>>,
    integral: Seq<Seq<i64>>,
    k: int,
    a: i64,
    b: i64,
)
    requires
        f.feature_type == HaarFeatureType::TwoVertical,
        0 <= k,
        split_image(img, k, a, b),
        is_integral_of(integral, img, cols_of(img)),
        integral_ok(integral),
        fits_integral(f, integral),
    ensures
        f.y + f.h == k ==> feature_value(f, integral) == (a - b) * f.w * f.h,
        f.y + 2 * f.h <= k || k <= f.y ==> feature_value(f, integral) == 0,
{
    let (w, h, y) = (f.w as int, f.h as int, f.y as int);
    lemma_cell_area(img, integral, k, a, b, f, 0, 0);
    lemma_cell_area(img, integral, k, a, b, f, 0, 1);
    assert(y + 1 * h == y + h);
    assert(y + 0 * h == y);
    assert(y + (1 + 1) * h == y + 2 * h);
    let h0 = band_height(y, k, a as int, b as int);
    let h1 = band_height(y + h, k, a as int, b as int);
    let h2 = band_height(y + 2 * h, k, a as int, b as int);
    if y + h == k {
        assert(h1 - h0 == a * h) by (nonlinear_arith)
            requires
                h0 == a * y,
                h1 == a * (y + h),
        ;
        assert(h2 - h1 == b * h);
        assert(w * (a * h) - w * (b * h) == (a - b) * w * h) by (nonlinear_arith);
    }
    if y + 2 * h <= k {
        assert(h1 - h0 == a * h && h2 - h1 == a * h) by (nonlinear_arith)
            requires
                h0 == a * y,
                h1 == a * (y + h),
                h2 == a * (y + 2 * h),
        ;
    }
    if k <= y {
        if y == k {
            assert(h0 == a * k);
        } else {
            assert(h0 == a * k + b * (y - k));
        }
        if h == 0 {
            assert(h1 == h0 && h2 == h0);
        } else {
            assert(h1 == a * k + b * (y + h - k));
            assert(h2 == a * k + b * (y + 2 * h - k));
        }
        assert(h1 - h0 == b * h && h2 - h1 == b * h) by (nonlinear_arith)
            requires
                h == 0 ==> h1 == h0 && h2 == h0,
                h != 0 ==> h1 == a * k + b * (y + h - k),
                h != 0 ==> h2 == a * k + b * (y + 2 * h - k),
                y == k ==> h0 == a * k,
                y != k ==> h0 == a * k + b * (y - k),
                h >= 0,
        ;
    }
    let rs = feature_rects(f);
    let a0 = area_of(integral, cell(f, 0, 0));
    let a1 = area_of(integral, cell(f, 0, 1));
    assert(a0 == w * (h1 - h0));
    assert(a1 == w * (h2 - h1));
    assert(signed_area_sum(rs, integral, 0) == 0);
    assert(signed_area_sum(rs, integral, 1) == a0);
    assert(signed_area_sum(rs, integral, 2) == a0 - a1);
    assert(feature_value(f, integral) == a0 - a1);
    if y + h == k {
        assert(w * (h1 - h0) - w * (h2 - h1) == (a - b) * w * h) by (nonlinear_arith)
            requires
                h1 - h0 == a * h,
                h2 - h1 == b * h,
        ;
    }
    if y + 2 * h <= k || k <= y {
        assert(w * (h1 - h0) - w * (h2 - h1) == 0) by (nonlinear_arith)
            requires
                h1 - h0 == h2 - h1,
        ;
    }
}

/// The area of the whole window is the sum of every pixel.
pub proof fn lemma_full_area_is_total(img: Seq<Seq<i64>>, integral: Seq<Seq<i64>>)
    requires
        is_integral_of(integral, img, cols_of(img)),
        integral_ok(integral),
        img.len() > 0,
        cols_of(img) > 0,
    ensures
        area_of(
            integral,
            Rectangle {
                xmin: 0,
                ymin: 0,
                xmax: cols_of(img) as usize,
                ymax: img.len() as usize,
            },
        ) == prefix_sum(img, img.len() as int, cols_of(img)),
{
    assert(integral[0].len() == cols_of(img) + 1);
    assert(integral[0][0] == prefix_sum(img, 0, 0));
    assert(integral[0][cols_of(img)] == prefix_sum(img, 0, cols_of(img)));
    assert(integral[img.len() as int][0] == prefix_sum(img, img.len() as int, 0));
    lemma_zero_col(img, img.len() as int);
}

proof fn lemma_zero_col(img: Seq<Seq<i64>>, r: int)
    requires
        0 <= r,
    ensures
        prefix_sum(img, r, 0) == 0,
    decreases r,
{
    if r > 0 {
        lemma_zero_col(img, r - 1);
    }
}

} // verus!
