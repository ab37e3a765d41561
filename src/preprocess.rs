//! Turning raw intensity matrices into padded integral images, and the
//! bookkeeping that pairs them with class labels.
use vstd::prelude::*;
use crate::matrix::{matrix_from_rows, rows_view, width_of};
use crate::util::{grid_view, integral_ok, is_grid, INTEGRAL_BOUND};
use crate::{Classification, Matrix};

verus! {

/// Largest number of rows, or of columns, of an image.
///
/// With `MAX_PIXEL` this keeps every entry of an integral image within
/// `INTEGRAL_BOUND` (2^40 = 4096 * 4096 * 65536). The bound is set by what
/// follows the integral image rather than by the prefix sums themselves: a
/// feature adds up to 16 entries, a stump subtracts a threshold of up to
/// 2^62 from that sum, and an ensemble multiplies the difference by weights
/// of up to 2^32 in an `i128`. Each of these stays inside its integer type
/// only if the entries stay within 2^40.
pub const MAX_SIDE: usize = 4096;

/// Largest magnitude of one pixel intensity: eight-bit images need 255, and
/// the margin up to 2^16 admits signed or wider synthetic inputs.
pub const MAX_PIXEL: i64 = 0x1_0000;

/// The sum of the first `c` entries of a row.
pub open spec fn row_prefix(row: Seq<i64>, c: int) -> int
    decreases c,
{
    if c <= 0 {
        0
    } else {
        row_prefix(row, c - 1) + row[c - 1]
    }
}

/// The sum of all pixels above row `r` and left of column `c`.
pub open spec fn prefix_sum(img: Seq<Seq<i64>>, r: int, c: int) -> int
    decreases r,
{
    if r <= 0 {
        0
    } else {
        prefix_sum(img, r - 1, c) + row_prefix(img[r - 1], c)
    }
}

/// A raw image of `img.len()` rows by `cols` columns that the engine accepts.
pub open spec fn image_ok(img: Seq<Seq<i64>>, cols: int) -> bool {
    &&& img.len() <= MAX_SIDE
    &&& 0 <= cols <= MAX_SIDE
    &&& is_grid(img, img.len() as int, cols)
    &&& forall|r: int, c: int|
        0 <= r < img.len() && 0 <= c < cols ==> -MAX_PIXEL <= #[trigger] img[r][c] <= MAX_PIXEL
}

/// The number of columns of a raw image (zero for an image without rows).
pub open spec fn cols_of(img: Seq<Seq<i64>>) -> int {
    if img.len() == 0 {
        0
    } else {
        img[0].len() as int
    }
}

/// `integral` is the padded integral image of `img`, an image `cols` wide:
/// one row and one column larger, with entry `(r, c)` the sum of the pixels
/// above `r` and left of `c`.
pub open spec fn is_integral_of(integral: Seq<Seq<i64>>, img: Seq<Seq<i64>>, cols: int) -> bool {
    &&& is_grid(integral, img.len() as int + 1, cols + 1)
    &&& forall|r: int, c: int|
        0 <= r <= img.len() && 0 <= c <= cols ==> #[trigger] integral[r][c]
            == prefix_sum(img, r, c)
}

proof fn lemma_row_prefix_bound(row: Seq<i64>, c: int)
    requires
        0 <= c <= row.len(),
        forall|j: int| 0 <= j < c ==> -MAX_PIXEL <= #[trigger] row[j] <= MAX_PIXEL,
    ensures
        -(c * MAX_PIXEL) <= row_prefix(row, c) <= c * MAX_PIXEL,
    decreases c,
{
    if c > 0 {
        lemma_row_prefix_bound(row, c - 1);
    }
}

proof fn lemma_prefix_bound(img: Seq<Seq<i64>>, cols: int, r: int, c: int)
    requires
        image_ok(img, cols),
        0 <= r <= img.len(),
        0 <= c <= cols,
    ensures
        -(r * c * MAX_PIXEL) <= prefix_sum(img, r, c) <= r * c * MAX_PIXEL,
        -INTEGRAL_BOUND <= prefix_sum(img, r, c) <= INTEGRAL_BOUND,
    decreases r,
{
    let m = MAX_PIXEL as int;
    if r > 0 {
        lemma_prefix_bound(img, cols, r - 1, c);
        assert forall|j: int| 0 <= j < c implies -MAX_PIXEL <= #[trigger] img[r - 1][j]
            <= MAX_PIXEL by {
            assert(-MAX_PIXEL <= img[r - 1][j] <= MAX_PIXEL);
        }
        lemma_row_prefix_bound(img[r - 1], c);
        assert((r - 1) * c * m + c * m == r * c * m) by (nonlinear_arith);
    } else {
        assert(r * c * m == 0) by (nonlinear_arith)
            requires
                r == 0,
        ;
    }
    assert(r * c * m <= MAX_SIDE * MAX_SIDE * m) by (nonlinear_arith)
        requires
            0 <= r <= MAX_SIDE,
            0 <= c <= MAX_SIDE,
            m > 0,
    ;
}

proof fn lemma_prefix_zero_col(img: Seq<Seq<i64>>, r: int)
    requires
        0 <= r,
    ensures
        prefix_sum(img, r, 0) == 0,
    decreases r,
{
    if r > 0 {
        lemma_prefix_zero_col(img, r - 1);
    }
}

/// Compute the padded integral image of a matrix. This is not done in place so
/// that the output can be zero-padded.
pub fn compute_integral_image(img: &Matrix) -> (integral: Matrix)
    requires
        image_ok(grid_view(img), width_of(img)),
    ensures
        is_integral_of(grid_view(&integral), grid_view(img), width_of(img)),
        width_of(&integral) == width_of(img) + 1,
        integral_ok(grid_view(&integral)),
{
    let ghost g = grid_view(img);
    let (rows, cols) = img.shape();
    let mut integral: Vec<Vec<i64>> = Vec::new();
    let mut top: Vec<i64> = Vec::new();
    let mut c: usize = 0;
    while c <= cols
        invariant
            c <= cols + 1,
            cols <= MAX_SIDE,
            top@.len() == c,
            forall|j: int| 0 <= j < c ==> #[trigger] top@[j] == 0,
        decreases cols + 1 - c,
    {
        top.push(0);
        c = c + 1;
    }
    integral.push(top);
    let mut r: usize = 0;
    while r < rows
        invariant
            rows == g.len(),
            cols == width_of(img),
            g == grid_view(img),
            image_ok(g, cols as int),
            r <= rows,
            integral@.len() == r + 1,
            forall|i: int| 0 <= i <= r ==> (#[trigger] integral@[i])@.len() == cols + 1,
            forall|i: int, j: int|
                0 <= i <= r && 0 <= j <= cols ==> #[trigger] integral@[i]@[j] == prefix_sum(
                    g,
                    i,
                    j,
                ),
        decreases rows - r,
    {
        let mut row: Vec<i64> = Vec::new();
        row.push(0);
        let mut run: i64 = 0;
        let mut c: usize = 0;
        proof {
            lemma_prefix_zero_col(g, r + 1);
        }
        while c < cols
            invariant
                rows == g.len(),
                cols == width_of(img),
                g == grid_view(img),
                image_ok(g, cols as int),
                r < rows,
                c <= cols,
                integral@.len() == r + 1,
                integral@[r as int]@.len() == cols + 1,
                forall|j: int|
                    0 <= j <= cols ==> #[trigger] integral@[r as int]@[j] == prefix_sum(
                        g,
                        r as int,
                        j,
                    ),
                row@.len() == c + 1,
                run == row_prefix(g[r as int], c as int),
                forall|j: int| 0 <= j <= c ==> #[trigger] row@[j] == prefix_sum(g, r + 1, j),
            decreases cols - c,
        {
            assert(-MAX_PIXEL <= g[r as int][c as int] <= MAX_PIXEL);
            proof {
                assert forall|j: int| 0 <= j < c + 1 implies -MAX_PIXEL <= #[trigger] g[r as int][j]
                    <= MAX_PIXEL by {
                    assert(-MAX_PIXEL <= g[r as int][j] <= MAX_PIXEL);
                }
                lemma_row_prefix_bound(g[r as int], c + 1);
                lemma_prefix_bound(g, cols as int, r as int, c + 1);
                lemma_prefix_bound(g, cols as int, r + 1, c + 1);
                assert((c + 1) * MAX_PIXEL <= MAX_SIDE * MAX_PIXEL) by (nonlinear_arith)
                    requires
                        c + 1 <= MAX_SIDE,
                ;
            }
            run = run + img.at(r, c);
            let above = integral[r][c + 1];
            row.push(above + run);
            c = c + 1;
        }
        integral.push(row);
        r = r + 1;
    }
    let ghost m = rows_view(&integral);
    assert forall|i: int, j: int| 0 <= i <= rows && 0 <= j <= cols implies m[i][j]
        == prefix_sum(g, i, j) && -INTEGRAL_BOUND <= m[i][j] <= INTEGRAL_BOUND by {
        assert(m[i] == integral@[i]@);
        assert(integral@[i]@[j] == prefix_sum(g, i, j));
        lemma_prefix_bound(g, cols as int, i, j);
    }
    assert forall|i: int| 0 <= i <= rows implies (#[trigger] m[i]).len() == cols + 1 by {
        assert(m[i] == integral@[i]@);
    }
    assert((rows + 1) * (cols + 1) <= (MAX_SIDE + 1) * (MAX_SIDE + 1)) by (nonlinear_arith)
        requires
            rows <= MAX_SIDE,
            cols <= MAX_SIDE,
    ;
    matrix_from_rows(&integral, cols + 1)
}

/// The integral image of each matrix, in order.
pub fn compute_integral_images(imgs: &Vec<Matrix>) -> (r: Vec<Matrix>)
    requires
        forall|i: int| 0 <= i < imgs@.len() ==> image_ok(grid_view(&#[trigger] imgs@[i]), width_of(&imgs@[i])),
    ensures
        r@.len() == imgs@.len(),
        forall|i: int| 0 <= i < r@.len() ==> is_integral_of(grid_view(&#[trigger] r@[i]), grid_view(&imgs@[i]), width_of(&imgs@[i]))
            && integral_ok(grid_view(&r@[i])),
{
    let mut integral_imgs: Vec<Matrix> = Vec::with_capacity(imgs.len());
    let mut i: usize = 0;
    while i < imgs.len()
        invariant
            i <= imgs@.len(),
            forall|j: int| 0 <= j < imgs@.len() ==> image_ok(grid_view(&#[trigger] imgs@[j]), width_of(&imgs@[j])),
            integral_imgs@.len() == i,
            forall|j: int| 0 <= j < i ==> is_integral_of(grid_view(&#[trigger] integral_imgs@[j]), grid_view(&imgs@[j]), width_of(&imgs@[j]))
                && integral_ok(grid_view(&integral_imgs@[j])),
        decreases imgs.len() - i,
    {
        let m = compute_integral_image(&imgs[i]);
        integral_imgs.push(m);
        i = i + 1;
    }
    integral_imgs
}

/// The faces labelled `Face`, followed by the backgrounds labelled `NonFace`.
pub fn flatten_to_classlist(integral_faces: &Vec<Matrix>, integral_backgrounds: &Vec<Matrix>) -> (r: Vec<(Matrix, Classification)>)
    ensures
        r@.len() == integral_faces@.len() + integral_backgrounds@.len(),
        forall|i: int| 0 <= i < integral_faces@.len() ==> grid_view(&(#[trigger] r@[i]).0) == grid_view(&integral_faces@[i])
            && r@[i].1 == Classification::Face,
        forall|i: int| integral_faces@.len() <= i < r@.len() ==> grid_view(&(#[trigger] r@[i]).0)
            == grid_view(&integral_backgrounds@[i - integral_faces@.len()]) && r@[i].1 == Classification::NonFace,
{
    let mut out: Vec<(Matrix, Classification)> = Vec::new();
    let mut i: usize = 0;
    while i < integral_faces.len()
        invariant
            i <= integral_faces@.len(),
            out@.len() == i,
            forall|j: int| 0 <= j < i ==> grid_view(&(#[trigger] out@[j]).0) == grid_view(&integral_faces@[j])
                && out@[j].1 == Classification::Face,
        decreases integral_faces.len() - i,
    {
        out.push((integral_faces[i].copy(), Classification::Face));
        i = i + 1;
    }
    let nf = integral_faces.len();
    i = 0;
    while i < integral_backgrounds.len()
        invariant
            nf == integral_faces@.len(),
            i <= integral_backgrounds@.len(),
            out@.len() == nf + i,
            forall|j: int| 0 <= j < nf ==> grid_view(&(#[trigger] out@[j]).0) == grid_view(&integral_faces@[j])
                && out@[j].1 == Classification::Face,
            forall|j: int| nf <= j < nf + i ==> grid_view(&(#[trigger] out@[j]).0)
                == grid_view(&integral_backgrounds@[j - nf]) && out@[j].1 == Classification::NonFace,
        decreases integral_backgrounds.len() - i,
    {
        out.push((integral_backgrounds[i].copy(), Classification::NonFace));
        i = i + 1;
    }
    out
}

/// Integral images of the faces and the backgrounds, labelled, faces first.
pub fn preprocess_data(faces: &Vec<Matrix>, backgrounds: &Vec<Matrix>) -> (r: Vec<(Matrix, Classification)>)
    requires
        forall|i: int| 0 <= i < faces@.len() ==> image_ok(grid_view(&#[trigger] faces@[i]), width_of(&faces@[i])),
        forall|i: int| 0 <= i < backgrounds@.len() ==> image_ok(grid_view(&#[trigger] backgrounds@[i]), width_of(&backgrounds@[i])),
    ensures
        r@.len() == faces@.len() + backgrounds@.len(),
        forall|i: int| 0 <= i < faces@.len() ==> is_integral_of(grid_view(&(#[trigger] r@[i]).0), grid_view(&faces@[i]), width_of(&faces@[i]))
            && r@[i].1 == Classification::Face,
        forall|i: int| faces@.len() <= i < r@.len() ==> is_integral_of(grid_view(&(#[trigger] r@[i]).0),
            grid_view(&backgrounds@[i - faces@.len()]), width_of(&backgrounds@[i - faces@.len()])) && r@[i].1 == Classification::NonFace,
{
    let integral_faces = compute_integral_images(faces);
    let integral_backgrounds = compute_integral_images(backgrounds);
    let r = flatten_to_classlist(&integral_faces, &integral_backgrounds);
    assert forall|i: int| faces@.len() <= i < r@.len() implies is_integral_of(grid_view(&(#[trigger] r@[i]).0),
        grid_view(&backgrounds@[i - faces@.len()]), width_of(&backgrounds@[i - faces@.len()])) && r@[i].1 == Classification::NonFace by {
        assert(is_integral_of(grid_view(&integral_backgrounds@[i - faces@.len()]), grid_view(&backgrounds@[i - faces@.len()]), width_of(&backgrounds@[i - faces@.len()])));
    }
    r
}

/// The gray level of an RGB pixel: the sum of each channel divided by three,
/// each division rounding down.
pub open spec fn gray_of(r: u8, g: u8, b: u8) -> int {
    r / 3 + g / 3 + b / 3
}

/// A `rows` by `cols` gray matrix from interleaved RGB bytes, row by row.
pub fn training_img_as_matrix(raw_pixels: &Vec<u8>, rows: usize, cols: usize) -> (m: Matrix)
    requires
        raw_pixels@.len() == 3 * rows * cols,
        rows <= isize::MAX,
        cols <= isize::MAX,
        rows * cols <= isize::MAX,
    ensures
        is_grid(grid_view(&m), rows as int, cols as int),
        forall|r: int, c: int|
            0 <= r < rows && 0 <= c < cols ==> #[trigger] grid_view(&m)[r][c] == gray_of(
                raw_pixels@[3 * (r * cols + c)],
                raw_pixels@[3 * (r * cols + c) + 1],
                raw_pixels@[3 * (r * cols + c) + 2],
            ),
{
    let n = raw_pixels.len();
    let mut m: Vec<Vec<i64>> = Vec::with_capacity(rows);
    let mut r: usize = 0;
    while r < rows
        invariant
            n == raw_pixels@.len(),
            raw_pixels@.len() == 3 * rows * cols,
            r <= rows,
            m@.len() == r,
            forall|i: int| 0 <= i < r ==> (#[trigger] m@[i])@.len() == cols,
            forall|i: int, c: int|
                0 <= i < r && 0 <= c < cols ==> #[trigger] m@[i]@[c] == gray_of(
                    raw_pixels@[3 * (i * cols + c)],
                    raw_pixels@[3 * (i * cols + c) + 1],
                    raw_pixels@[3 * (i * cols + c) + 2],
                ),
        decreases rows - r,
    {
        let mut row: Vec<i64> = Vec::with_capacity(cols);
        let mut c: usize = 0;
        while c < cols
            invariant
                n == raw_pixels@.len(),
                raw_pixels@.len() == 3 * rows * cols,
                r < rows,
                c <= cols,
                row@.len() == c,
                forall|j: int| 0 <= j < c ==> #[trigger] row@[j] == gray_of(
                    raw_pixels@[3 * (r * cols + j)],
                    raw_pixels@[3 * (r * cols + j) + 1],
                    raw_pixels@[3 * (r * cols + j) + 2],
                ),
            decreases cols - c,
        {
            assert(3 * (r * cols + c) + 2 < 3 * rows * cols) by (nonlinear_arith)
                requires
                    r < rows,
                    c < cols,
            ;
            let start = 3 * (r * cols + c);
            let px = (raw_pixels[start] / 3) as i64 + (raw_pixels[start + 1] / 3) as i64 + (raw_pixels[start + 2] / 3) as i64;
            row.push(px);
            c = c + 1;
        }
        m.push(row);
        r = r + 1;
    }
    let ghost g = rows_view(&m);
    assert forall|i: int| 0 <= i < rows implies (#[trigger] g[i]).len() == cols by {
        assert(g[i] == m@[i]@);
    }
    let out = matrix_from_rows(&m, cols);
    assert forall|i: int, c: int| 0 <= i < rows && 0 <= c < cols implies #[trigger] grid_view(&out)[i][c] == gray_of(
        raw_pixels@[3 * (i * cols + c)],
        raw_pixels@[3 * (i * cols + c) + 1],
        raw_pixels@[3 * (i * cols + c) + 2],
    ) by {
        assert(g[i] == m@[i]@);
    }
    out
}

/// A `rows` by `cols` matrix from gray bytes, row by row.
pub fn test_img_as_matrix(raw_pixels: &Vec<u8>, rows: usize, cols: usize) -> (m: Matrix)
    requires
        raw_pixels@.len() == rows * cols,
        rows <= isize::MAX,
        cols <= isize::MAX,
        rows * cols <= isize::MAX,
    ensures
        is_grid(grid_view(&m), rows as int, cols as int),
        forall|r: int, c: int|
            0 <= r < rows && 0 <= c < cols ==> #[trigger] grid_view(&m)[r][c] == raw_pixels@[r * cols + c],
{
    let n = raw_pixels.len();
    let mut m: Vec<Vec<i64>> = Vec::with_capacity(rows);
    let mut r: usize = 0;
    while r < rows
        invariant
            n == raw_pixels@.len(),
            raw_pixels@.len() == rows * cols,
            r <= rows,
            m@.len() == r,
            forall|i: int| 0 <= i < r ==> (#[trigger] m@[i])@.len() == cols,
            forall|i: int, c: int|
                0 <= i < r && 0 <= c < cols ==> #[trigger] m@[i]@[c] == raw_pixels@[i * cols + c],
        decreases rows - r,
    {
        let mut row: Vec<i64> = Vec::with_capacity(cols);
        let mut c: usize = 0;
        while c < cols
            invariant
                n == raw_pixels@.len(),
                raw_pixels@.len() == rows * cols,
                r < rows,
                c <= cols,
                row@.len() == c,
                forall|j: int| 0 <= j < c ==> #[trigger] row@[j] == raw_pixels@[r * cols + j],
            decreases cols - c,
        {
            assert(r * cols + c < rows * cols) by (nonlinear_arith)
                requires
                    r < rows,
                    c < cols,
            ;
            row.push(raw_pixels[r * cols + c] as i64);
            c = c + 1;
        }
        m.push(row);
        r = r + 1;
    }
    let ghost g = rows_view(&m);
    assert forall|i: int| 0 <= i < rows implies (#[trigger] g[i]).len() == cols by {
        assert(g[i] == m@[i]@);
    }
    let out = matrix_from_rows(&m, cols);
    assert forall|i: int, c: int| 0 <= i < rows && 0 <= c < cols implies #[trigger] grid_view(&out)[i][c] == raw_pixels@[i * cols + c] by {
        assert(g[i] == m@[i]@);
    }
    out
}

/// The `size` by `size` block of a matrix whose top-left entry is at row `x`,
/// column `y`.
pub fn crop(img: &Matrix, x: usize, y: usize, size: usize) -> (m: Matrix)
    requires
        x + size <= grid_view(img).len(),
        forall|r: int| 0 <= r < grid_view(img).len() ==> y + size <= (#[trigger] grid_view(img)[r]).len(),
    ensures
        is_grid(grid_view(&m), size as int, size as int),
        forall|r: int, c: int|
            0 <= r < size && 0 <= c < size ==> #[trigger] grid_view(&m)[r][c] == grid_view(img)[x + r][y + c],
{
    let ghost g = grid_view(img);
    let (nrows, ncols) = img.shape();
    let mut m: Vec<Vec<i64>> = Vec::with_capacity(size);
    let mut r: usize = 0;
    while r < size
        invariant
            g == grid_view(img),
            is_grid(g, nrows as int, ncols as int),
            x + size <= g.len(),
            forall|i: int| 0 <= i < g.len() ==> y + size <= (#[trigger] g[i]).len(),
            r <= size,
            m@.len() == r,
            forall|i: int| 0 <= i < r ==> (#[trigger] m@[i])@.len() == size,
            forall|i: int, c: int| 0 <= i < r && 0 <= c < size ==> #[trigger] m@[i]@[c] == g[x + i][y + c],
        decreases size - r,
    {
        let mut row: Vec<i64> = Vec::with_capacity(size);
        let mut c: usize = 0;
        assert(y + size <= g[x + r].len());
        while c < size
            invariant
                g == grid_view(img),
                is_grid(g, nrows as int, ncols as int),
                x + size <= g.len(),
                y + size <= g[x + r].len(),
                r < size,
                c <= size,
                row@.len() == c,
                forall|j: int| 0 <= j < c ==> #[trigger] row@[j] == g[x + r][y + j],
            decreases size - c,
        {
            row.push(img.at(x + r, y + c));
            c = c + 1;
        }
        m.push(row);
        r = r + 1;
    }
    let ghost v = rows_view(&m);
    assert forall|i: int| 0 <= i < size implies (#[trigger] v[i]).len() == size by {
        assert(v[i] == m@[i]@);
    }
    if size > 0 {
        assert(g[0].len() == ncols);
    }
    assert(size * size <= nrows * ncols) by (nonlinear_arith)
        requires
            size <= nrows,
            size == 0 || size <= ncols,
    ;
    let out = matrix_from_rows(&m, size);
    assert forall|i: int, c: int| 0 <= i < size && 0 <= c < size implies #[trigger] grid_view(&out)[i][c] == g[x + i][y + c] by {
        assert(v[i] == m@[i]@);
    }
    out
}

/// Window corners `(x, y)` on the stride grid whose window, `window_side_len`
/// wide, ends strictly inside an `xmax` by `ymax` space.
pub open spec fn is_window_coord(x: int, y: int, xmax: int, ymax: int, window: int, stride: int) -> bool {
    &&& 0 <= x < xmax
    &&& 0 <= y < ymax
    &&& x % stride == 0
    &&& y % stride == 0
    &&& x + window < xmax
    &&& y + window < ymax
}

/// Lexicographic order on coordinates.
pub open spec fn coord_lt(a: (usize, usize), b: (usize, usize)) -> bool {
    a.0 < b.0 || (a.0 == b.0 && a.1 < b.1)
}

/// Compute the top-left coordinates of a square window sliding over a space
/// of dimensions `(xmax, ymax)` with the given stride: every grid corner whose
/// window ends strictly inside the space, in increasing order.
pub fn get_sliding_window_coords(xmax: usize, ymax: usize, window_side_len: usize, stride: usize) -> (coords: Vec<(usize, usize)>)
    requires
        stride > 0,
    ensures
        forall|i: int| 0 <= i < coords@.len() ==> is_window_coord(
            (#[trigger] coords@[i]).0 as int,
            coords@[i].1 as int,
            xmax as int,
            ymax as int,
            window_side_len as int,
            stride as int,
        ),
        forall|i: int, j: int| 0 <= i < j < coords@.len() ==> coord_lt(coords@[i], coords@[j]),
        forall|x: usize, y: usize|
            is_window_coord(x as int, y as int, xmax as int, ymax as int, window_side_len as int, stride as int)
                ==> #[trigger] coords@.contains((x, y)),
{
    let mut coords: Vec<(usize, usize)> = Vec::new();
    let mut x: usize = 0;
    while x < xmax
        invariant
            stride > 0,
            x <= xmax,
            x < xmax ==> x % stride == 0,
            forall|i: int| 0 <= i < coords@.len() ==> is_window_coord(
                (#[trigger] coords@[i]).0 as int,
                coords@[i].1 as int,
                xmax as int,
                ymax as int,
                window_side_len as int,
                stride as int,
            ) && coords@[i].0 < x,
            forall|i: int, j: int| 0 <= i < j < coords@.len() ==> coord_lt(coords@[i], coords@[j]),
            forall|a: usize, b: usize|
                is_window_coord(a as int, b as int, xmax as int, ymax as int, window_side_len as int, stride as int)
                    && a < x ==> #[trigger] coords@.contains((a, b)),
        decreases xmax - x,
    {
        let mut y: usize = 0;
        while y < ymax
            invariant
                stride > 0,
                x < xmax,
                x % stride == 0,
                y <= ymax,
                y < ymax ==> y % stride == 0,
                forall|i: int| 0 <= i < coords@.len() ==> is_window_coord(
                    (#[trigger] coords@[i]).0 as int,
                    coords@[i].1 as int,
                    xmax as int,
                    ymax as int,
                    window_side_len as int,
                    stride as int,
                ) && coord_lt(coords@[i], (x, y)),
                forall|i: int, j: int| 0 <= i < j < coords@.len() ==> coord_lt(coords@[i], coords@[j]),
                forall|a: usize, b: usize|
                    is_window_coord(a as int, b as int, xmax as int, ymax as int, window_side_len as int, stride as int)
                        && coord_lt((a, b), (x, y)) ==> #[trigger] coords@.contains((a, b)),
            decreases ymax - y,
        {
            let ghost before = coords@;
            if (x as u128) + (window_side_len as u128) < xmax as u128 && (y as u128) + (window_side_len as u128) < ymax as u128 {
                coords.push((x, y));
                proof {
                    assert forall|a: usize, b: usize|
                        is_window_coord(a as int, b as int, xmax as int, ymax as int, window_side_len as int, stride as int)
                            && coord_lt((a, b), (x, y)) implies #[trigger] coords@.contains((a, b)) by {
                        assert(before.contains((a, b)));
                        let k = choose|k: int| 0 <= k < before.len() && before[k] == (a, b);
                        assert(coords@[k] == (a, b));
                    }
                    assert(coords@[coords@.len() - 1] == (x, y));
                }
            }
            let ghost mid = coords@;
            if stride >= ymax - y {
                proof {
                    assert forall|a: usize, b: usize|
                        is_window_coord(a as int, b as int, xmax as int, ymax as int, window_side_len as int, stride as int)
                            && coord_lt((a, b), (x, ymax)) implies #[trigger] coords@.contains((a, b)) by {
                        if a == x && b > y {
                            lemma_next_multiple(b as int, y as int, stride as int);
                        }
                        if a == x && b == y {
                            assert(coords@[coords@.len() - 1] == (x, y));
                        }
                    }
                }
                y = ymax;
            } else {
                proof {
                    assert forall|a: usize, b: usize|
                        is_window_coord(a as int, b as int, xmax as int, ymax as int, window_side_len as int, stride as int)
                            && coord_lt((a, b), (x, (y + stride) as usize)) implies #[trigger] coords@.contains((a, b)) by {
                        if a == x && b > y {
                            lemma_next_multiple(b as int, y as int, stride as int);
                        }
                        if a == x && b == y {
                            assert(coords@[coords@.len() - 1] == (x, y));
                        }
                    }
                    lemma_mod_step(y as int, stride as int);
                }
                y = y + stride;
            }
        }
        if stride >= xmax - x {
            proof {
                assert forall|a: usize, b: usize|
                    is_window_coord(a as int, b as int, xmax as int, ymax as int, window_side_len as int, stride as int)
                        && a < xmax implies #[trigger] coords@.contains((a, b)) by {
                    if a > x {
                        lemma_next_multiple(a as int, x as int, stride as int);
                    }
                    assert(coord_lt((a, b), (x, ymax)) || a > x);
                }
            }
            x = xmax;
        } else {
            proof {
                assert forall|a: usize, b: usize|
                    is_window_coord(a as int, b as int, xmax as int, ymax as int, window_side_len as int, stride as int)
                        && a < x + stride implies #[trigger] coords@.contains((a, b)) by {
                    if a > x {
                        lemma_next_multiple(a as int, x as int, stride as int);
                    }
                    assert(coord_lt((a, b), (x, ymax)) || a > x);
                }
                lemma_mod_step(x as int, stride as int);
            }
            x = x + stride;
        }
    }
    coords
}

/// A multiple of `s` above the multiple `y` is at least `y + s`.
proof fn lemma_next_multiple(b: int, y: int, s: int)
    requires
        s > 0,
        b > y >= 0,
        b % s == 0,
        y % s == 0,
    ensures
        b >= y + s,
{
    vstd::arithmetic::div_mod::lemma_fundamental_div_mod(b, s);
    vstd::arithmetic::div_mod::lemma_fundamental_div_mod(y, s);
    let qb = b / s;
    let qy = y / s;
    assert(qb > qy) by (nonlinear_arith)
        requires
            b == s * qb,
            y == s * qy,
            b > y,
            s > 0,
    ;
    assert(s * qb >= s * qy + s) by (nonlinear_arith)
        requires
            qb >= qy + 1,
            s > 0,
    ;
}

proof fn lemma_mod_step(y: int, s: int)
    requires
        s > 0,
        y >= 0,
        y % s == 0,
    ensures
        (y + s) % s == 0,
{
    vstd::arithmetic::div_mod::lemma_mod_add_multiples_vanish(y, s);
}

} // verus!
