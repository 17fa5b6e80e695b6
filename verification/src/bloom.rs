//! Separable box blurs over single-channel planes, the building block of the
//! rasteriser's glow.

use vstd::prelude::*;

verus! {

/// A single-channel plane as a function of `(x, y)`.
pub type Plane = spec_fn(int, int) -> int;

/// The plane a row-major buffer `w` values wide holds.
pub open spec fn plane_of(s: Seq<u16>, w: int) -> Plane {
    |x: int, y: int| s[y * w + x] as int
}

/// `f(lo, y) + … + f(hi - 1, y)`.
pub open spec fn row_sum(f: Plane, y: int, lo: int, hi: int) -> int
    decreases hi - lo,
{
    if lo >= hi {
        0
    } else {
        row_sum(f, y, lo, hi - 1) + f(hi - 1, y)
    }
}

/// `f(x, lo) + … + f(x, hi - 1)`.
pub open spec fn col_sum(f: Plane, x: int, lo: int, hi: int) -> int
    decreases hi - lo,
{
    if lo >= hi {
        0
    } else {
        col_sum(f, x, lo, hi - 1) + f(x, hi - 1)
    }
}

pub open spec fn max_int(a: int, b: int) -> int {
    if a >= b { a } else { b }
}

pub open spec fn min_int(a: int, b: int) -> int {
    if a <= b { a } else { b }
}

/// Horizontal box blur of radius `r` on a row `w` wide: the sum of the window
/// `[x - r, x + r]` clipped to the row, divided by the full window size.
pub open spec fn hblur(f: Plane, w: int, r: int) -> Plane {
    |x: int, y: int| row_sum(f, y, max_int(0, x - r), min_int(w, x + r + 1)) / (2 * r + 1)
}

/// Vertical box blur of radius `r` on a column `h` high.
pub open spec fn vblur(f: Plane, h: int, r: int) -> Plane {
    |x: int, y: int| col_sum(f, x, max_int(0, y - r), min_int(h, y + r + 1)) / (2 * r + 1)
}

/// Three rounds of horizontal-then-vertical box blur of radius 3.
#[verifier::opaque]
pub open spec fn bloom(f: Plane, w: int, h: int) -> Plane {
    vblur(hblur(vblur(hblur(vblur(hblur(f, w, 3), h, 3), w, 3), h, 3), w, 3), h, 3)
}

/// Two planes agree on the `w × h` grid.
pub open spec fn agree(f: Plane, g: Plane, w: int, h: int) -> bool {
    forall|x: int, y: int| 0 <= x < w && 0 <= y < h ==> #[trigger] f(x, y) == g(x, y)
}

pub proof fn lemma_row_sum_front(f: Plane, y: int, lo: int, hi: int)
    requires
        lo < hi,
    ensures
        row_sum(f, y, lo, hi) == f(lo, y) + row_sum(f, y, lo + 1, hi),
    decreases hi - lo,
{
    assert(row_sum(f, y, lo, hi) == row_sum(f, y, lo, hi - 1) + f(hi - 1, y));
    if lo + 1 < hi {
        lemma_row_sum_front(f, y, lo, hi - 1);
        assert(row_sum(f, y, lo + 1, hi) == row_sum(f, y, lo + 1, hi - 1) + f(hi - 1, y));
    } else {
        assert(row_sum(f, y, lo, hi - 1) == 0);
        assert(row_sum(f, y, lo + 1, hi) == 0);
    }
}

pub proof fn lemma_col_sum_front(f: Plane, x: int, lo: int, hi: int)
    requires
        lo < hi,
    ensures
        col_sum(f, x, lo, hi) == f(x, lo) + col_sum(f, x, lo + 1, hi),
    decreases hi - lo,
{
    assert(col_sum(f, x, lo, hi) == col_sum(f, x, lo, hi - 1) + f(x, hi - 1));
    if lo + 1 < hi {
        lemma_col_sum_front(f, x, lo, hi - 1);
        assert(col_sum(f, x, lo + 1, hi) == col_sum(f, x, lo + 1, hi - 1) + f(x, hi - 1));
    } else {
        assert(col_sum(f, x, lo, hi - 1) == 0);
        assert(col_sum(f, x, lo + 1, hi) == 0);
    }
}

#[verifier::spinoff_prover]
pub proof fn lemma_row_sum_bounds(f: Plane, y: int, lo: int, hi: int, m: int)
    requires
        lo <= hi,
        forall|j: int| lo <= j < hi ==> 0 <= #[trigger] f(j, y) <= m,
    ensures
        0 <= row_sum(f, y, lo, hi) <= (hi - lo) * m,
    decreases hi - lo,
{
    if lo < hi {
        lemma_row_sum_bounds(f, y, lo, hi - 1, m);
        assert(row_sum(f, y, lo, hi) == row_sum(f, y, lo, hi - 1) + f(hi - 1, y));
        assert(0 <= f(hi - 1, y) <= m);
        let prev = row_sum(f, y, lo, hi - 1);
        assert(prev <= (hi - 1 - lo) * m);
        assert((hi - 1 - lo) * m + m == (hi - lo) * m) by (nonlinear_arith);
        assert(prev + f(hi - 1, y) <= (hi - lo) * m);
    } else {
        assert(row_sum(f, y, lo, hi) == 0);
        assert((hi - lo) * m == 0) by (nonlinear_arith)
            requires
                hi == lo,
        ;
    }
}

#[verifier::spinoff_prover]
pub proof fn lemma_col_sum_bounds(f: Plane, x: int, lo: int, hi: int, m: int)
    requires
        lo <= hi,
        forall|j: int| lo <= j < hi ==> 0 <= #[trigger] f(x, j) <= m,
    ensures
        0 <= col_sum(f, x, lo, hi) <= (hi - lo) * m,
    decreases hi - lo,
{
    if lo < hi {
        lemma_col_sum_bounds(f, x, lo, hi - 1, m);
        assert(col_sum(f, x, lo, hi) == col_sum(f, x, lo, hi - 1) + f(x, hi - 1));
        assert(0 <= f(x, hi - 1) <= m);
        let prev = col_sum(f, x, lo, hi - 1);
        assert(prev <= (hi - 1 - lo) * m);
        assert((hi - 1 - lo) * m + m == (hi - lo) * m) by (nonlinear_arith);
        assert(prev + f(x, hi - 1) <= (hi - lo) * m);
    } else {
        assert(col_sum(f, x, lo, hi) == 0);
        assert((hi - lo) * m == 0) by (nonlinear_arith)
            requires
                hi == lo,
        ;
    }
}

pub proof fn lemma_row_sum_ext(f: Plane, g: Plane, y: int, lo: int, hi: int)
    requires
        forall|j: int| lo <= j < hi ==> #[trigger] f(j, y) == g(j, y),
    ensures
        row_sum(f, y, lo, hi) == row_sum(g, y, lo, hi),
    decreases hi - lo,
{
    if lo < hi {
        lemma_row_sum_ext(f, g, y, lo, hi - 1);
        assert(row_sum(f, y, lo, hi) == row_sum(f, y, lo, hi - 1) + f(hi - 1, y));
        assert(row_sum(g, y, lo, hi) == row_sum(g, y, lo, hi - 1) + g(hi - 1, y));
    } else {
        assert(row_sum(f, y, lo, hi) == 0);
        assert(row_sum(g, y, lo, hi) == 0);
    }
}

pub proof fn lemma_col_sum_ext(f: Plane, g: Plane, x: int, lo: int, hi: int)
    requires
        forall|j: int| lo <= j < hi ==> #[trigger] f(x, j) == g(x, j),
    ensures
        col_sum(f, x, lo, hi) == col_sum(g, x, lo, hi),
    decreases hi - lo,
{
    if lo < hi {
        lemma_col_sum_ext(f, g, x, lo, hi - 1);
        assert(col_sum(f, x, lo, hi) == col_sum(f, x, lo, hi - 1) + f(x, hi - 1));
        assert(col_sum(g, x, lo, hi) == col_sum(g, x, lo, hi - 1) + g(x, hi - 1));
    } else {
        assert(col_sum(f, x, lo, hi) == 0);
        assert(col_sum(g, x, lo, hi) == 0);
    }
}

/// Blurs read only the grid: planes that agree on it blur alike on it.
pub proof fn lemma_blur_ext(f: Plane, g: Plane, w: int, h: int, r: int)
    requires
        agree(f, g, w, h),
        0 <= r,
    ensures
        agree(hblur(f, w, r), hblur(g, w, r), w, h),
        agree(vblur(f, h, r), vblur(g, h, r), w, h),
{
    assert forall|x: int, y: int| 0 <= x < w && 0 <= y < h implies #[trigger] hblur(f, w, r)(x, y)
        == hblur(g, w, r)(x, y) by {
        lemma_row_sum_ext(f, g, y, max_int(0, x - r), min_int(w, x + r + 1));
    }
    assert forall|x: int, y: int| 0 <= x < w && 0 <= y < h implies #[trigger] vblur(f, h, r)(x, y)
        == vblur(g, h, r)(x, y) by {
        lemma_col_sum_ext(f, g, x, max_int(0, y - r), min_int(h, y + r + 1));
    }
}

/// Dividing a window sum of at most `2r + 1` values below 2^16 by `2r + 1`
/// stays below 2^16.
proof fn lemma_window_avg(sum: int, lo: int, hi: int, r: int)
    requires
        0 <= r,
        0 <= hi - lo <= 2 * r + 1,
        0 <= sum <= (hi - lo) * 65535,
    ensures
        0 <= sum / (2 * r + 1) <= 65535,
        sum <= (2 * r + 1) * 65535,
{
    assert((hi - lo) * 65535 <= (2 * r + 1) * 65535) by (nonlinear_arith)
        requires
            hi - lo <= 2 * r + 1,
    ;
    assert(0 <= sum / (2 * r + 1) <= 65535) by (nonlinear_arith)
        requires
            0 <= r,
            0 <= sum <= (2 * r + 1) * 65535,
    ;
}

/// The running window sum of a blur moved one step along its line.
proof fn lemma_slide_row(f: Plane, y: int, x: int, r: int, w: int)
    requires
        0 <= x < w,
        0 <= r,
    ensures
        row_sum(f, y, max_int(0, x + 1 - r), min_int(w, x + r + 2)) == row_sum(
            f,
            y,
            max_int(0, x - r),
            min_int(w, x + r + 1),
        ) + (if x + r + 1 < w { f(x + r + 1, y) } else { 0 }) - (if x >= r { f(x - r, y) } else { 0 }),
{
    let lo = max_int(0, x - r);
    let hi = min_int(w, x + r + 1);
    let hi2 = min_int(w, x + r + 2);
    if x + r + 1 < w {
        assert(row_sum(f, y, lo, hi2) == row_sum(f, y, lo, hi) + f(hi, y));
    }
    if x >= r {
        lemma_row_sum_front(f, y, lo, hi2);
    }
}

/// The running window sum of a vertical blur moved one step down its column.
proof fn lemma_slide_col(f: Plane, x: int, y: int, r: int, h: int)
    requires
        0 <= y < h,
        0 <= r,
    ensures
        col_sum(f, x, max_int(0, y + 1 - r), min_int(h, y + r + 2)) == col_sum(
            f,
            x,
            max_int(0, y - r),
            min_int(h, y + r + 1),
        ) + (if y + r + 1 < h { f(x, y + r + 1) } else { 0 }) - (if y >= r { f(x, y - r) } else { 0 }),
{
    let lo = max_int(0, y - r);
    let hi = min_int(h, y + r + 1);
    let hi2 = min_int(h, y + r + 2);
    if y + r + 1 < h {
        assert(col_sum(f, x, lo, hi2) == col_sum(f, x, lo, hi) + f(x, hi));
    }
    if y >= r {
        lemma_col_sum_front(f, x, lo, hi2);
    }
}

/// Grid positions map to distinct row-major indices, and rows before `y`
/// come before row `y`.
proof fn lemma_grid_order(x2: int, y2: int, x: int, y: int, w: int)
    requires
        0 <= x2 < w,
        0 <= x < w,
        0 <= y2,
        0 <= y,
    ensures
        y2 < y ==> y2 * w + x2 < y * w + x,
        (x2 != x || y2 != y) ==> y2 * w + x2 != y * w + x,
{
    if x2 != x || y2 != y {
        crate::render::lemma_pixel_distinct(x2, y2, 0, x, y, 0, w);
    }
    if y2 < y {
        assert(y2 * w + x2 < y * w + x) by (nonlinear_arith)
            requires
                y2 < y,
                0 <= x2 < w,
                0 <= x,
        ;
    }
}

/// One horizontal box-blur pass of radius `radius` (running sum, one pass per
/// row): `dst` gets [`hblur`] of `src`.
pub fn box_blur_h(src: &Vec<u16>, dst: &mut Vec<u16>, w: usize, h: usize, radius: usize)
    requires
        src@.len() == w * h,
        old(dst)@.len() == w * h,
        1 <= w,
        1 <= h,
        radius <= 1000,
        w * h + 2 * radius + 2 <= usize::MAX,
    ensures
        final(dst)@.len() == w * h,
        forall|x: int, y: int|
            0 <= x < w && 0 <= y < h ==> #[trigger] final(dst)@[y * w + x] as int == hblur(
                plane_of(src@, w as int),
                w as int,
                radius as int,
            )(x, y),
{
    let ghost f = plane_of(src@, w as int);
    let ghost r = radius as int;
    let window = (radius * 2 + 1) as u32;
    let mut y: usize = 0;
    while y < h
        invariant
            src@.len() == w * h,
            dst@.len() == w * h,
            1 <= w,
            1 <= h,
            radius <= 1000,
            r == radius,
            w * h + 2 * radius + 2 <= usize::MAX,
            window == 2 * radius + 1,
            f == plane_of(src@, w as int),
            y <= h,
            forall|x: int, y2: int|
                0 <= x < w && 0 <= y2 < y ==> #[trigger] dst@[y2 * w + x] as int == hblur(f, w as int, r)(x, y2),
        decreases h - y,
    {
        proof {
            crate::frame::lemma_row_start(y as int, w as int, h as int);
        }
        let row = y * w;
        let mut sum: u32 = 0;
        let last = if radius < w - 1 { radius } else { w - 1 };
        let mut x: usize = 0;
        while x <= last
            invariant
                src@.len() == w * h,
                row == y * w,
                row + w <= w * h,
                y < h,
                last < w,
                last <= radius <= 1000,
                w * h + 2 * radius + 2 <= usize::MAX,
                f == plane_of(src@, w as int),
                x <= last + 1,
                sum as int == row_sum(f, y as int, 0, x as int),
                sum <= x * 65535,
            decreases last + 1 - x,
        {
            let v = src[row + x];
            proof {
                assert(f(x as int, y as int) == v as int);
                assert(row_sum(f, y as int, 0, x + 1) == row_sum(f, y as int, 0, x as int) + f(x as int, y as int));
                assert(sum + v <= (x + 1) * 65535);
                assert((x + 1) * 65535 <= 1001 * 65535);
            }
            sum += v as u32;
            x += 1;
        }
        let mut x: usize = 0;
        while x < w
            invariant
                src@.len() == w * h,
                dst@.len() == w * h,
                1 <= w,
                row == y * w,
                row + w <= w * h,
                y < h,
                radius <= 1000,
                r == radius,
                w * h + 2 * radius + 2 <= usize::MAX,
                window == 2 * radius + 1,
                f == plane_of(src@, w as int),
                x <= w,
                sum as int == row_sum(f, y as int, max_int(0, x - r), min_int(w as int, x + r + 1)),
                forall|x2: int, y2: int|
                    0 <= x2 < w && 0 <= y2 < y ==> #[trigger] dst@[y2 * w + x2] as int == hblur(f, w as int, r)(x2, y2),
                forall|x2: int|
                    0 <= x2 < x ==> #[trigger] dst@[y * w + x2] as int == hblur(f, w as int, r)(x2, y as int),
            decreases w - x,
        {
            let ghost lo = max_int(0, x - r);
            let ghost hi = min_int(w as int, x + r + 1);
            proof {
                assert forall|j: int| lo <= j < hi implies 0 <= #[trigger] f(j, y as int) <= 65535 by {
                    assert(f(j, y as int) == src@[row + j] as int);
                }
                lemma_row_sum_bounds(f, y as int, lo, hi, 65535);
                lemma_window_avg(sum as int, lo, hi, r);
            }
            let v = (sum / window) as u16;
            let ghost before = dst@;
            dst.set(row + x, v);
            proof {
                assert forall|x2: int, y2: int|
                    0 <= x2 < w && 0 <= y2 < y implies #[trigger] dst@[y2 * w + x2] as int == hblur(f, w as int, r)(x2, y2) by {
                    lemma_grid_order(x2, y2, x as int, y as int, w as int);
                    assert(dst@[y2 * w + x2] == before[y2 * w + x2]);
                }
                assert forall|x2: int|
                    0 <= x2 < x + 1 implies #[trigger] dst@[y * w + x2] as int == hblur(f, w as int, r)(x2, y as int) by {
                    if x2 < x {
                        assert(dst@[y * w + x2] == before[y * w + x2]);
                    }
                }
                lemma_slide_row(f, y as int, x as int, r, w as int);
                let lo2 = max_int(0, x + 1 - r);
                let hi2 = min_int(w as int, x + r + 2);
                assert forall|j: int| lo2 <= j < hi2 implies 0 <= #[trigger] f(j, y as int) <= 65535 by {
                    assert(f(j, y as int) == src@[row + j] as int);
                }
                lemma_row_sum_bounds(f, y as int, lo2, hi2, 65535);
                assert(x < w * h) by (nonlinear_arith)
                    requires
                        x < w,
                        1 <= h,
                ;
            }
            let add = x + radius + 1;
            if add < w {
                let a = src[row + add];
                proof {
                    assert(f(add as int, y as int) == a as int);
                }
                sum += a as u32;
            }
            if x >= radius {
                let s = src[row + x - radius];
                proof {
                    assert(f(x - r, y as int) == s as int);
                }
                sum -= s as u32;
            }
            x += 1;
        }
        y += 1;
    }
}

/// One vertical box-blur pass of radius `radius` (running sum, one pass per
/// column): `dst` gets [`vblur`] of `src`.
pub fn box_blur_v(src: &Vec<u16>, dst: &mut Vec<u16>, w: usize, h: usize, radius: usize)
    requires
        src@.len() == w * h,
        old(dst)@.len() == w * h,
        1 <= w,
        1 <= h,
        radius <= 1000,
        w * h + 2 * radius + 2 <= usize::MAX,
    ensures
        final(dst)@.len() == w * h,
        forall|x: int, y: int|
            0 <= x < w && 0 <= y < h ==> #[trigger] final(dst)@[y * w + x] as int == vblur(
                plane_of(src@, w as int),
                h as int,
                radius as int,
            )(x, y),
{
    let ghost f = plane_of(src@, w as int);
    let ghost r = radius as int;
    let window = (radius * 2 + 1) as u32;
    let mut x: usize = 0;
    while x < w
        invariant
            src@.len() == w * h,
            dst@.len() == w * h,
            1 <= w,
            1 <= h,
            radius <= 1000,
            r == radius,
            w * h + 2 * radius + 2 <= usize::MAX,
            window == 2 * radius + 1,
            f == plane_of(src@, w as int),
            x <= w,
            forall|x2: int, y2: int|
                0 <= x2 < x && 0 <= y2 < h ==> #[trigger] dst@[y2 * w + x2] as int == vblur(f, h as int, r)(x2, y2),
        decreases w - x,
    {
        let mut sum: u32 = 0;
        let last = if radius < h - 1 { radius } else { h - 1 };
        let mut y: usize = 0;
        while y <= last
            invariant
                src@.len() == w * h,
                x < w,
                last < h,
                last <= radius <= 1000,
                w * h + 2 * radius + 2 <= usize::MAX,
                f == plane_of(src@, w as int),
                y <= last + 1,
                sum as int == col_sum(f, x as int, 0, y as int),
                sum <= y * 65535,
            decreases last + 1 - y,
        {
            proof {
                crate::frame::lemma_index_in_grid(x as int, y as int, w as int, h as int);
            }
            let v = src[y * w + x];
            proof {
                assert(f(x as int, y as int) == v as int);
                assert(col_sum(f, x as int, 0, y + 1) == col_sum(f, x as int, 0, y as int) + f(x as int, y as int));
                assert(sum + v <= (y + 1) * 65535);
                assert((y + 1) * 65535 <= 1001 * 65535);
            }
            sum += v as u32;
            y += 1;
        }
        let mut y: usize = 0;
        while y < h
            invariant
                src@.len() == w * h,
                dst@.len() == w * h,
                1 <= w,
                1 <= h,
                x < w,
                radius <= 1000,
                r == radius,
                w * h + 2 * radius + 2 <= usize::MAX,
                window == 2 * radius + 1,
                f == plane_of(src@, w as int),
                y <= h,
                sum as int == col_sum(f, x as int, max_int(0, y - r), min_int(h as int, y + r + 1)),
                forall|x2: int, y2: int|
                    0 <= x2 < x && 0 <= y2 < h ==> #[trigger] dst@[y2 * w + x2] as int == vblur(f, h as int, r)(x2, y2),
                forall|y2: int|
                    0 <= y2 < y ==> #[trigger] dst@[y2 * w + x] as int == vblur(f, h as int, r)(x as int, y2),
            decreases h - y,
        {
            let ghost lo = max_int(0, y - r);
            let ghost hi = min_int(h as int, y + r + 1);
            proof {
                assert forall|j: int| lo <= j < hi implies 0 <= #[trigger] f(x as int, j) <= 65535 by {
                    crate::frame::lemma_index_in_grid(x as int, j, w as int, h as int);
                    assert(f(x as int, j) == src@[j * w + x] as int);
                }
                lemma_col_sum_bounds(f, x as int, lo, hi, 65535);
                lemma_window_avg(sum as int, lo, hi, r);
                crate::frame::lemma_index_in_grid(x as int, y as int, w as int, h as int);
            }
            let v = (sum / window) as u16;
            let ghost before = dst@;
            dst.set(y * w + x, v);
            proof {
                assert forall|x2: int, y2: int|
                    0 <= x2 < x && 0 <= y2 < h implies #[trigger] dst@[y2 * w + x2] as int == vblur(f, h as int, r)(x2, y2) by {
                    lemma_grid_order(x2, y2, x as int, y as int, w as int);
                    crate::frame::lemma_index_in_grid(x2, y2, w as int, h as int);
                    assert(dst@[y2 * w + x2] == before[y2 * w + x2]);
                }
                assert forall|y2: int|
                    0 <= y2 < y + 1 implies #[trigger] dst@[y2 * w + x] as int == vblur(f, h as int, r)(x as int, y2) by {
                    if y2 < y {
                        lemma_grid_order(x as int, y2, x as int, y as int, w as int);
                        assert(dst@[y2 * w + x] == before[y2 * w + x]);
                    }
                }
                lemma_slide_col(f, x as int, y as int, r, h as int);
                let lo2 = max_int(0, y + 1 - r);
                let hi2 = min_int(h as int, y + r + 2);
                assert forall|j: int| lo2 <= j < hi2 implies 0 <= #[trigger] f(x as int, j) <= 65535 by {
                    crate::frame::lemma_index_in_grid(x as int, j, w as int, h as int);
                    assert(f(x as int, j) == src@[j * w + x] as int);
                }
                lemma_col_sum_bounds(f, x as int, lo2, hi2, 65535);
                assert(y < w * h) by (nonlinear_arith)
                    requires
                        y < h,
                        1 <= w,
                ;
            }
            let add = y + radius + 1;
            if add < h {
                proof {
                    crate::frame::lemma_index_in_grid(x as int, add as int, w as int, h as int);
                }
                let a = src[add * w + x];
                proof {
                    assert(f(x as int, add as int) == a as int);
                }
                sum += a as u32;
            }
            if y >= radius {
                proof {
                    crate::frame::lemma_index_in_grid(x as int, y - r, w as int, h as int);
                }
                let s = src[(y - radius) * w + x];
                proof {
                    assert(f(x as int, y - r) == s as int);
                }
                sum -= s as u32;
            }
            y += 1;
        }
        x += 1;
    }
}

} // verus!

verus! {

/// `k` rounds of horizontal-then-vertical radius-3 box blur.
pub open spec fn blur_rounds(f: Plane, w: int, h: int, k: nat) -> Plane
    decreases k,
{
    if k == 0 {
        f
    } else {
        vblur(hblur(blur_rounds(f, w, h, (k - 1) as nat), w, 3), h, 3)
    }
}

pub proof fn lemma_agree_trans(f: Plane, g: Plane, k: Plane, w: int, h: int)
    requires
        agree(f, g, w, h),
        agree(g, k, w, h),
    ensures
        agree(f, k, w, h),
{
}

/// Planes that agree on the grid bloom alike on it.
pub proof fn lemma_bloom_ext(f: Plane, g: Plane, w: int, h: int)
    requires
        agree(f, g, w, h),
    ensures
        agree(bloom(f, w, h), bloom(g, w, h), w, h),
{
    reveal(bloom);
    lemma_blur_ext(f, g, w, h, 3);
    lemma_blur_ext(hblur(f, w, 3), hblur(g, w, 3), w, h, 3);
    let f1 = vblur(hblur(f, w, 3), h, 3);
    let g1 = vblur(hblur(g, w, 3), h, 3);
    lemma_blur_ext(f1, g1, w, h, 3);
    lemma_blur_ext(hblur(f1, w, 3), hblur(g1, w, 3), w, h, 3);
    let f2 = vblur(hblur(f1, w, 3), h, 3);
    let g2 = vblur(hblur(g1, w, 3), h, 3);
    lemma_blur_ext(f2, g2, w, h, 3);
    lemma_blur_ext(hblur(f2, w, 3), hblur(g2, w, 3), w, h, 3);
}

/// Three rounds of horizontal-then-vertical radius-3 box blur of `chan`, in
/// place (`tmp` is scratch space of the same size).
pub fn bloom_plane(chan: &mut Vec<u16>, tmp: &mut Vec<u16>, w: usize, h: usize)
    requires
        old(chan)@.len() == w * h,
        old(tmp)@.len() == w * h,
        1 <= w,
        1 <= h,
        w * h + 8 <= usize::MAX,
    ensures
        final(chan)@.len() == w * h,
        final(tmp)@.len() == w * h,
        agree(plane_of(final(chan)@, w as int), bloom(plane_of(old(chan)@, w as int), w as int, h as int), w as int, h as int),
{
    let ghost p0 = plane_of(chan@, w as int);
    let mut pass: usize = 0;
    while pass < 3
        invariant
            chan@.len() == w * h,
            tmp@.len() == w * h,
            1 <= w,
            1 <= h,
            w * h + 8 <= usize::MAX,
            pass <= 3,
            agree(plane_of(chan@, w as int), blur_rounds(p0, w as int, h as int, pass as nat), w as int, h as int),
        decreases 3 - pass,
    {
        let ghost cur = plane_of(chan@, w as int);
        box_blur_h(chan, tmp, w, h, 3);
        proof {
            assert(agree(plane_of(tmp@, w as int), hblur(cur, w as int, 3), w as int, h as int));
            lemma_blur_ext(cur, blur_rounds(p0, w as int, h as int, pass as nat), w as int, h as int, 3);
        }
        let ghost t = plane_of(tmp@, w as int);
        box_blur_v(tmp, chan, w, h, 3);
        proof {
            assert(agree(plane_of(chan@, w as int), vblur(t, h as int, 3), w as int, h as int));
            let prev = blur_rounds(p0, w as int, h as int, pass as nat);
            lemma_agree_trans(t, hblur(cur, w as int, 3), hblur(prev, w as int, 3), w as int, h as int);
            lemma_blur_ext(t, hblur(prev, w as int, 3), w as int, h as int, 3);
            assert(blur_rounds(p0, w as int, h as int, (pass + 1) as nat) == vblur(hblur(prev, w as int, 3), h as int, 3));
        }
        pass += 1;
    }
    proof {
        reveal_with_fuel(blur_rounds, 4);
        reveal(bloom);
        assert(blur_rounds(p0, w as int, h as int, 3) == bloom(p0, w as int, h as int));
    }
}

/// The plane that is zero everywhere.
pub open spec fn zero_plane() -> Plane {
    |x: int, y: int| 0int
}

proof fn lemma_sums_of_zero(z: int, lo: int, hi: int)
    ensures
        row_sum(zero_plane(), z, lo, hi) == 0,
        col_sum(zero_plane(), z, lo, hi) == 0,
    decreases hi - lo,
{
    if lo < hi {
        lemma_sums_of_zero(z, lo, hi - 1);
    }
}

/// A blur of nothing is nothing.
pub proof fn lemma_bloom_zero(w: int, h: int)
    ensures
        bloom(zero_plane(), w, h) == zero_plane(),
{
    assert forall|x: int, y: int| #[trigger] hblur(zero_plane(), w, 3)(x, y) == zero_plane()(x, y) by {
        lemma_sums_of_zero(y, max_int(0, x - 3), min_int(w, x + 4));
    }
    assert(hblur(zero_plane(), w, 3) =~= zero_plane());
    assert forall|x: int, y: int| #[trigger] vblur(zero_plane(), h, 3)(x, y) == zero_plane()(x, y) by {
        lemma_sums_of_zero(x, max_int(0, y - 3), min_int(h, y + 4));
    }
    assert(vblur(zero_plane(), h, 3) =~= zero_plane());
    reveal(bloom);
}

} // verus!

verus! {

/// A plane with no negative value.
pub open spec fn nonneg(f: Plane) -> bool {
    forall|x: int, y: int| #[trigger] f(x, y) >= 0
}

proof fn lemma_row_sum_nonneg(f: Plane, y: int, lo: int, hi: int)
    requires
        nonneg(f),
    ensures
        row_sum(f, y, lo, hi) >= 0,
    decreases hi - lo,
{
    if lo < hi {
        lemma_row_sum_nonneg(f, y, lo, hi - 1);
        assert(f(hi - 1, y) >= 0);
    }
}

proof fn lemma_col_sum_nonneg(f: Plane, x: int, lo: int, hi: int)
    requires
        nonneg(f),
    ensures
        col_sum(f, x, lo, hi) >= 0,
    decreases hi - lo,
{
    if lo < hi {
        lemma_col_sum_nonneg(f, x, lo, hi - 1);
        assert(f(x, hi - 1) >= 0);
    }
}

proof fn lemma_blur_nonneg(f: Plane, w: int, h: int)
    requires
        nonneg(f),
    ensures
        nonneg(hblur(f, w, 3)),
        nonneg(vblur(f, h, 3)),
{
    assert forall|x: int, y: int| #[trigger] hblur(f, w, 3)(x, y) >= 0 by {
        lemma_row_sum_nonneg(f, y, max_int(0, x - 3), min_int(w, x + 4));
    }
    assert forall|x: int, y: int| #[trigger] vblur(f, h, 3)(x, y) >= 0 by {
        lemma_col_sum_nonneg(f, x, max_int(0, y - 3), min_int(h, y + 4));
    }
}

/// The bloom of a plane with no negative value has none either.
pub proof fn lemma_bloom_nonneg(f: Plane, w: int, h: int)
    requires
        nonneg(f),
    ensures
        nonneg(bloom(f, w, h)),
{
    reveal(bloom);
    let f1 = hblur(f, w, 3);
    lemma_blur_nonneg(f, w, h);
    let f2 = vblur(f1, h, 3);
    lemma_blur_nonneg(f1, w, h);
    let f3 = hblur(f2, w, 3);
    lemma_blur_nonneg(f2, w, h);
    let f4 = vblur(f3, h, 3);
    lemma_blur_nonneg(f3, w, h);
    let f5 = hblur(f4, w, 3);
    lemma_blur_nonneg(f4, w, h);
    lemma_blur_nonneg(f5, w, h);
}

} // verus!
