//! Software rasteriser: turns a frame into a tightly packed RGBA8888 pixel
//! buffer (theme background, glyphs from the embedded font in each cell's
//! colour, an optional bloom and optional CRT scanlines).

use vstd::prelude::*;
use crate::color::RgbColor;
use crate::font::{FIRST, GLYPHS, GLYPH_H, GLYPH_W, LAST};
use crate::frame::{Cell, Frame};
use crate::theme::{Theme, hacker_theme};
use crate::bloom::{Plane, agree, bloom, bloom_plane, lemma_bloom_ext, plane_of};

verus! {

/// Byte `c` of pixel `(x, y)` in a row-major RGBA buffer `w` pixels wide.
pub open spec fn pix(p: Seq<u8>, w: int, x: int, y: int, c: int) -> u8 {
    p[(y * w + x) * 4 + c]
}

/// Channel `c` of an opaque pixel of colour `color` (`3` is alpha).
pub open spec fn channel(color: RgbColor, c: int) -> u8 {
    if c == 0 {
        color.r
    } else if c == 1 {
        color.g
    } else if c == 2 {
        color.b
    } else {
        255
    }
}

/// Pixel `(x, y)` of a `w × h` buffer lies at bytes `(y * w + x) * 4 ..+ 4`.
pub proof fn lemma_pixel_index(x: int, y: int, w: int, h: int, c: int)
    requires
        0 <= x < w,
        0 <= y < h,
        0 <= c < 4,
    ensures
        0 <= (y * w + x) * 4 + c < w * h * 4,
        0 <= y * w + x < w * h,
{
    crate::frame::lemma_index_in_grid(x, y, w, h);
}

/// Different pixels of a `w`-wide buffer occupy different bytes.
pub proof fn lemma_pixel_distinct(x1: int, y1: int, c1: int, x2: int, y2: int, c2: int, w: int)
    requires
        0 <= x1 < w,
        0 <= x2 < w,
        0 <= y1,
        0 <= y2,
        0 <= c1 < 4,
        0 <= c2 < 4,
        x1 != x2 || y1 != y2 || c1 != c2,
    ensures
        (y1 * w + x1) * 4 + c1 != (y2 * w + x2) * 4 + c2,
{
    if y1 == y2 {
        assert((y1 * w + x1) * 4 + c1 != (y2 * w + x2) * 4 + c2) by (nonlinear_arith)
            requires
                y1 == y2,
                x1 != x2 || c1 != c2,
                0 <= c1 < 4,
                0 <= c2 < 4,
        ;
    } else {
        assert((y1 * w + x1) * 4 + c1 != (y2 * w + x2) * 4 + c2) by (nonlinear_arith)
            requires
                y1 != y2,
                0 <= x1 < w,
                0 <= x2 < w,
                0 <= c1 < 4,
                0 <= c2 < 4,
        ;
    }
}

/// A tightly-packed RGBA8888 pixel buffer, row-major, `width * height * 4` bytes.
#[derive(Clone, Debug)]
pub struct PixelBuffer {
    pub width: u32,
    pub height: u32,
    pub pixels: Vec<u8>,
}

impl PixelBuffer {
    /// One RGBA quadruple per pixel.
    pub open spec fn wf(&self) -> bool {
        self.pixels@.len() == self.width * self.height * 4
    }

    /// An all-zero (transparent black) buffer.
    pub fn new(width: u32, height: u32) -> (b: PixelBuffer)
        requires
            width * height * 4 <= usize::MAX,
        ensures
            b.wf(),
            b.width == width,
            b.height == height,
            forall|i: int| 0 <= i < b.pixels@.len() ==> b.pixels@[i] == 0,
    {
        let n = (width as usize) * (height as usize) * 4;
        let mut pixels: Vec<u8> = Vec::with_capacity(n);
        let mut i: usize = 0;
        while i < n
            invariant
                i <= n,
                pixels@.len() == i,
                forall|j: int| 0 <= j < i ==> pixels@[j] == 0,
            decreases n - i,
        {
            pixels.push(0);
            i += 1;
        }
        PixelBuffer { width, height, pixels }
    }

    /// Fill every pixel with an opaque `color`.
    fn fill(&mut self, color: RgbColor)
        requires
            old(self).wf(),
        ensures
            final(self).wf(),
            final(self).width == old(self).width,
            final(self).height == old(self).height,
            forall|x: int, y: int, c: int|
                0 <= x < final(self).width && 0 <= y < final(self).height && 0 <= c < 4
                    ==> #[trigger] pix(final(self).pixels@, final(self).width as int, x, y, c)
                    == channel(color, c),
    {
        let n = self.pixels.len();
        let mut i: usize = 0;
        while i < n
            invariant
                self.wf(),
                self.width == old(self).width,
                self.height == old(self).height,
                n == self.pixels@.len(),
                i <= n,
                forall|j: int| 0 <= j < i ==> #[trigger] self.pixels@[j] == channel(color, j % 4),
            decreases n - i,
        {
            let v: u8 = if i % 4 == 0 {
                color.r
            } else if i % 4 == 1 {
                color.g
            } else if i % 4 == 2 {
                color.b
            } else {
                255
            };
            self.pixels.set(i, v);
            i += 1;
        }
        assert forall|x: int, y: int, c: int|
            0 <= x < self.width && 0 <= y < self.height && 0 <= c < 4 implies #[trigger] pix(
            self.pixels@,
            self.width as int,
            x,
            y,
            c,
        ) == channel(color, c) by {
            lemma_pixel_index(x, y, self.width as int, self.height as int, c);
            let q = y * self.width + x;
            assert((q * 4 + c) % 4 == c) by (nonlinear_arith)
                requires
                    0 <= c < 4,
                    0 <= q,
            ;
        }
    }
}

/// How to rasterise a frame: cell metrics, theme, and the CRT effects.
#[derive(Clone, Copy, Debug)]
pub struct RenderOptions {
    pub cell_w: u32,
    pub cell_h: u32,
    pub theme: Theme,
    pub scanlines: bool,
    pub glow: bool,
}

impl Default for RenderOptions {
    fn default() -> (o: RenderOptions)
        ensures
            o.cell_w == 8,
            o.cell_h == 16,
            o.theme == hacker_theme(),
            o.scanlines,
            o.glow,
    {
        RenderOptions { cell_w: 8, cell_h: 16, theme: Theme::hacker(), scanlines: true, glow: true }
    }
}

/// The bitmap of a printable ASCII glyph, if `ch` has one.
pub open spec fn glyph_of(ch: char) -> Option<Seq<u8>> {
    if FIRST <= ch as u32 <= LAST {
        Some(GLYPHS@[(ch as u32 - FIRST) as int]@)
    } else {
        None
    }
}

/// The bitmap for a printable ASCII glyph, or `None` outside the embedded
/// range.
pub fn glyph_bitmap(ch: char) -> (r: Option<[u8; 16]>)
    ensures
        match glyph_of(ch) {
            Some(g) => r is Some && r->0@ == g,
            None => r is None,
        },
{
    let code = ch as u32;
    if code < FIRST as u32 || code > LAST as u32 {
        return None;
    }
    Some(GLYPHS[(code - FIRST as u32) as usize])
}

/// Whether source pixel `(dx, dy)` of a `cw × chh` cell is lit in glyph `g`
/// (nearest-neighbour scaling of the 8 × 16 bitmap).
#[verifier::opaque]
pub open spec fn glyph_lit(g: Seq<u8>, dx: int, dy: int, cw: int, chh: int) -> bool {
    g[dy * 16 / chh] & (0x80u8 >> ((dx * 8 / cw) as u8)) != 0
}

} // verus!

verus! {

/// The pixel after blitting glyph `g` in `color` into the `cw × chh` cell at
/// `(x0, y0)`, counting only the cell pixels that come before `(dx_lim, dy_lim)`
/// in row-major order.
pub open spec fn blit_pix(
    old_p: Seq<u8>,
    w: int,
    x0: int,
    y0: int,
    cw: int,
    chh: int,
    g: Seq<u8>,
    color: RgbColor,
    dx_lim: int,
    dy_lim: int,
    x: int,
    y: int,
    c: int,
) -> u8 {
    if x0 <= x < x0 + cw && y0 <= y < y0 + chh && (y - y0 < dy_lim || (y - y0 == dy_lim && x
        - x0 < dx_lim)) && glyph_lit(g, x - x0, y - y0, cw, chh) {
        channel(color, c)
    } else {
        pix(old_p, w, x, y, c)
    }
}

proof fn lemma_scaled_index(d: int, n: int, k: int)
    requires
        0 <= d < n,
        1 <= k,
    ensures
        0 <= d * k / n < k,
{
    assert(0 <= d * k / n < k) by (nonlinear_arith)
        requires
            0 <= d < n,
            1 <= k,
    ;
}

/// Paint pixel `(x, y)` opaque `color`, leaving every other pixel as it was.
fn set_pixel(buf: &mut PixelBuffer, x: u32, y: u32, color: RgbColor)
    requires
        old(buf).wf(),
        x < old(buf).width,
        y < old(buf).height,
    ensures
        final(buf).wf(),
        final(buf).width == old(buf).width,
        final(buf).height == old(buf).height,
        forall|x2: int, y2: int, c: int|
            0 <= x2 < old(buf).width && 0 <= y2 < old(buf).height && 0 <= c < 4 ==> #[trigger] pix(
                final(buf).pixels@,
                old(buf).width as int,
                x2,
                y2,
                c,
            ) == if x2 == x && y2 == y {
                channel(color, c)
            } else {
                pix(old(buf).pixels@, old(buf).width as int, x2, y2, c)
            },
{
    let ghost w = buf.width as int;
    let ghost h = buf.height as int;
    let n = buf.pixels.len();
    proof {
        lemma_pixel_index(x as int, y as int, w, h, 3);
    }
    let off = ((y as usize) * (buf.width as usize) + (x as usize)) * 4;
    buf.pixels.set(off, color.r);
    buf.pixels.set(off + 1, color.g);
    buf.pixels.set(off + 2, color.b);
    buf.pixels.set(off + 3, 255);
    proof {
        assert forall|x2: int, y2: int, c: int|
            0 <= x2 < w && 0 <= y2 < h && 0 <= c < 4 implies #[trigger] pix(buf.pixels@, w, x2, y2, c)
                == if x2 == x && y2 == y {
                channel(color, c)
            } else {
                pix(old(buf).pixels@, w, x2, y2, c)
            } by {
            lemma_pixel_index(x2, y2, w, h, c);
            if !(x2 == x && y2 == y) {
                lemma_pixel_distinct(x2, y2, c, x as int, y as int, 0, w);
                lemma_pixel_distinct(x2, y2, c, x as int, y as int, 1, w);
                lemma_pixel_distinct(x2, y2, c, x as int, y as int, 2, w);
                lemma_pixel_distinct(x2, y2, c, x as int, y as int, 3, w);
            }
        }
    }
}

/// Blit glyph `ch` in `color` into the `cell_w × cell_h` cell whose top-left
/// pixel is `(x0, y0)`: lit font bits (nearest-neighbour scaled) are painted,
/// everything else is left as it was. Characters without a glyph draw nothing.
pub fn blit_glyph(
    buf: &mut PixelBuffer,
    ch: char,
    x0: u32,
    y0: u32,
    cell_w: u32,
    cell_h: u32,
    color: RgbColor,
)
    requires
        old(buf).wf(),
        1 <= cell_w <= 0x1FFF_FFFF,
        1 <= cell_h <= 0x0FFF_FFFF,
        old(buf).width * old(buf).height <= u32::MAX,
    ensures
        final(buf).wf(),
        final(buf).width == old(buf).width,
        final(buf).height == old(buf).height,
        forall|x: int, y: int, c: int|
            0 <= x < old(buf).width && 0 <= y < old(buf).height && 0 <= c < 4 ==> #[trigger] pix(
                final(buf).pixels@,
                old(buf).width as int,
                x,
                y,
                c,
            ) == (match glyph_of(ch) {
                Some(g) => blit_pix(
                    old(buf).pixels@,
                    old(buf).width as int,
                    x0 as int,
                    y0 as int,
                    cell_w as int,
                    cell_h as int,
                    g,
                    color,
                    0,
                    cell_h as int,
                    x,
                    y,
                    c,
                ),
                None => pix(old(buf).pixels@, old(buf).width as int, x, y, c),
            }),
{
    let bitmap = match glyph_bitmap(ch) {
        Some(b) => b,
        None => {
            return;
        },
    };
    let ghost g = bitmap@;
    let ghost old_p = buf.pixels@;
    let ghost w = buf.width as int;
    let ghost h = buf.height as int;
    let bw = buf.width;
    let bh = buf.height;
    // Only the part of the cell inside the buffer is drawn.
    let rows: u32 = if y0 >= bh { 0 } else if cell_h < bh - y0 { cell_h } else { bh - y0 };
    let cols: u32 = if x0 >= bw { 0 } else if cell_w < bw - x0 { cell_w } else { bw - x0 };
    let mut dy: u32 = 0;
    while dy < rows
        invariant
            buf.wf(),
            buf.width == bw,
            bw == w,
            buf.height == h,
            w * h <= u32::MAX,
            bh == h,
            rows <= cell_h,
            rows > 0 ==> y0 + rows <= h,
            rows == (if y0 >= h { 0 } else if cell_h < h - y0 { cell_h as int } else { h - y0 }),
            cols <= cell_w,
            cols > 0 ==> x0 + cols <= w,
            cols == (if x0 >= w { 0 } else if cell_w < w - x0 { cell_w as int } else { w - x0 }),
            1 <= cell_w <= 0x1FFF_FFFF,
            1 <= cell_h <= 0x0FFF_FFFF,
            g == bitmap@,
            g.len() == 16,
            dy <= rows,
            forall|x: int, y: int, c: int|
                0 <= x < w && 0 <= y < h && 0 <= c < 4 ==> #[trigger] pix(buf.pixels@, w, x, y, c)
                    == blit_pix(old_p, w, x0 as int, y0 as int, cell_w as int, cell_h as int, g, color, 0, dy as int, x, y, c),
        decreases rows - dy,
    {
        let py = y0 + dy;
        proof {
            lemma_scaled_index(dy as int, cell_h as int, 16);
        }
        let src_row = (dy * GLYPH_H as u32 / cell_h) as usize;
        let bits = bitmap[src_row];
        let mut dx: u32 = 0;
        while dx < cols
            invariant
                buf.wf(),
                buf.width == bw,
                bw == w,
                buf.height == h,
                w * h <= u32::MAX,
                rows <= cell_h,
                y0 + rows <= h,
                cols <= cell_w,
                cols > 0 ==> x0 + cols <= w,
                cols == (if x0 >= w { 0 } else if cell_w < w - x0 { cell_w as int } else { w - x0 }),
                1 <= cell_w <= 0x1FFF_FFFF,
                1 <= cell_h <= 0x0FFF_FFFF,
                g == bitmap@,
                g.len() == 16,
                dy < rows,
                py == y0 + dy,
                src_row as int == dy as int * 16 / cell_h as int,
                bits == g[src_row as int],
                dx <= cols,
                forall|x: int, y: int, c: int|
                    0 <= x < w && 0 <= y < h && 0 <= c < 4 ==> #[trigger] pix(buf.pixels@, w, x, y, c)
                        == blit_pix(old_p, w, x0 as int, y0 as int, cell_w as int, cell_h as int, g, color, dx as int, dy as int, x, y, c),
            decreases cols - dx,
        {
            let px = x0 + dx;
            proof {
                lemma_scaled_index(dx as int, cell_w as int, 8);
            }
            let src_col = (dx * GLYPH_W as u32 / cell_w) as u8;
            let lit = bits & (0x80u8 >> src_col) != 0;
            proof {
                reveal(glyph_lit);
                assert(lit == glyph_lit(g, px - x0, py - y0, cell_w as int, cell_h as int));
            }
            if lit {
                let ghost before = buf.pixels@;
                set_pixel(buf, px, py, color);
                proof {
                    assert forall|x: int, y: int, c: int|
                        0 <= x < w && 0 <= y < h && 0 <= c < 4 implies #[trigger] pix(buf.pixels@, w, x, y, c)
                            == blit_pix(old_p, w, x0 as int, y0 as int, cell_w as int, cell_h as int, g, color, dx + 1, dy as int, x, y, c) by {
                        if !(x == px && y == py) {
                            assert(pix(buf.pixels@, w, x, y, c) == pix(before, w, x, y, c));
                        }
                    }
                }
            } else {
                proof {
                    assert forall|x: int, y: int, c: int|
                        0 <= x < w && 0 <= y < h && 0 <= c < 4 implies #[trigger] pix(buf.pixels@, w, x, y, c)
                            == blit_pix(old_p, w, x0 as int, y0 as int, cell_w as int, cell_h as int, g, color, dx + 1, dy as int, x, y, c) by {
                    }
                }
            }
            dx += 1;
        }
        proof {
            assert forall|x: int, y: int, c: int|
                0 <= x < w && 0 <= y < h && 0 <= c < 4 implies #[trigger] pix(buf.pixels@, w, x, y, c)
                    == blit_pix(old_p, w, x0 as int, y0 as int, cell_w as int, cell_h as int, g, color, 0, dy + 1, x, y, c) by {
                assert(blit_pix(old_p, w, x0 as int, y0 as int, cell_w as int, cell_h as int, g, color, cols as int, dy as int, x, y, c)
                    == blit_pix(old_p, w, x0 as int, y0 as int, cell_w as int, cell_h as int, g, color, 0, dy + 1, x, y, c));
            }
        }
        dy += 1;
    }
    proof {
        assert forall|x: int, y: int, c: int|
            0 <= x < w && 0 <= y < h && 0 <= c < 4 implies #[trigger] pix(buf.pixels@, w, x, y, c)
                == blit_pix(old_p, w, x0 as int, y0 as int, cell_w as int, cell_h as int, g, color, 0, cell_h as int, x, y, c) by {
            assert(blit_pix(old_p, w, x0 as int, y0 as int, cell_w as int, cell_h as int, g, color, 0, rows as int, x, y, c)
                == blit_pix(old_p, w, x0 as int, y0 as int, cell_w as int, cell_h as int, g, color, 0, cell_h as int, x, y, c));
        }
    }
}

} // verus!

verus! {

/// An image as a function from `(x, y, channel)` to a byte.
pub type Image = spec_fn(int, int, int) -> u8;

/// The image a buffer holds.
pub open spec fn buffer_image(p: Seq<u8>, w: int) -> Image {
    |x: int, y: int, c: int| pix(p, w, x, y, c)
}

/// `v` clamped below by 1.
pub open spec fn at_least_one(v: u32) -> int {
    if v < 1 { 1 } else { v as int }
}

/// The colour a cell is drawn in: its own, or the theme's text colour.
pub open spec fn ink(cell: Cell, text: RgbColor) -> RgbColor {
    match cell.color {
        Some(c) => c,
        None => text,
    }
}

/// Whether pixel `(x, y)` belongs to a cell that comes before `(col_lim,
/// row_lim)` in row-major order.
pub open spec fn cell_done(x: int, y: int, cw: int, chh: int, col_lim: int, row_lim: int) -> bool {
    y / chh < row_lim || (y / chh == row_lim && x / cw < col_lim)
}

/// The colour of pixel `(x, y)` once the cells before `(col_lim, row_lim)` are
/// drawn: the glyph colour where the cell's glyph is lit, else the background.
pub open spec fn raster_color_upto(
    frame: Frame,
    opts: RenderOptions,
    col_lim: int,
    row_lim: int,
    x: int,
    y: int,
) -> RgbColor {
    let cw = at_least_one(opts.cell_w);
    let chh = at_least_one(opts.cell_h);
    let col = x / cw;
    let row = y / chh;
    if col < frame.width && row < frame.height && cell_done(x, y, cw, chh, col_lim, row_lim) {
        let cell = frame.cells@[row * frame.width + col];
        match glyph_of(cell.ch) {
            Some(g) => if cell.ch != ' ' && glyph_lit(g, x % cw, y % chh, cw, chh) {
                ink(cell, opts.theme.text)
            } else {
                opts.theme.background
            },
            None => opts.theme.background,
        }
    } else {
        opts.theme.background
    }
}

/// The drawn glyphs over the theme background.
pub open spec fn raster_image(frame: Frame, opts: RenderOptions) -> Image {
    |x: int, y: int, c: int| channel(raster_color_upto(frame, opts, 0, frame.height as int, x, y), c)
}

/// A colour channel darkened to 82%.
pub open spec fn dim(v: u8) -> u8 {
    (v as int * 82 / 100) as u8
}

/// A byte of pixel row `y` after the scanline pass: colour channels of odd
/// rows are dimmed.
pub open spec fn scan_byte(v: u8, y: int, c: int) -> u8 {
    if y % 2 == 1 && c < 3 { dim(v) } else { v }
}

/// `(x, y)` is in cell `(col, row)` of a grid of `cw × chh` cells exactly when
/// `x / cw == col` and `y / chh == row`; the offsets are the remainders.
pub proof fn lemma_cell_of(x: int, cw: int, col: int)
    requires
        0 <= x,
        1 <= cw,
        0 <= col,
    ensures
        (col * cw <= x < col * cw + cw) <==> x / cw == col,
        x / cw == col ==> x % cw == x - col * cw,
{
    vstd::arithmetic::div_mod::lemma_fundamental_div_mod(x, cw);
    if col * cw <= x < col * cw + cw {
        vstd::arithmetic::div_mod::lemma_fundamental_div_mod_converse(x, cw, col, x - col * cw);
    }
    if x / cw == col {
        assert(col * cw <= x < col * cw + cw) by (nonlinear_arith)
            requires
                x == cw * (x / cw) + x % cw,
                0 <= x % cw < cw,
                x / cw == col,
        ;
    }
}

/// Scale the colour channels of pixel `(x, y)` to 82%, leaving alpha and
/// every other pixel as they were.
fn dim_pixel(buf: &mut PixelBuffer, x: u32, y: u32)
    requires
        old(buf).wf(),
        x < old(buf).width,
        y < old(buf).height,
    ensures
        final(buf).wf(),
        final(buf).width == old(buf).width,
        final(buf).height == old(buf).height,
        forall|x2: int, y2: int, c: int|
            0 <= x2 < old(buf).width && 0 <= y2 < old(buf).height && 0 <= c < 4 ==> #[trigger] pix(
                final(buf).pixels@,
                old(buf).width as int,
                x2,
                y2,
                c,
            ) == if x2 == x && y2 == y && c < 3 {
                dim(pix(old(buf).pixels@, old(buf).width as int, x2, y2, c))
            } else {
                pix(old(buf).pixels@, old(buf).width as int, x2, y2, c)
            },
{
    let ghost w = buf.width as int;
    let ghost h = buf.height as int;
    let n = buf.pixels.len();
    proof {
        lemma_pixel_index(x as int, y as int, w, h, 3);
    }
    let off = ((y as usize) * (buf.width as usize) + (x as usize)) * 4;
    let r = buf.pixels[off];
    let g = buf.pixels[off + 1];
    let b = buf.pixels[off + 2];
    buf.pixels.set(off, ((r as u32) * 82 / 100) as u8);
    buf.pixels.set(off + 1, ((g as u32) * 82 / 100) as u8);
    buf.pixels.set(off + 2, ((b as u32) * 82 / 100) as u8);
    proof {
        assert forall|x2: int, y2: int, c: int|
            0 <= x2 < w && 0 <= y2 < h && 0 <= c < 4 implies #[trigger] pix(buf.pixels@, w, x2, y2, c)
                == if x2 == x && y2 == y && c < 3 {
                dim(pix(old(buf).pixels@, w, x2, y2, c))
            } else {
                pix(old(buf).pixels@, w, x2, y2, c)
            } by {
            lemma_pixel_index(x2, y2, w, h, c);
            if !(x2 == x && y2 == y) {
                lemma_pixel_distinct(x2, y2, c, x as int, y as int, 0, w);
                lemma_pixel_distinct(x2, y2, c, x as int, y as int, 1, w);
                lemma_pixel_distinct(x2, y2, c, x as int, y as int, 2, w);
            }
        }
    }
}

/// Darken every other pixel row (the odd ones) to suggest CRT scanlines.
pub fn apply_scanlines(buf: &mut PixelBuffer)
    requires
        old(buf).wf(),
    ensures
        final(buf).wf(),
        final(buf).width == old(buf).width,
        final(buf).height == old(buf).height,
        forall|x: int, y: int, c: int|
            0 <= x < old(buf).width && 0 <= y < old(buf).height && 0 <= c < 4 ==> #[trigger] pix(
                final(buf).pixels@,
                old(buf).width as int,
                x,
                y,
                c,
            ) == scan_byte(pix(old(buf).pixels@, old(buf).width as int, x, y, c), y, c),
{
    let ghost old_p = buf.pixels@;
    let ghost w = buf.width as int;
    let ghost h = buf.height as int;
    let bw = buf.width;
    let bh = buf.height;
    let mut y: u32 = 1;
    while y < bh
        invariant
            buf.wf(),
            buf.width == w,
            buf.height == h,
            bw == w,
            bh == h,
            1 <= y,
            y % 2 == 1 || y == bh,
            forall|x2: int, y2: int, c: int|
                0 <= x2 < w && 0 <= y2 < h && 0 <= c < 4 ==> #[trigger] pix(buf.pixels@, w, x2, y2, c)
                    == if y2 < y {
                    scan_byte(pix(old_p, w, x2, y2, c), y2, c)
                } else {
                    pix(old_p, w, x2, y2, c)
                },
        decreases bh - y,
    {
        let mut x: u32 = 0;
        while x < bw
            invariant
                buf.wf(),
                buf.width == w,
                buf.height == h,
                bw == w,
                bh == h,
                y < bh,
                y % 2 == 1,
                x <= bw,
                forall|x2: int, y2: int, c: int|
                    0 <= x2 < w && 0 <= y2 < h && 0 <= c < 4 ==> #[trigger] pix(buf.pixels@, w, x2, y2, c)
                        == if y2 < y || (y2 == y && x2 < x) {
                        scan_byte(pix(old_p, w, x2, y2, c), y2, c)
                    } else {
                        pix(old_p, w, x2, y2, c)
                    },
            decreases bw - x,
        {
            dim_pixel(buf, x, y);
            x += 1;
        }
        proof {
            assert forall|x2: int, y2: int, c: int|
                0 <= x2 < w && 0 <= y2 < h && 0 <= c < 4 && y2 == y + 1 implies
                    scan_byte(pix(old_p, w, x2, y2, c), y2, c) == pix(old_p, w, x2, y2, c) by {
            }
        }
        if bh - y <= 2 {
            y = bh;
        } else {
            y += 2;
        }
    }
}

} // verus!

verus! {

/// How far channel `c` of an image rises above the background value `bg`.
pub open spec fn excess_plane(img: Image, bg: u8, c: int) -> Plane {
    |x: int, y: int| if img(x, y, c) >= bg { img(x, y, c) - bg } else { 0 }
}

/// Byte `c` of pixel `(x, y)` after the glow pass over a `w × h` image: the
/// bloomed excess of the channel, scaled to 45%, is added to the colour
/// channels (saturating at 255); alpha is unchanged.
pub open spec fn glow_value(img: Image, w: int, h: int, bg: RgbColor, x: int, y: int, c: int) -> u8 {
    if c == 3 {
        img(x, y, c)
    } else {
        halo_add(img(x, y, c), bloom(excess_plane(img, channel(bg, c), c), w, h)(x, y))
    }
}

/// Two images agree on the `w × h` grid.
pub open spec fn images_agree(a: Image, b: Image, w: int, h: int) -> bool {
    forall|x: int, y: int, c: int| 0 <= x < w && 0 <= y < h && 0 <= c < 4 ==> #[trigger] a(x, y, c) == b(x, y, c)
}

/// The glow reads only the grid.
pub proof fn lemma_glow_ext(a: Image, b: Image, w: int, h: int, bg: RgbColor)
    requires
        images_agree(a, b, w, h),
    ensures
        forall|x: int, y: int, c: int| 0 <= x < w && 0 <= y < h && 0 <= c < 4 ==> #[trigger] glow_value(a, w, h, bg, x, y, c)
            == glow_value(b, w, h, bg, x, y, c),
{
    assert forall|c: int| 0 <= c < 3 implies agree(bloom(excess_plane(a, channel(bg, c), c), w, h), bloom(excess_plane(b, channel(bg, c), c), w, h), w, h) by {
        assert(agree(excess_plane(a, channel(bg, c), c), excess_plane(b, channel(bg, c), c), w, h)) by {
            assert forall|x: int, y: int| 0 <= x < w && 0 <= y < h implies #[trigger] excess_plane(a, channel(bg, c), c)(x, y)
                == excess_plane(b, channel(bg, c), c)(x, y) by {
                assert(a(x, y, c) == b(x, y, c));
            }
        }
        lemma_bloom_ext(excess_plane(a, channel(bg, c), c), excess_plane(b, channel(bg, c), c), w, h);
    }
    assert forall|x: int, y: int, c: int| 0 <= x < w && 0 <= y < h && 0 <= c < 4 implies #[trigger] glow_value(a, w, h, bg, x, y, c)
        == glow_value(b, w, h, bg, x, y, c) by {
        assert(a(x, y, c) == b(x, y, c));
        if c < 3 {
            assert(agree(bloom(excess_plane(a, channel(bg, c), c), w, h), bloom(excess_plane(b, channel(bg, c), c), w, h), w, h));
        }
    }
}

fn zero_plane(n: usize) -> (v: Vec<u16>)
    ensures
        v@.len() == n,
{
    let mut v: Vec<u16> = Vec::with_capacity(n);
    let mut i: usize = 0;
    while i < n
        invariant
            i <= n,
            v@.len() == i,
        decreases n - i,
    {
        v.push(0);
        i += 1;
    }
    v
}

/// Channel `c` of pixel number `q` of a packed buffer, as its excess over the
/// background value `bgv`.
pub open spec fn excess_at(p: Seq<u8>, q: int, c: int, bgv: u8) -> int {
    if p[q * 4 + c] >= bgv { p[q * 4 + c] - bgv } else { 0 }
}

/// A row-major plane of excesses is the excess plane of the image.
proof fn lemma_excess_grid(v: Seq<u16>, p: Seq<u8>, w: int, h: int, c: int, bgv: u8)
    requires
        v.len() == w * h,
        forall|q: int| 0 <= q < v.len() ==> #[trigger] v[q] as int == excess_at(p, q, c, bgv),
    ensures
        agree(plane_of(v, w), excess_plane(buffer_image(p, w), bgv, c), w, h),
{
    assert forall|x: int, y: int| 0 <= x < w && 0 <= y < h implies #[trigger] plane_of(v, w)(x, y)
        == excess_plane(buffer_image(p, w), bgv, c)(x, y) by {
        crate::frame::lemma_index_in_grid(x, y, w, h);
        assert(v[y * w + x] as int == excess_at(p, y * w + x, c, bgv));
    }
}

/// Channel `c` of every pixel as its excess over the background value `bgv`.
fn excess_channel(buf: &PixelBuffer, bgv: u8, c: usize) -> (v: Vec<u16>)
    requires
        buf.wf(),
        c < 3,
    ensures
        v@.len() == buf.width * buf.height,
        agree(
            plane_of(v@, buf.width as int),
            excess_plane(buffer_image(buf.pixels@, buf.width as int), bgv, c as int),
            buf.width as int,
            buf.height as int,
        ),
{
    let len = buf.pixels.len();
    let n = len / 4;
    let mut v: Vec<u16> = Vec::with_capacity(n);
    let mut q: usize = 0;
    while q < n
        invariant
            len == buf.pixels@.len(),
            n == len / 4,
            c < 3,
            q <= n,
            v@.len() == q,
            forall|j: int| 0 <= j < q ==> #[trigger] v@[j] as int == excess_at(buf.pixels@, j, c as int, bgv),
        decreases n - q,
    {
        let e = buf.pixels[q * 4 + c].saturating_sub(bgv) as u16;
        v.push(e);
        q += 1;
    }
    proof {
        lemma_excess_grid(v@, buf.pixels@, buf.width as int, buf.height as int, c as int, bgv);
    }
    v
}

/// The colour byte `v` with 45% of the halo `e` added, saturating at 255.
pub open spec fn halo_add(v: u8, e: int) -> u8 {
    let s = v + e * 45 / 100;
    if s > 255 { 255 } else { s as u8 }
}

/// The halo plane for colour channel `c`.
pub open spec fn halo_plane(hr: Seq<u16>, hg: Seq<u16>, hb: Seq<u16>, c: int) -> Seq<u16> {
    if c == 0 { hr } else if c == 1 { hg } else { hb }
}

/// Add 45% of the halo planes to the colour channels of every pixel.
fn add_halo(buf: &mut PixelBuffer, hr: &Vec<u16>, hg: &Vec<u16>, hb: &Vec<u16>)
    requires
        old(buf).wf(),
        hr@.len() * 4 == old(buf).pixels@.len(),
        hg@.len() * 4 == old(buf).pixels@.len(),
        hb@.len() * 4 == old(buf).pixels@.len(),
    ensures
        final(buf).width == old(buf).width,
        final(buf).height == old(buf).height,
        final(buf).pixels@.len() == old(buf).pixels@.len(),
        forall|q: int, c: int| 0 <= q < hr@.len() && 0 <= c < 4 ==> #[trigger] final(buf).pixels@[q * 4 + c]
            == if c == 3 {
                old(buf).pixels@[q * 4 + c]
            } else {
                halo_add(old(buf).pixels@[q * 4 + c], halo_plane(hr@, hg@, hb@, c)[q] as int)
            },
{
    let ghost p0 = buf.pixels@;
    let len = buf.pixels.len();
    let n = hr.len();
    let mut q: usize = 0;
    while q < n
        invariant
            len == p0.len(),
            buf.width == old(buf).width,
            buf.height == old(buf).height,
            p0 == old(buf).pixels@,
            buf.pixels@.len() == p0.len(),
            n == hr@.len(),
            hr@.len() * 4 == p0.len(),
            hg@.len() * 4 == p0.len(),
            hb@.len() * 4 == p0.len(),
            q <= n,
            forall|j: int, c: int| 0 <= j < n && 0 <= c < 4 ==> #[trigger] buf.pixels@[j * 4 + c]
                == if j < q && c < 3 {
                    halo_add(p0[j * 4 + c], halo_plane(hr@, hg@, hb@, c)[j] as int)
                } else {
                    p0[j * 4 + c]
                },
        decreases n - q,
    {
        let off = q * 4;
        let r = buf.pixels[off] as u32 + hr[q] as u32 * 45 / 100;
        let g = buf.pixels[off + 1] as u32 + hg[q] as u32 * 45 / 100;
        let b = buf.pixels[off + 2] as u32 + hb[q] as u32 * 45 / 100;
        buf.pixels.set(off, if r > 255 { 255 } else { r as u8 });
        buf.pixels.set(off + 1, if g > 255 { 255 } else { g as u8 });
        buf.pixels.set(off + 2, if b > 255 { 255 } else { b as u8 });
        proof {
            assert forall|j: int, c: int| 0 <= j < n && 0 <= c < 4 implies #[trigger] buf.pixels@[j * 4 + c]
                == if j < q + 1 && c < 3 {
                    halo_add(p0[j * 4 + c], halo_plane(hr@, hg@, hb@, c)[j] as int)
                } else {
                    p0[j * 4 + c]
                } by {
                if j != q {
                    assert(j * 4 + c != off && j * 4 + c != off + 1 && j * 4 + c != off + 2);
                }
            }
        }
        q += 1;
    }
}

/// A byte of the glowing buffer, read back by pixel coordinates.
proof fn lemma_glow_grid(p: Seq<u8>, p0: Seq<u8>, hr: Seq<u16>, hg: Seq<u16>, hb: Seq<u16>, w: int, h: int, bg: RgbColor)
    requires
        p0.len() == w * h * 4,
        hr.len() == w * h,
        forall|q: int, c: int| 0 <= q < hr.len() && 0 <= c < 4 ==> #[trigger] p[q * 4 + c]
            == if c == 3 { p0[q * 4 + c] } else { halo_add(p0[q * 4 + c], halo_plane(hr, hg, hb, c)[q] as int) },
        agree(plane_of(hr, w), bloom(excess_plane(buffer_image(p0, w), bg.r, 0), w, h), w, h),
        agree(plane_of(hg, w), bloom(excess_plane(buffer_image(p0, w), bg.g, 1), w, h), w, h),
        agree(plane_of(hb, w), bloom(excess_plane(buffer_image(p0, w), bg.b, 2), w, h), w, h),
    ensures
        forall|x: int, y: int, c: int| 0 <= x < w && 0 <= y < h && 0 <= c < 4 ==> #[trigger] pix(p, w, x, y, c)
            == glow_value(buffer_image(p0, w), w, h, bg, x, y, c),
{
    let img = buffer_image(p0, w);
    assert forall|x: int, y: int, c: int| 0 <= x < w && 0 <= y < h && 0 <= c < 4 implies #[trigger] pix(p, w, x, y, c)
        == glow_value(img, w, h, bg, x, y, c) by {
        crate::frame::lemma_index_in_grid(x, y, w, h);
        let q = y * w + x;
        assert(p[q * 4 + c] == if c == 3 { p0[q * 4 + c] } else { halo_add(p0[q * 4 + c], halo_plane(hr, hg, hb, c)[q] as int) });
        if c == 0 {
            assert(plane_of(hr, w)(x, y) == bloom(excess_plane(img, bg.r, 0), w, h)(x, y));
        } else if c == 1 {
            assert(plane_of(hg, w)(x, y) == bloom(excess_plane(img, bg.g, 1), w, h)(x, y));
        } else if c == 2 {
            assert(plane_of(hb, w)(x, y) == bloom(excess_plane(img, bg.b, 2), w, h)(x, y));
        }
    }
}

/// Additive bloom: blur each colour channel's excess over the background
/// (three separable radius-3 box-blur rounds) and add 45% of it back.
pub fn apply_glow(buf: &mut PixelBuffer, bg: RgbColor)
    requires
        old(buf).wf(),
    ensures
        final(buf).wf(),
        final(buf).width == old(buf).width,
        final(buf).height == old(buf).height,
        forall|x: int, y: int, c: int|
            0 <= x < old(buf).width && 0 <= y < old(buf).height && 0 <= c < 4 ==> #[trigger] pix(
                final(buf).pixels@,
                old(buf).width as int,
                x,
                y,
                c,
            ) == glow_value(
                buffer_image(old(buf).pixels@, old(buf).width as int),
                old(buf).width as int,
                old(buf).height as int,
                bg,
                x,
                y,
                c,
            ),
{
    let ghost p0 = buf.pixels@;
    let ghost img = buffer_image(p0, buf.width as int);
    let ghost wi = buf.width as int;
    let ghost hi = buf.height as int;
    let len = buf.pixels.len();
    if buf.width == 0 || buf.height == 0 {
        return;
    }
    let w = buf.width as usize;
    let h = buf.height as usize;
    proof {
        assert(w * h + 8 <= usize::MAX) by (nonlinear_arith)
            requires
                len == w * h * 4,
                1 <= w,
                1 <= h,
                len <= usize::MAX,
        ;
    }
    let mut ch_r = excess_channel(buf, bg.r, 0);
    let mut ch_g = excess_channel(buf, bg.g, 1);
    let mut ch_b = excess_channel(buf, bg.b, 2);
    let ghost (r0, g0, b0) = (ch_r@, ch_g@, ch_b@);
    let mut tmp = zero_plane(w * h);
    bloom_plane(&mut ch_r, &mut tmp, w, h);
    bloom_plane(&mut ch_g, &mut tmp, w, h);
    bloom_plane(&mut ch_b, &mut tmp, w, h);
    let ghost ex_r = excess_plane(img, bg.r, 0);
    let ghost ex_g = excess_plane(img, bg.g, 1);
    let ghost ex_b = excess_plane(img, bg.b, 2);
    proof {
        lemma_bloom_ext(plane_of(r0, wi), ex_r, wi, hi);
        lemma_bloom_ext(plane_of(g0, wi), ex_g, wi, hi);
        lemma_bloom_ext(plane_of(b0, wi), ex_b, wi, hi);
        crate::bloom::lemma_agree_trans(plane_of(ch_r@, wi), bloom(plane_of(r0, wi), wi, hi), bloom(ex_r, wi, hi), wi, hi);
        crate::bloom::lemma_agree_trans(plane_of(ch_g@, wi), bloom(plane_of(g0, wi), wi, hi), bloom(ex_g, wi, hi), wi, hi);
        crate::bloom::lemma_agree_trans(plane_of(ch_b@, wi), bloom(plane_of(b0, wi), wi, hi), bloom(ex_b, wi, hi), wi, hi);
    }
    add_halo(buf, &ch_r, &ch_g, &ch_b);
    proof {
        lemma_glow_grid(buf.pixels@, p0, ch_r@, ch_g@, ch_b@, wi, hi, bg);
    }
}

} // verus!

verus! {

/// Every pixel of `p` shows the cells drawn before `(col_lim, row_lim)`.
pub open spec fn raster_state(
    p: Seq<u8>,
    w: int,
    h: int,
    frame: Frame,
    opts: RenderOptions,
    col_lim: int,
    row_lim: int,
) -> bool {
    forall|x: int, y: int, c: int| 0 <= x < w && 0 <= y < h && 0 <= c < 4 ==> #[trigger] pix(p, w, x, y, c)
        == channel(raster_color_upto(frame, opts, col_lim, row_lim, x, y), c)
}

/// `col * cw + cw <= width * cw` for a column inside the grid.
proof fn lemma_cell_span(col: int, width: int, cw: int)
    requires
        0 <= col < width,
        1 <= cw,
    ensures
        0 <= col * cw,
        col * cw + cw <= width * cw,
        width <= width * cw,
{
    assert(0 <= col * cw && col * cw + cw <= width * cw && width <= width * cw) by (nonlinear_arith)
        requires
            0 <= col < width,
            1 <= cw,
    ;
}

/// Draw cell `(col, row)` of `frame` into `buf`.
fn draw_cell(buf: &mut PixelBuffer, frame: &Frame, opts: &RenderOptions, col: usize, row: usize, cw: u32, chh: u32)
    requires
        old(buf).wf(),
        frame.wf(),
        col < frame.width,
        row < frame.height,
        cw == at_least_one(opts.cell_w),
        chh == at_least_one(opts.cell_h),
        cw <= 0x1FFF_FFFF,
        chh <= 0x0FFF_FFFF,
        old(buf).width == frame.width * cw,
        old(buf).height == frame.height * chh,
        old(buf).width * old(buf).height <= u32::MAX,
        raster_state(old(buf).pixels@, old(buf).width as int, old(buf).height as int, *frame, *opts, col as int, row as int),
    ensures
        final(buf).wf(),
        final(buf).width == old(buf).width,
        final(buf).height == old(buf).height,
        raster_state(final(buf).pixels@, old(buf).width as int, old(buf).height as int, *frame, *opts, col + 1, row as int),
{
    let ghost w = buf.width as int;
    let ghost h = buf.height as int;
    let ghost before = buf.pixels@;
    proof {
        lemma_cell_span(col as int, frame.width as int, cw as int);
        lemma_cell_span(row as int, frame.height as int, chh as int);
        crate::frame::lemma_index_in_grid(col as int, row as int, frame.width as int, frame.height as int);
    }
    let n = frame.cells.len();
    let cell = frame.cells[row * frame.width + col];
    let x0 = (col as u32) * cw;
    let y0 = (row as u32) * chh;
    if cell.ch != ' ' {
        let color = match cell.color {
            Some(c) => c,
            None => opts.theme.text,
        };
        blit_glyph(buf, cell.ch, x0, y0, cw, chh, color);
    }
    proof {
        assert forall|x: int, y: int, c: int| 0 <= x < w && 0 <= y < h && 0 <= c < 4 implies #[trigger] pix(buf.pixels@, w, x, y, c)
            == channel(raster_color_upto(*frame, *opts, col + 1, row as int, x, y), c) by {
            lemma_cell_of(x, cw as int, col as int);
            lemma_cell_of(y, chh as int, row as int);
            assert(pix(before, w, x, y, c) == channel(raster_color_upto(*frame, *opts, col as int, row as int, x, y), c));
        }
    }
}

/// Width of the rendered buffer: the grid width times the cell width, at
/// least 1.
pub open spec fn render_width(frame: Frame, opts: RenderOptions) -> int {
    let v = frame.width * at_least_one(opts.cell_w);
    if v < 1 { 1 } else { v }
}

/// Height of the rendered buffer: the grid height times the cell height, at
/// least 1.
pub open spec fn render_height(frame: Frame, opts: RenderOptions) -> int {
    let v = frame.height * at_least_one(opts.cell_h);
    if v < 1 { 1 } else { v }
}

/// An image after the glow pass.
pub open spec fn glow_image(img: Image, w: int, h: int, bg: RgbColor) -> Image {
    |x: int, y: int, c: int| glow_value(img, w, h, bg, x, y, c)
}

/// An image after the scanline pass.
pub open spec fn scan_image(img: Image) -> Image {
    |x: int, y: int, c: int| scan_byte(img(x, y, c), y, c)
}

/// The rendered image: glyphs over the background, then the glow (if set),
/// then the scanlines (if set).
pub open spec fn render_image(frame: Frame, opts: RenderOptions) -> Image {
    let base = raster_image(frame, opts);
    let lit = if opts.glow {
        glow_image(base, render_width(frame, opts), render_height(frame, opts), opts.theme.background)
    } else {
        base
    };
    if opts.scanlines { scan_image(lit) } else { lit }
}

/// Finishing a row of cells is starting the next.
proof fn lemma_row_done(frame: Frame, opts: RenderOptions, row: int, x: int, y: int)
    requires
        0 <= x,
        0 <= y,
    ensures
        raster_color_upto(frame, opts, frame.width as int, row, x, y) == raster_color_upto(frame, opts, 0, row + 1, x, y),
{
    let cw = at_least_one(opts.cell_w);
    assert(x / cw >= 0) by (nonlinear_arith)
        requires
            0 <= x,
            1 <= cw,
    ;
}

/// Rasterise `frame` into a fresh buffer: the theme background, each
/// non-blank cell's glyph in its colour (or the theme's text colour), then the
/// glow and the scanlines when their flags are set. The buffer is always at
/// least 1 × 1.
pub fn render(frame: &Frame, opts: &RenderOptions) -> (b: PixelBuffer)
    requires
        frame.wf(),
        opts.cell_w <= 0x1FFF_FFFF,
        opts.cell_h <= 0x0FFF_FFFF,
        frame.width * at_least_one(opts.cell_w) <= u32::MAX,
        frame.height * at_least_one(opts.cell_h) <= u32::MAX,
        render_width(*frame, *opts) * render_height(*frame, *opts) <= u32::MAX,
        render_width(*frame, *opts) * render_height(*frame, *opts) * 4 <= usize::MAX,
    ensures
        b.wf(),
        b.width == render_width(*frame, *opts),
        b.height == render_height(*frame, *opts),
        forall|x: int, y: int, c: int| 0 <= x < b.width && 0 <= y < b.height && 0 <= c < 4 ==> #[trigger] pix(b.pixels@, b.width as int, x, y, c)
            == render_image(*frame, *opts)(x, y, c),
{
    let cw: u32 = if opts.cell_w < 1 { 1 } else { opts.cell_w };
    let chh: u32 = if opts.cell_h < 1 { 1 } else { opts.cell_h };
    proof {
        assert(frame.width <= frame.width * cw) by (nonlinear_arith)
            requires
                1 <= cw,
        ;
        assert(frame.height <= frame.height * chh) by (nonlinear_arith)
            requires
                1 <= chh,
        ;
    }
    let gw = (frame.width as u32) * cw;
    let gh = (frame.height as u32) * chh;
    let w: u32 = if gw < 1 { 1 } else { gw };
    let h: u32 = if gh < 1 { 1 } else { gh };
    let ghost wi = w as int;
    let ghost hi = h as int;
    let mut buf = PixelBuffer::new(w, h);
    buf.fill(opts.theme.background);
    let mut row: usize = 0;
    while row < frame.height
        invariant
            buf.wf(),
            buf.width == w,
            buf.height == h,
            frame.wf(),
            cw == at_least_one(opts.cell_w),
            chh == at_least_one(opts.cell_h),
            cw <= 0x1FFF_FFFF,
            chh <= 0x0FFF_FFFF,
            w == render_width(*frame, *opts),
            h == render_height(*frame, *opts),
            w * h <= u32::MAX,
            frame.width >= 1 ==> w == frame.width * cw,
            frame.height >= 1 ==> h == frame.height * chh,
            wi == w,
            hi == h,
            row <= frame.height,
            raster_state(buf.pixels@, wi, hi, *frame, *opts, 0, row as int),
        decreases frame.height - row,
    {
        let mut col: usize = 0;
        while col < frame.width
            invariant
                buf.wf(),
                buf.width == w,
                buf.height == h,
                frame.wf(),
                cw == at_least_one(opts.cell_w),
                chh == at_least_one(opts.cell_h),
                cw <= 0x1FFF_FFFF,
                chh <= 0x0FFF_FFFF,
                w == render_width(*frame, *opts),
                h == render_height(*frame, *opts),
                w * h <= u32::MAX,
                frame.width >= 1 ==> w == frame.width * cw,
                h == frame.height * chh,
                row < frame.height,
                wi == w,
                hi == h,
                col <= frame.width,
                raster_state(buf.pixels@, wi, hi, *frame, *opts, col as int, row as int),
            decreases frame.width - col,
        {
            draw_cell(&mut buf, frame, opts, col, row, cw, chh);
            col += 1;
        }
        proof {
            assert forall|x: int, y: int, c: int| 0 <= x < wi && 0 <= y < hi && 0 <= c < 4 implies #[trigger] pix(buf.pixels@, wi, x, y, c)
                == channel(raster_color_upto(*frame, *opts, 0, row + 1, x, y), c) by {
                lemma_row_done(*frame, *opts, row as int, x, y);
            }
        }
        row += 1;
    }
    let ghost base = raster_image(*frame, *opts);
    let ghost lit = if opts.glow { glow_image(base, wi, hi, opts.theme.background) } else { base };
    assert(images_agree(buffer_image(buf.pixels@, wi), base, wi, hi));
    if opts.glow {
        let ghost p1 = buf.pixels@;
        apply_glow(&mut buf, opts.theme.background);
        proof {
            lemma_glow_ext(buffer_image(p1, wi), base, wi, hi, opts.theme.background);
        }
    }
    assert(images_agree(buffer_image(buf.pixels@, wi), lit, wi, hi));
    if opts.scanlines {
        let ghost p2 = buf.pixels@;
        apply_scanlines(&mut buf);
        proof {
            assert forall|x: int, y: int, c: int| 0 <= x < wi && 0 <= y < hi && 0 <= c < 4 implies #[trigger] pix(buf.pixels@, wi, x, y, c)
                == scan_image(lit)(x, y, c) by {
                assert(pix(p2, wi, x, y, c) == lit(x, y, c));
            }
        }
    }
    buf
}

/// Every cell of the frame is a space.
pub open spec fn frame_is_blank(frame: Frame) -> bool {
    forall|i: int| 0 <= i < frame.cells@.len() ==> (#[trigger] frame.cells@[i]).ch == ' '
}

/// Before any effect, a blank frame rasterises to the theme background.
proof fn lemma_blank_raster(frame: Frame, opts: RenderOptions, x: int, y: int)
    requires
        frame.wf(),
        frame_is_blank(frame),
        0 <= x < render_width(frame, opts),
        0 <= y < render_height(frame, opts),
    ensures
        raster_color_upto(frame, opts, 0, frame.height as int, x, y) == opts.theme.background,
{
    let cw = at_least_one(opts.cell_w);
    let chh = at_least_one(opts.cell_h);
    let col = x / cw;
    let row = y / chh;
    if col < frame.width && row < frame.height {
        assert(0 <= col && 0 <= row) by (nonlinear_arith)
            requires
                0 <= x,
                0 <= y,
                1 <= cw,
                1 <= chh,
                col == x / cw,
                row == y / chh,
        ;
        crate::frame::lemma_index_in_grid(col, row, frame.width as int, frame.height as int);
        assert(frame.cells@[row * frame.width + col].ch == ' ');
    }
}

/// A blank frame renders as the theme background on every pixel, with or
/// without the glow; the scanlines, when set, only dim the odd rows of it.
pub proof fn lemma_blank_frame_renders_background(frame: Frame, opts: RenderOptions, x: int, y: int, c: int)
    requires
        frame.wf(),
        frame_is_blank(frame),
        0 <= x < render_width(frame, opts),
        0 <= y < render_height(frame, opts),
        0 <= c < 4,
    ensures
        render_image(frame, opts)(x, y, c) == if opts.scanlines {
            scan_byte(channel(opts.theme.background, c), y, c)
        } else {
            channel(opts.theme.background, c)
        },
{
    let w = render_width(frame, opts);
    let h = render_height(frame, opts);
    let bg = opts.theme.background;
    let base = raster_image(frame, opts);
    lemma_blank_raster(frame, opts, x, y);
    if opts.glow && c < 3 {
        let ex = excess_plane(base, channel(bg, c), c);
        assert(agree(ex, crate::bloom::zero_plane(), w, h)) by {
            assert forall|x2: int, y2: int| 0 <= x2 < w && 0 <= y2 < h implies #[trigger] ex(x2, y2)
                == crate::bloom::zero_plane()(x2, y2) by {
                lemma_blank_raster(frame, opts, x2, y2);
            }
        }
        lemma_bloom_ext(ex, crate::bloom::zero_plane(), w, h);
        crate::bloom::lemma_bloom_zero(w, h);
        assert(bloom(ex, w, h)(x, y) == 0);
    }
}

} // verus!

verus! {

/// The glow never darkens: with every other option the same, each byte of
/// the image rendered with the glow is at least the byte rendered without it.
pub proof fn lemma_glow_only_brightens(frame: Frame, with: RenderOptions, without: RenderOptions, x: int, y: int, c: int)
    requires
        with.glow,
        !without.glow,
        with.cell_w == without.cell_w,
        with.cell_h == without.cell_h,
        with.theme == without.theme,
        with.scanlines == without.scanlines,
        0 <= c < 4,
    ensures
        render_image(frame, with)(x, y, c) >= render_image(frame, without)(x, y, c),
{
    let base = raster_image(frame, with);
    assert(base == raster_image(frame, without));
    let w = render_width(frame, with);
    let h = render_height(frame, with);
    let v = base(x, y, c);
    let g = glow_value(base, w, h, with.theme.background, x, y, c);
    if c < 3 {
        let ex = excess_plane(base, channel(with.theme.background, c), c);
        assert forall|a: int, b: int| #[trigger] ex(a, b) >= 0 by {}
        crate::bloom::lemma_bloom_nonneg(ex, w, h);
        assert(bloom(ex, w, h)(x, y) >= 0);
        assert(g >= v) by (nonlinear_arith)
            requires
                g == halo_add(v, bloom(ex, w, h)(x, y)),
                bloom(ex, w, h)(x, y) >= 0,
        ;
    }
    if with.scanlines {
        assert(scan_byte(g, y, c) >= scan_byte(v, y, c)) by (nonlinear_arith)
            requires
                g >= v,
        ;
    }
}

/// The scanlines touch only odd pixel rows: with every other option the
/// same, a colour byte of an odd row becomes `v * 82 / 100` of the byte `v`
/// rendered without them; even rows and alpha are unchanged, and alpha is
/// always opaque.
pub proof fn lemma_scanlines_dim_odd_rows(frame: Frame, with: RenderOptions, without: RenderOptions, x: int, y: int, c: int)
    requires
        with.scanlines,
        !without.scanlines,
        with.cell_w == without.cell_w,
        with.cell_h == without.cell_h,
        with.theme == without.theme,
        with.glow == without.glow,
        0 <= c < 4,
    ensures
        y % 2 == 1 && c < 3 ==> render_image(frame, with)(x, y, c) as int
            == render_image(frame, without)(x, y, c) as int * 82 / 100,
        !(y % 2 == 1 && c < 3) ==> render_image(frame, with)(x, y, c) == render_image(frame, without)(x, y, c),
        render_image(frame, with)(x, y, 3) == 255,
        render_image(frame, without)(x, y, 3) == 255,
{
    assert(raster_image(frame, with) == raster_image(frame, without));
    let v = render_image(frame, without)(x, y, c);
    assert(v as int * 82 / 100 <= 255) by (nonlinear_arith)
        requires
            0 <= v <= 255,
    ;
}

} // verus!
