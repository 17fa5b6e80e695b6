//! The clock: the time as big block digits (3 × 5 cells per digit, 1 × 5
//! per colon, one blank column between glyphs), scaled and centred on the
//! grid.

use vstd::prelude::*;
use crate::frame::{Cell, Frame, blank_cell, lemma_index_in_grid};
use crate::life::lemma_join_index;
use crate::text::{decimal_spec, push_char, push_decimal, push_str};
use vstd::string::StrSliceExecFns;

verus! {

/// Rows of a glyph are 5 tall.
pub const GLYPH_HEIGHT: usize = 5;

/// Row `r` of the block glyph for character `c`: the digits, the colon, and
/// three blanks for anything else.
pub open spec fn glyph_row(c: char, r: int) -> Seq<char> {
    let rows: Seq<Seq<char>> = if c == ':' {
        seq![" "@, "#"@, " "@, "#"@, " "@]
    } else if c == '0' {
        seq!["###"@, "# #"@, "# #"@, "# #"@, "###"@]
    } else if c == '1' {
        seq![" # "@, "## "@, " # "@, " # "@, "###"@]
    } else if c == '2' {
        seq!["###"@, "  #"@, "###"@, "#  "@, "###"@]
    } else if c == '3' {
        seq!["###"@, "  #"@, "###"@, "  #"@, "###"@]
    } else if c == '4' {
        seq!["# #"@, "# #"@, "###"@, "  #"@, "  #"@]
    } else if c == '5' {
        seq!["###"@, "#  "@, "###"@, "  #"@, "###"@]
    } else if c == '6' {
        seq!["###"@, "#  "@, "###"@, "# #"@, "###"@]
    } else if c == '7' {
        seq!["###"@, "  #"@, "  #"@, "  #"@, "  #"@]
    } else if c == '8' {
        seq!["###"@, "# #"@, "###"@, "# #"@, "###"@]
    } else if c == '9' {
        seq!["###"@, "# #"@, "###"@, "  #"@, "###"@]
    } else {
        seq!["   "@, "   "@, "   "@, "   "@, "   "@]
    };
    rows[r]
}

/// Row `r` of the bitmap of `text`: the glyph rows joined by one blank.
pub open spec fn bitmap_row(text: Seq<char>, r: int) -> Seq<char>
    decreases text.len(),
{
    if text.len() == 0 {
        Seq::empty()
    } else if text.len() == 1 {
        glyph_row(text[0], r)
    } else {
        bitmap_row(text.drop_last(), r) + seq![' '] + glyph_row(text.last(), r)
    }
}

/// Row `r` of the glyph for `c`.
fn glyph_text(c: char, r: usize) -> (s: &'static str)
    requires
        r < 5,
    ensures
        s@ == glyph_row(c, r as int),
{
    let rows: [&'static str; 5] = if c == ':' {
        [" ", "#", " ", "#", " "]
    } else if c == '0' {
        ["###", "# #", "# #", "# #", "###"]
    } else if c == '1' {
        [" # ", "## ", " # ", " # ", "###"]
    } else if c == '2' {
        ["###", "  #", "###", "#  ", "###"]
    } else if c == '3' {
        ["###", "  #", "###", "  #", "###"]
    } else if c == '4' {
        ["# #", "# #", "###", "  #", "  #"]
    } else if c == '5' {
        ["###", "#  ", "###", "  #", "###"]
    } else if c == '6' {
        ["###", "#  ", "###", "# #", "###"]
    } else if c == '7' {
        ["###", "  #", "  #", "  #", "  #"]
    } else if c == '8' {
        ["###", "# #", "###", "# #", "###"]
    } else if c == '9' {
        ["###", "# #", "###", "  #", "###"]
    } else {
        ["   ", "   ", "   ", "   ", "   "]
    };
    rows[r]
}

/// The five rows of the block bitmap of `text`.
pub fn build_bitmap(text: &str) -> (rows: Vec<String>)
    ensures
        rows@.len() == 5,
        forall|r: int| 0 <= r < 5 ==> #[trigger] rows@[r]@ == bitmap_row(text@, r),
{
    let n = text.unicode_len();
    let mut rows: Vec<String> = Vec::new();
    let mut r: usize = 0;
    while r < 5
        invariant
            n == text@.len(),
            r <= 5,
            rows@.len() == r,
            forall|q: int| 0 <= q < r ==> #[trigger] rows@[q]@ == bitmap_row(text@, q),
        decreases 5 - r,
    {
        let mut row = String::new();
        let mut k: usize = 0;
        while k < n
            invariant
                n == text@.len(),
                r < 5,
                k <= n,
                row@ == bitmap_row(text@.take(k as int), r as int),
            decreases n - k,
        {
            let c = text.get_char(k);
            if k > 0 {
                push_char(&mut row, ' ');
            }
            push_str(&mut row, glyph_text(c, r));
            proof {
                assert(text@.take(k + 1).drop_last() =~= text@.take(k as int));
                assert(text@.take(k + 1).last() == c);
                if k == 0 {
                    assert(text@.take(0) =~= Seq::<char>::empty());
                    assert(row@ =~= glyph_row(c, r as int));
                }
            }
            k += 1;
        }
        proof {
            assert(text@.take(n as int) =~= text@);
        }
        rows.push(row);
        r += 1;
    }
    rows
}

/// `n` as at least two decimal digits.
pub open spec fn pad2(n: nat) -> Seq<char> {
    if n < 10 { seq!['0'] + decimal_spec(n) } else { decimal_spec(n) }
}

/// The clock text: `HH:MM:SS`, or `HH:MM` without seconds.
pub open spec fn time_text_spec(hh: u32, mm: u32, ss: u32, seconds: bool) -> Seq<char> {
    let base = pad2(hh as nat) + seq![':'] + pad2(mm as nat);
    if seconds { base + seq![':'] + pad2(ss as nat) } else { base }
}

fn push_pad2(s: &mut String, n: u32)
    ensures
        final(s)@ == old(s)@ + pad2(n as nat),
{
    if n < 10 {
        push_char(s, '0');
    }
    push_decimal(s, n as u64);
}

/// The clock text for a time.
pub fn time_text(hh: u32, mm: u32, ss: u32, seconds: bool) -> (s: String)
    ensures
        s@ == time_text_spec(hh, mm, ss, seconds),
{
    let mut s = String::new();
    push_pad2(&mut s, hh);
    push_char(&mut s, ':');
    push_pad2(&mut s, mm);
    if seconds {
        push_char(&mut s, ':');
        push_pad2(&mut s, ss);
    }
    s
}

/// `v / 2` rounded toward zero.
pub open spec fn half_toward_zero(v: int) -> int {
    if v >= 0 { v / 2 } else { -((-v) / 2) }
}

/// Whether cell `(x, y)` of a `w × h` grid shows a block: the bitmap,
/// each pixel blown up to `scale × scale` cells, is centred on the grid.
pub open spec fn clock_lit(rows: Seq<Seq<char>>, w: int, h: int, scale: int, x: int, y: int) -> bool {
    let bw = rows[0].len() as int;
    let off_x = half_toward_zero(w - bw * scale);
    let off_y = half_toward_zero(h - 5 * scale);
    let (gx, gy) = (x - off_x, y - off_y);
    &&& 0 <= gx < bw * scale
    &&& 0 <= gy < 5 * scale
    &&& gx / scale < rows[gy / scale].len()
    &&& rows[gy / scale][gx / scale] == '#'
}

/// The bitmap rows as character sequences.
pub open spec fn bitmap_view(rows: Seq<String>) -> Seq<Seq<char>> {
    Seq::new(rows.len(), |i: int| rows[i]@)
}

/// The cell that the clock shows at `(x, y)`.
pub open spec fn clock_cell(rows: Seq<Seq<char>>, w: int, h: int, scale: int, x: int, y: int) -> Cell {
    if clock_lit(rows, w, h, scale, x, y) {
        Cell { ch: '█', color: None }
    } else {
        blank_cell()
    }
}

/// The characters of `s`, one by one.
fn chars_of(s: &str) -> (v: Vec<char>)
    ensures
        v@ == s@,
{
    let n = s.unicode_len();
    let mut v: Vec<char> = Vec::new();
    let mut k: usize = 0;
    while k < n
        invariant
            n == s@.len(),
            k <= n,
            v@ == s@.take(k as int),
        decreases n - k,
    {
        v.push(s.get_char(k));
        proof {
            assert(s@.take(k + 1) =~= s@.take(k as int).push(s@[k as int]));
        }
        k += 1;
    }
    proof {
        assert(s@.take(n as int) =~= s@);
    }
    v
}

/// `v / 2` rounded toward zero, as Rust's signed division does.
fn half_toward_zero_exec(v: i128) -> (r: i128)
    requires
        v > i128::MIN,
    ensures
        r == half_toward_zero(v as int),
{
    if v >= 0 {
        v / 2
    } else {
        -((-v) / 2)
    }
}

/// Draws the block bitmap `rows` (five rows of `#` and blanks), each pixel
/// blown up to `scale × scale` cells, centred on a `w × h` frame: lit cells
/// are `█` with no colour, so the host paints them in the theme colour.
pub fn draw_clock(w: usize, h: usize, rows: &Vec<String>, scale: usize) -> (f: Frame)
    requires
        rows@.len() == GLYPH_HEIGHT,
        scale >= 1,
        w * h <= usize::MAX,
        w <= isize::MAX,
        h <= isize::MAX,
        rows@[0]@.len() * scale <= isize::MAX,
        5 * scale <= isize::MAX,
    ensures
        f.wf(),
        f.width == w,
        f.height == h,
        forall|x: int, y: int| 0 <= x < w && 0 <= y < h ==> #[trigger] f.cells@[y * w + x]
            == clock_cell(bitmap_view(rows@), w as int, h as int, scale as int, x, y),
{
    let ghost view = bitmap_view(rows@);
    let mut bmp: Vec<Vec<char>> = Vec::new();
    let mut r: usize = 0;
    while r < GLYPH_HEIGHT
        invariant
            rows@.len() == GLYPH_HEIGHT,
            view == bitmap_view(rows@),
            r <= GLYPH_HEIGHT,
            bmp@.len() == r,
            forall|q: int| 0 <= q < r ==> #[trigger] bmp@[q]@ == view[q],
        decreases GLYPH_HEIGHT - r,
    {
        let row = chars_of(rows[r].as_str());
        bmp.push(row);
        r += 1;
    }
    let bw = bmp[0].len();
    let draw_w = bw * scale;
    let draw_h = 5 * scale;
    let off_x = half_toward_zero_exec(w as i128 - draw_w as i128);
    let off_y = half_toward_zero_exec(h as i128 - draw_h as i128);
    let size = w * h;
    let mut cells: Vec<Cell> = Vec::with_capacity(size);
    let mut i: usize = 0;
    let mut px: usize = 0;
    let mut py: usize = 0;
    while i < size
        invariant
            bmp@.len() == 5,
            forall|q: int| 0 <= q < 5 ==> #[trigger] bmp@[q]@ == view[q],
            view.len() == 5,
            bw == view[0].len(),
            scale >= 1,
            draw_w == bw * scale,
            draw_h == 5 * scale,
            draw_w <= isize::MAX,
            w <= isize::MAX,
            h <= isize::MAX,
            off_x == half_toward_zero(w - draw_w),
            off_y == half_toward_zero(h - draw_h),
            size == w * h,
            i <= size,
            w > 0 ==> px < w,
            i == py * w + px,
            i < size ==> py < h,
            cells@.len() == i,
            forall|j: int| 0 <= j < i ==> #[trigger] cells@[j]
                == clock_cell(view, w as int, h as int, scale as int, j % (w as int), j / (w as int)),
        decreases size - i,
    {
        proof {
            if w == 0 {
                assert(size == 0);
            }
            lemma_join_index(px as int, py as int, w as int);
        }
        let gx = px as i128 - off_x;
        let gy = py as i128 - off_y;
        let mut cell = Cell::blank();
        if 0 <= gx && gx < draw_w as i128 && 0 <= gy && gy < draw_h as i128 {
            let bx = (gx as usize) / scale;
            let by = (gy as usize) / scale;
            proof {
                assert(by < 5) by (nonlinear_arith)
                    requires
                        by == (gy as int) / (scale as int),
                        0 <= gy < 5 * scale,
                        scale >= 1,
                ;
            }
            if bx < bmp[by].len() && bmp[by][bx] == '#' {
                cell = Cell::new('█', None);
            }
        }
        cells.push(cell);
        let ghost (oi, ox, oy) = (i as int, px as int, py as int);
        i += 1;
        if px + 1 == w {
            px = 0;
            py += 1;
        } else {
            px += 1;
        }
        proof {
            assert(i == py * w + px) by (nonlinear_arith)
                requires
                    oi == oy * w + ox,
                    i == oi + 1,
                    (ox + 1 == w && py == oy + 1 && px == 0) || (ox + 1 < w && py == oy && px == ox + 1),
            ;
            if i < size {
                assert(py < h) by (nonlinear_arith)
                    requires
                        i == py * w + px,
                        i < w * h,
                        0 <= px,
                        w >= 1,
                ;
            }
        }
    }
    let f = Frame { width: w, height: h, cells };
    proof {
        assert forall|x: int, y: int| 0 <= x < w && 0 <= y < h implies #[trigger] f.cells@[y * w + x]
            == clock_cell(bitmap_view(rows@), w as int, h as int, scale as int, x, y) by {
            lemma_index_in_grid(x, y, w as int, h as int);
            lemma_join_index(x, y, w as int);
        }
    }
    f
}

/// Seconds since local midnight for `secs` seconds after the epoch (UTC)
/// shifted by `offset` seconds.
pub open spec fn day_seconds(secs: int, offset: int) -> int {
    (secs + offset) % 86_400
}

/// Hour, minute and second of the local wall clock for `secs` seconds after
/// the epoch (UTC) and a local offset of `offset` seconds.
pub fn hms_of(secs: u64, offset: i64) -> (t: (u32, u32, u32))
    requires
        secs <= i64::MAX,
        i64::MIN <= secs + offset <= i64::MAX,
    ensures
        t.0 == day_seconds(secs as int, offset as int) / 3600,
        t.1 == (day_seconds(secs as int, offset as int) % 3600) / 60,
        t.2 == day_seconds(secs as int, offset as int) % 60,
{
    let local: i64 = secs as i64 + offset;
    let day: u64 = if local >= 0 {
        (local as u64) % 86_400
    } else {
        let m: u64 = ((-(local + 1)) as u64) % 86_400;
        proof {
            let k: int = (-(local + 1)) as int / 86_400;
            vstd::arithmetic::div_mod::lemma_fundamental_div_mod(-(local + 1) as int, 86_400);
            vstd::arithmetic::div_mod::lemma_fundamental_div_mod_converse(
                local as int,
                86_400,
                -k - 1,
                86_399 - m,
            );
        }
        86_399 - m
    };
    assert(day == day_seconds(secs as int, offset as int));
    ((day / 3600) as u32, ((day % 3600) / 60) as u32, (day % 60) as u32)
}

} // verus!

verus! {

/// The characters the clock draws: the ten digits and the colon.
pub open spec fn is_clock_char(c: char) -> bool {
    ('0' <= c && c <= '9') || c == ':'
}

/// Different clock characters get different block glyphs: two of them whose
/// five rows all agree are the same character, so a time's bitmap tells
/// which digits it shows.
pub proof fn lemma_glyphs_distinct(c1: char, c2: char)
    requires
        is_clock_char(c1),
        is_clock_char(c2),
        forall|r: int| 0 <= r < 5 ==> #[trigger] glyph_row(c1, r) == glyph_row(c2, r),
    ensures
        c1 == c2,
{
    reveal_strlit(" ");
    reveal_strlit("#");
    reveal_strlit("###");
    reveal_strlit("# #");
    reveal_strlit(" # ");
    reveal_strlit("## ");
    reveal_strlit("  #");
    reveal_strlit("#  ");
    let a0 = glyph_row(c1, 0);
    let a1 = glyph_row(c1, 1);
    let a2 = glyph_row(c1, 2);
    let a3 = glyph_row(c1, 3);
    let a4 = glyph_row(c1, 4);
    assert(a0 == glyph_row(c2, 0));
    assert(a1 == glyph_row(c2, 1));
    assert(a2 == glyph_row(c2, 2));
    assert(a3 == glyph_row(c2, 3));
    assert(a4 == glyph_row(c2, 4));
    assert(a0.len() == glyph_row(c2, 0).len());
    if a0.len() == 3 {
        assert(a0[0] == glyph_row(c2, 0)[0]);
        assert(a1[0] == glyph_row(c2, 1)[0] && a1[1] == glyph_row(c2, 1)[1] && a1[2] == glyph_row(c2, 1)[2]);
        assert(a2[1] == glyph_row(c2, 2)[1]);
        assert(a3[0] == glyph_row(c2, 3)[0]);
        assert(a4[0] == glyph_row(c2, 4)[0]);
    }
}

} // verus!
