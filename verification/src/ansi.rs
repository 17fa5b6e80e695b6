//! Encode a frame as ANSI truecolor escape sequences for an xterm-compatible
//! terminal.

use vstd::prelude::*;
use crate::color::RgbColor;
use crate::frame::{Cell, Frame, row_chars};
use crate::text::{decimal_spec, digit_char, push_char, push_decimal};
use crate::theme::Theme;

verus! {

/// `ESC [ 2 J ESC [ H`: clear the screen and home the cursor.
pub open spec fn clear_home() -> Seq<char> {
    seq!['\x1b', '[', '2', 'J', '\x1b', '[', 'H']
}

/// `ESC [ 0 m`: reset all attributes.
pub open spec fn reset_attrs() -> Seq<char> {
    seq!['\x1b', '[', '0', 'm']
}

/// `ESC [ 38 ; 2 ; R ; G ; B m`: set a truecolor foreground.
pub open spec fn foreground(c: RgbColor) -> Seq<char> {
    seq!['\x1b', '[', '3', '8', ';', '2', ';'] + decimal_spec(c.r as nat) + seq![';']
        + decimal_spec(c.g as nat) + seq![';'] + decimal_spec(c.b as nat) + seq!['m']
}

/// The output for one cell given the colour currently in effect, and the
/// colour in effect afterwards. A space is written bare and forgets the
/// colour; a glyph gets a colour escape only when its colour differs from the
/// one in effect.
pub open spec fn cell_output(cell: Cell, theme: Theme, cur: Option<RgbColor>) -> (Seq<char>, Option<RgbColor>) {
    if cell.ch == ' ' {
        (seq![' '], None)
    } else {
        let color = match cell.color {
            Some(c) => c,
            None => theme.text,
        };
        if cur == Some(color) {
            (seq![cell.ch], cur)
        } else {
            (foreground(color) + seq![cell.ch], Some(color))
        }
    }
}

/// The output for the cells from `(row, col)` on in row-major order, rows
/// separated by CR LF, starting with colour `cur` in effect.
pub open spec fn ansi_from(
    cells: Seq<Cell>,
    w: nat,
    h: nat,
    theme: Theme,
    row: nat,
    col: nat,
    cur: Option<RgbColor>,
) -> Seq<char>
    decreases h - row, w - col,
{
    if row >= h {
        Seq::empty()
    } else if col >= w {
        (if row + 1 < h { seq!['\r', '\n'] } else { Seq::empty() }) + ansi_from(
            cells,
            w,
            h,
            theme,
            row + 1,
            0,
            cur,
        )
    } else {
        let (out, next) = cell_output(cells[(row * w + col) as int], theme, cur);
        out + ansi_from(cells, w, h, theme, row, col + 1, next)
    }
}

/// The whole redraw of `frame`: clear + home, the cells, attribute reset.
pub open spec fn frame_ansi(frame: Frame, theme: Theme) -> Seq<char> {
    clear_home() + ansi_from(frame.cells@, frame.width as nat, frame.height as nat, theme, 0, 0, None)
        + reset_attrs()
}

fn push_foreground(out: &mut String, c: RgbColor)
    ensures
        final(out)@ == old(out)@ + foreground(c),
{
    push_char(out, '\x1b');
    push_char(out, '[');
    push_char(out, '3');
    push_char(out, '8');
    push_char(out, ';');
    push_char(out, '2');
    push_char(out, ';');
    push_decimal(out, c.r as u64);
    push_char(out, ';');
    push_decimal(out, c.g as u64);
    push_char(out, ';');
    push_decimal(out, c.b as u64);
    push_char(out, 'm');
    assert(final(out)@ =~= old(out)@ + foreground(c));
}

/// Encode `frame` as one full-screen ANSI truecolor redraw: clear and home,
/// then every cell row by row (rows joined by CR LF), each run of same-coloured
/// glyphs behind a single foreground escape, spaces bare, and a final reset.
/// A cell without colour is drawn in the theme's text colour.
pub fn frame_to_ansi(frame: &Frame, theme: &Theme) -> (s: String)
    requires
        frame.wf(),
    ensures
        s@ == frame_ansi(*frame, *theme),
{
    let mut buf = String::new();
    push_char(&mut buf, '\x1b');
    push_char(&mut buf, '[');
    push_char(&mut buf, '2');
    push_char(&mut buf, 'J');
    push_char(&mut buf, '\x1b');
    push_char(&mut buf, '[');
    push_char(&mut buf, 'H');
    let ghost w = frame.width as nat;
    let ghost h = frame.height as nat;
    let ghost total = clear_home() + ansi_from(frame.cells@, w, h, *theme, 0, 0, None);
    assert(buf@ =~= clear_home());
    let n = frame.cells.len();
    let mut current: Option<RgbColor> = None;
    let mut row: usize = 0;
    while row < frame.height
        invariant
            frame.wf(),
            n == frame.cells@.len(),
            w == frame.width,
            h == frame.height,
            row <= h,
            buf@ + ansi_from(frame.cells@, w, h, *theme, row as nat, 0, current) == total,
        decreases h - row,
    {
        proof {
            crate::frame::lemma_row_start(row as int, w as int, h as int);
        }
        let mut col: usize = 0;
        while col < frame.width
            invariant
                frame.wf(),
                n == frame.cells@.len(),
                w == frame.width,
                h == frame.height,
                row < h,
                row * w + w <= n,
                col <= w,
                buf@ + ansi_from(frame.cells@, w, h, *theme, row as nat, col as nat, current)
                    == total,
            decreases w - col,
        {
            let cell = frame.cells[row * frame.width + col];
            let ghost before = buf@;
            let ghost cur0 = current;
            if cell.ch == ' ' {
                push_char(&mut buf, ' ');
                current = None;
            } else {
                let color = match cell.color {
                    Some(c) => c,
                    None => theme.text,
                };
                let same = match current {
                    Some(c) => c.r == color.r && c.g == color.g && c.b == color.b,
                    None => false,
                };
                if !same {
                    push_foreground(&mut buf, color);
                    current = Some(color);
                }
                push_char(&mut buf, cell.ch);
            }
            proof {
                let (out, next) = cell_output(frame.cells@[(row * w + col) as int], *theme, cur0);
                assert(buf@ =~= before + out);
                assert(current == next);
                assert(before + (out + ansi_from(frame.cells@, w, h, *theme, row as nat, (col + 1) as nat, next))
                    =~= buf@ + ansi_from(frame.cells@, w, h, *theme, row as nat, (col + 1) as nat, next));
            }
            col += 1;
        }
        let ghost before = buf@;
        if row + 1 < frame.height {
            push_char(&mut buf, '\r');
            push_char(&mut buf, '\n');
        }
        proof {
            let sep: Seq<char> = if row + 1 < h { seq!['\r', '\n'] } else { Seq::empty() };
            assert(buf@ =~= before + sep);
            assert(before + (sep + ansi_from(frame.cells@, w, h, *theme, (row + 1) as nat, 0, current))
                =~= buf@ + ansi_from(frame.cells@, w, h, *theme, (row + 1) as nat, 0, current));
        }
        row += 1;
    }
    assert(buf@ =~= total);
    push_char(&mut buf, '\x1b');
    push_char(&mut buf, '[');
    push_char(&mut buf, '0');
    push_char(&mut buf, 'm');
    assert(buf@ =~= frame_ansi(*frame, *theme));
    buf
}

} // verus!

verus! {

/// A letter: the byte that ends an escape sequence.
pub open spec fn ends_escape(c: char) -> bool {
    ('A' <= c && c <= 'Z') || ('a' <= c && c <= 'z')
}

/// What a terminal prints of `s` with escape sequences (`ESC`, then anything
/// up to and including a letter) taken out, starting inside one when `esc`.
pub open spec fn printed_from(s: Seq<char>, esc: bool) -> Seq<char>
    decreases s.len(),
{
    if s.len() == 0 {
        Seq::empty()
    } else if esc {
        printed_from(s.drop_first(), !ends_escape(s[0]))
    } else if s[0] == '\x1b' {
        printed_from(s.drop_first(), true)
    } else {
        seq![s[0]] + printed_from(s.drop_first(), false)
    }
}

/// Whether the text `s` ends inside an escape sequence (starting inside one
/// when `esc`).
pub open spec fn in_escape_after(s: Seq<char>, esc: bool) -> bool
    decreases s.len(),
{
    if s.len() == 0 {
        esc
    } else if esc {
        in_escape_after(s.drop_first(), !ends_escape(s[0]))
    } else {
        in_escape_after(s.drop_first(), s[0] == '\x1b')
    }
}

/// The printed text of `s`.
pub open spec fn printed(s: Seq<char>) -> Seq<char> {
    printed_from(s, false)
}

/// Rows `row..h` of a `w`-wide grid, each its glyphs, joined by CR LF.
pub open spec fn rows_crlf(cells: Seq<Cell>, w: nat, h: nat, row: nat) -> Seq<char>
    decreases h - row,
{
    if row >= h {
        Seq::empty()
    } else if row + 1 < h {
        row_chars(cells, w, row) + seq!['\r', '\n'] + rows_crlf(cells, w, h, row + 1)
    } else {
        row_chars(cells, w, row)
    }
}

proof fn lemma_printed_append(a: Seq<char>, b: Seq<char>, e: bool)
    ensures
        printed_from(a + b, e) == printed_from(a, e) + printed_from(b, in_escape_after(a, e)),
        in_escape_after(a + b, e) == in_escape_after(b, in_escape_after(a, e)),
    decreases a.len(),
{
    if a.len() == 0 {
        assert(a + b =~= b);
    } else {
        assert((a + b).drop_first() =~= a.drop_first() + b);
        assert((a + b)[0] == a[0]);
        let e2 = if e { !ends_escape(a[0]) } else { a[0] == '\x1b' };
        lemma_printed_append(a.drop_first(), b, e2);
        if !e && a[0] != '\x1b' {
            assert(seq![a[0]] + (printed_from(a.drop_first(), false) + printed_from(b, in_escape_after(a, e)))
                =~= seq![a[0]] + printed_from(a.drop_first(), false) + printed_from(b, in_escape_after(a, e)));
        }
    }
}

/// A single character: printed as itself outside a sequence (unless it is
/// `ESC`, which opens one); inside one, printed as nothing.
proof fn lemma_single(c: char)
    ensures
        c != '\x1b' ==> printed_from(seq![c], false) == seq![c] && !in_escape_after(seq![c], false),
        c == '\x1b' ==> printed_from(seq![c], false) == Seq::<char>::empty() && in_escape_after(seq![c], false),
        printed_from(seq![c], true) == Seq::<char>::empty(),
        in_escape_after(seq![c], true) == !ends_escape(c),
{
    reveal_with_fuel(printed_from, 2);
    reveal_with_fuel(in_escape_after, 2);
    assert(seq![c].drop_first() =~= Seq::<char>::empty());
    assert(seq![c] + Seq::<char>::empty() =~= seq![c]);
}

/// Inside an escape sequence, text without a letter prints nothing and
/// leaves the sequence open.
proof fn lemma_no_letters(s: Seq<char>)
    requires
        forall|i: int| 0 <= i < s.len() ==> !ends_escape(#[trigger] s[i]),
    ensures
        printed_from(s, true) == Seq::<char>::empty(),
        in_escape_after(s, true),
    decreases s.len(),
{
    if s.len() > 0 {
        assert(!ends_escape(s[0]));
        lemma_no_letters(s.drop_first());
    }
}

/// `ESC`, letter-free text, then a letter: a whole escape sequence, which
/// prints nothing and ends outside any sequence.
proof fn lemma_escape(body: Seq<char>, last: char)
    requires
        forall|i: int| 0 <= i < body.len() ==> !ends_escape(#[trigger] body[i]),
        ends_escape(last),
    ensures
        printed(seq!['\x1b'] + body + seq![last]) == Seq::<char>::empty(),
        !in_escape_after(seq!['\x1b'] + body + seq![last], false),
{
    let s = seq!['\x1b'] + body + seq![last];
    assert(s =~= seq!['\x1b'] + (body + seq![last]));
    lemma_printed_append(seq!['\x1b'], body + seq![last], false);
    lemma_single('\x1b');
    lemma_printed_append(body, seq![last], true);
    lemma_no_letters(body);
    lemma_single(last);
    lemma_printed_append(seq!['\x1b'], body + seq![last], false);
    lemma_printed_append(body, seq![last], false);
}

proof fn lemma_decimal_digits(n: nat)
    ensures
        forall|i: int| 0 <= i < decimal_spec(n).len() ==> '0' <= #[trigger] decimal_spec(n)[i] <= '9',
    decreases n,
{
    if n >= 10 {
        lemma_decimal_digits(n / 10);
        let p = decimal_spec(n / 10);
        assert(decimal_spec(n) == p.push(digit_char((n % 10) as nat)));
        lemma_digit_char((n % 10) as nat);
        assert forall|i: int| 0 <= i < decimal_spec(n).len() implies '0' <= #[trigger] decimal_spec(n)[i] <= '9' by {
            if i < p.len() {
                assert(decimal_spec(n)[i] == p[i]);
            }
        }
    } else {
        lemma_digit_char(n);
    }
}

proof fn lemma_digit_char(d: nat)
    requires
        d < 10,
    ensures
        '0' <= digit_char(d) <= '9',
{
}

/// A colour escape prints nothing.
proof fn lemma_foreground_prints_nothing(c: RgbColor)
    ensures
        printed(foreground(c)) == Seq::<char>::empty(),
        !in_escape_after(foreground(c), false),
{
    lemma_decimal_digits(c.r as nat);
    lemma_decimal_digits(c.g as nat);
    lemma_decimal_digits(c.b as nat);
    let body = seq!['[', '3', '8', ';', '2', ';'] + decimal_spec(c.r as nat) + seq![';'] + decimal_spec(c.g as nat)
        + seq![';'] + decimal_spec(c.b as nat);
    assert(foreground(c) =~= seq!['\x1b'] + body + seq!['m']);
    assert forall|i: int| 0 <= i < body.len() implies !ends_escape(#[trigger] body[i]) by {
        let a = seq!['[', '3', '8', ';', '2', ';'];
        let r = decimal_spec(c.r as nat);
        let g = decimal_spec(c.g as nat);
        let b = decimal_spec(c.b as nat);
        if i < 6 {
            assert(body[i] == a[i]);
        } else if i < 6 + r.len() {
            assert(body[i] == r[i - 6]);
        } else if i == 6 + r.len() {
            assert(body[i] == ';');
        } else if i < 7 + r.len() + g.len() {
            assert(body[i] == g[i - 7 - r.len()]);
        } else if i == 7 + r.len() + g.len() {
            assert(body[i] == ';');
        } else {
            assert(body[i] == b[i - 8 - r.len() - g.len()]);
        }
    }
    lemma_escape(body, 'm');
}

/// One cell prints exactly its own glyph (a space included) and leaves no
/// escape sequence open.
proof fn lemma_cell_prints_its_glyph(cell: Cell, theme: Theme, cur: Option<RgbColor>)
    requires
        cell.ch != '\x1b',
    ensures
        printed(cell_output(cell, theme, cur).0) == seq![cell.ch],
        !in_escape_after(cell_output(cell, theme, cur).0, false),
{
    let one = seq![cell.ch];
    lemma_single(cell.ch);
    if cell.ch != ' ' {
        let color = match cell.color {
            Some(c) => c,
            None => theme.text,
        };
        if cur != Some(color) {
            lemma_foreground_prints_nothing(color);
            lemma_printed_append(foreground(color), one, false);
            lemma_printed_append(foreground(color), one, false);
            assert(Seq::<char>::empty() + one =~= one);
        }
    }
}

proof fn lemma_rows_print(cells: Seq<Cell>, w: nat, h: nat, theme: Theme, row: nat, col: nat, cur: Option<RgbColor>)
    requires
        cells.len() == w * h,
        col <= w,
        forall|i: int| 0 <= i < cells.len() ==> #[trigger] cells[i].ch != '\x1b',
    ensures
        printed(ansi_from(cells, w, h, theme, row, col, cur)) == if row >= h {
            Seq::<char>::empty()
        } else {
            row_chars(cells, w, row).skip(col as int) + if row + 1 < h {
                seq!['\r', '\n'] + rows_crlf(cells, w, h, row + 1)
            } else {
                Seq::<char>::empty()
            }
        },
        !in_escape_after(ansi_from(cells, w, h, theme, row, col, cur), false),
    decreases h - row, w - col,
{
    if row >= h {
    } else if col >= w {
        let sep: Seq<char> = if row + 1 < h { seq!['\r', '\n'] } else { Seq::empty() };
        let rest = ansi_from(cells, w, h, theme, row + 1, 0, cur);
        lemma_rows_print(cells, w, h, theme, row + 1, 0, cur);
        lemma_printed_append(sep, rest, false);
        lemma_printed_append(sep, rest, false);
        if row + 1 < h {
            lemma_single('\r');
            lemma_single('\n');
            assert(sep =~= seq!['\r'] + seq!['\n']);
            lemma_printed_append(seq!['\r'], seq!['\n'], false);
            assert(seq!['\r'] + seq!['\n'] =~= sep);
            assert(row_chars(cells, w, row + 1).skip(0) =~= row_chars(cells, w, row + 1));
        } else {
            assert(printed(sep) =~= Seq::<char>::empty());
        }
        assert(row_chars(cells, w, row).skip(col as int) =~= Seq::<char>::empty());
        assert(Seq::<char>::empty() + printed(ansi_from(cells, w, h, theme, row, col, cur))
            =~= printed(ansi_from(cells, w, h, theme, row, col, cur)));
    } else {
        let i = (row * w + col) as int;
        assert(0 <= i < cells.len()) by {
            crate::frame::lemma_index_in_grid(col as int, row as int, w as int, h as int);
        }
        let (out, next) = cell_output(cells[i], theme, cur);
        let rest = ansi_from(cells, w, h, theme, row, col + 1, next);
        lemma_cell_prints_its_glyph(cells[i], theme, cur);
        lemma_rows_print(cells, w, h, theme, row, col + 1, next);
        lemma_printed_append(out, rest, false);
        lemma_printed_append(out, rest, false);
        assert(row_chars(cells, w, row).skip(col as int) =~= seq![cells[i].ch] + row_chars(cells, w, row).skip(
            col + 1int,
        ));
        let tail: Seq<char> = if row + 1 < h {
            seq!['\r', '\n'] + rows_crlf(cells, w, h, row + 1)
        } else {
            Seq::<char>::empty()
        };
        assert(seq![cells[i].ch] + (row_chars(cells, w, row).skip(col + 1int) + tail) =~= seq![cells[i].ch]
            + row_chars(cells, w, row).skip(col + 1int) + tail);
    }
}

/// Every cell prints exactly one character, spaces included: with the
/// escape sequences taken out, the redraw of a frame is its rows of glyphs
/// joined by CR LF (for glyphs other than `ESC`).
pub proof fn lemma_ansi_prints_every_cell(frame: Frame, theme: Theme)
    requires
        frame.wf(),
        forall|i: int| 0 <= i < frame.cells@.len() ==> #[trigger] frame.cells@[i].ch != '\x1b',
    ensures
        printed(frame_ansi(frame, theme)) == rows_crlf(frame.cells@, frame.width as nat, frame.height as nat, 0),
{
    let (w, h) = (frame.width as nat, frame.height as nat);
    let body = ansi_from(frame.cells@, w, h, theme, 0, 0, None);
    lemma_rows_print(frame.cells@, w, h, theme, 0, 0, None);
    assert(clear_home() =~= (seq!['\x1b'] + seq!['[', '2'] + seq!['J']) + (seq!['\x1b'] + seq!['['] + seq!['H']));
    lemma_escape(seq!['[', '2'], 'J');
    lemma_escape(seq!['['], 'H');
    lemma_printed_append(seq!['\x1b'] + seq!['[', '2'] + seq!['J'], seq!['\x1b'] + seq!['['] + seq!['H'], false);
    lemma_printed_append(seq!['\x1b'] + seq!['[', '2'] + seq!['J'], seq!['\x1b'] + seq!['['] + seq!['H'], false);
    assert(reset_attrs() =~= seq!['\x1b'] + seq!['[', '0'] + seq!['m']);
    lemma_escape(seq!['[', '0'], 'm');
    lemma_printed_append(clear_home(), body + reset_attrs(), false);
    lemma_printed_append(clear_home(), body + reset_attrs(), false);
    lemma_printed_append(body, reset_attrs(), false);
    assert(frame_ansi(frame, theme) =~= clear_home() + (body + reset_attrs()));
    if h > 0 {
        assert(row_chars(frame.cells@, w, 0).skip(0) =~= row_chars(frame.cells@, w, 0));
    }
    assert(Seq::<char>::empty() + (printed(body) + Seq::<char>::empty()) =~= printed(body));
}

} // verus!
