//! The meaning of a `doom_ascii` terminal stream: the grammar of its tokens and
//! the effect of each token on the character grid.

use vstd::prelude::*;
use crate::color::RgbColor;
use crate::frame::{Cell, blank_cell};

verus! {

/// The abstract terminal: grid, current foreground colour and cursor.
pub struct Term {
    pub width: nat,
    pub height: nat,
    pub cells: Seq<Cell>,
    pub color: Option<RgbColor>,
    pub row: nat,
    pub col: nat,
}

/// What the token at the front of a byte sequence does.
pub enum Step {
    /// The token is cut off by the end of the bytes; it waits for more input.
    Incomplete,
    /// The token is complete: the new terminal and the number of bytes it spans.
    Advance(Term, nat),
}

/// Cursor advance, held at the largest machine index.
pub open spec fn sat_inc(x: nat) -> nat {
    if x < usize::MAX { x + 1 } else { x }
}

pub open spec fn min_nat(a: nat, b: nat) -> nat {
    if a <= b { a } else { b }
}

// ---------------------------------------------------------------- glyphs

/// Write `ch` at the cursor (if the cursor is on the grid) and advance the
/// cursor one column. There is no auto-wrap: past the row end glyphs are lost.
pub open spec fn place_spec(t: Term, ch: char) -> Term {
    if t.row < t.height && t.col < t.width {
        Term {
            cells: t.cells.update((t.row * t.width + t.col) as int, Cell { ch, color: t.color }),
            col: sat_inc(t.col),
            ..t
        }
    } else {
        Term { col: sat_inc(t.col), ..t }
    }
}

/// LF: next row, first column.
pub open spec fn line_feed_spec(t: Term) -> Term {
    Term { row: sat_inc(t.row), col: 0, ..t }
}

/// CR: first column.
pub open spec fn carriage_return_spec(t: Term) -> Term {
    Term { col: 0, ..t }
}

// ---------------------------------------------------------------- numbers

pub open spec fn is_digit(b: u8) -> bool {
    48 <= b <= 57
}

pub open spec fn all_digits(f: Seq<u8>) -> bool {
    forall|k: int| 0 <= k < f.len() ==> is_digit(#[trigger] f[k])
}

/// Decimal value of a digit string, accumulated in wrapping `i64` arithmetic.
pub open spec fn digits_value(f: Seq<u8>) -> i64
    decreases f.len(),
{
    if f.len() == 0 {
        0
    } else {
        vstd::wrapping::i64_specs::wrapping_add(
            vstd::wrapping::i64_specs::wrapping_mul(digits_value(f.drop_last()), 10),
            (f.last() - 48) as i64,
        )
    }
}

/// A parameter field: a non-empty run of ASCII digits, else nothing.
pub open spec fn parse_int_spec(f: Seq<u8>) -> Option<i64> {
    if f.len() == 0 || !all_digits(f) {
        None
    } else {
        Some(digits_value(f))
    }
}

/// A parameter as a machine index, if it is one.
pub open spec fn to_index(v: Option<i64>) -> Option<nat> {
    match v {
        Some(x) => if 0 <= x <= usize::MAX { Some(x as nat) } else { None },
        None => None,
    }
}

/// The largest index below `k` holding `';'`, or `-1`.
pub open spec fn last_semi(p: Seq<u8>, k: int) -> int
    decreases k,
{
    if k <= 0 {
        -1
    } else if p[k - 1] == 59 {
        k - 1
    } else {
        last_semi(p, k - 1)
    }
}

pub proof fn lemma_last_semi_bounds(p: Seq<u8>, k: int)
    ensures
        -1 <= last_semi(p, k) < k || (k <= 0 && last_semi(p, k) == -1),
        last_semi(p, k) >= 0 ==> p[last_semi(p, k)] == 59,
    decreases k,
{
    if k > 0 && p[k - 1] != 59 {
        lemma_last_semi_bounds(p, k - 1);
    }
}

/// The `;`-separated fields of a parameter string (always at least one).
pub open spec fn split_fields(p: Seq<u8>) -> Seq<Seq<u8>>
    decreases p.len(),
{
    let s = last_semi(p, p.len() as int);
    if s < 0 {
        seq![p]
    } else {
        proof {
            lemma_last_semi_bounds(p, p.len() as int);
        }
        split_fields(p.take(s)).push(p.skip(s + 1))
    }
}

/// The parsed value of every field.
pub open spec fn field_values(p: Seq<u8>) -> Seq<Option<i64>> {
    split_fields(p).map_values(|f: Seq<u8>| parse_int_spec(f))
}

pub open spec fn field_at(vals: Seq<Option<i64>>, k: int) -> Option<i64> {
    if 0 <= k < vals.len() { vals[k] } else { None }
}

pub open spec fn unwrap_or_nat(v: Option<nat>, d: nat) -> nat {
    match v {
        Some(x) => x,
        None => d,
    }
}

// ---------------------------------------------------------------- CSI

/// `CSI row;col H` (or `f`): 1-based, each defaulting to 1, clamped to the grid.
pub open spec fn cursor_to_spec(t: Term, params: Seq<u8>) -> Term {
    let vals = field_values(params);
    let r1 = unwrap_or_nat(to_index(field_at(vals, 0)), 1);
    let c1 = unwrap_or_nat(to_index(field_at(vals, 1)), 1);
    Term {
        row: min_nat(if r1 > 0 { (r1 - 1) as nat } else { 0 }, (t.height - 1) as nat),
        col: min_nat(if c1 > 0 { (c1 - 1) as nat } else { 0 }, (t.width - 1) as nat),
        ..t
    }
}

/// Every cell blank; the cursor stays where it is.
pub open spec fn erase_display_spec(t: Term) -> Term {
    Term { cells: Seq::new(t.cells.len(), |i: int| blank_cell()), ..t }
}

/// The columns `[lo, hi)` of the cursor row that `CSI mode K` blanks.
pub open spec fn erase_span(t: Term, mode: nat) -> (int, int) {
    if mode == 1 {
        (0, min_nat(t.col, (t.width - 1) as nat) as int + 1)
    } else if mode == 2 {
        (0, t.width as int)
    } else if t.col < t.width {
        (t.col as int, t.width as int)
    } else {
        (0, 0)
    }
}

/// `CSI mode K`: 1 = start of line through the cursor, 2 = whole line, anything
/// else = cursor to end of line. Nothing happens below the grid.
pub open spec fn erase_line_spec(t: Term, mode: nat) -> Term {
    if t.row >= t.height {
        t
    } else {
        let base = (t.row * t.width) as int;
        let (lo, hi) = erase_span(t, mode);
        Term {
            cells: Seq::new(
                t.cells.len(),
                |i: int| if base + lo <= i < base + hi { blank_cell() } else { t.cells[i] },
            ),
            ..t
        }
    }
}

pub open spec fn clamp_byte_spec(v: i64) -> u8 {
    if v < 0 {
        0
    } else if v > 255 {
        255
    } else {
        v as u8
    }
}

/// SGR fields from index `k` on: `0` and `39` reset the colour, `38;2;R;G;B`
/// sets it (an ill-formed `38` group is skipped whole), the rest is ignored.
pub open spec fn sgr_from(color: Option<RgbColor>, vals: Seq<Option<i64>>, k: int) -> Option<RgbColor>
    decreases vals.len() - k,
{
    if k < 0 || k >= vals.len() {
        color
    } else if vals[k] == Some(0i64) || vals[k] == Some(39i64) {
        sgr_from(None, vals, k + 1)
    } else if vals[k] == Some(38i64) {
        let mode = field_at(vals, k + 1);
        let r = field_at(vals, k + 2);
        let g = field_at(vals, k + 3);
        let b = field_at(vals, k + 4);
        let next = if mode == Some(2i64) && r is Some && g is Some && b is Some {
            Some(
                RgbColor {
                    r: clamp_byte_spec(r->0),
                    g: clamp_byte_spec(g->0),
                    b: clamp_byte_spec(b->0),
                },
            )
        } else {
            color
        };
        if k + 5 < vals.len() {
            sgr_from(next, vals, k + 5)
        } else {
            next
        }
    } else {
        sgr_from(color, vals, k + 1)
    }
}

/// `CSI params m`: an empty parameter list resets the colour.
pub open spec fn sgr_spec(t: Term, params: Seq<u8>) -> Term {
    if params.len() == 0 {
        Term { color: None, ..t }
    } else {
        Term { color: sgr_from(t.color, field_values(params), 0), ..t }
    }
}

/// A complete CSI sequence with its parameter bytes and final byte.
pub open spec fn csi_spec(t: Term, params: Seq<u8>, fin: u8) -> Term {
    if fin == 72 || fin == 102 {
        cursor_to_spec(t, params)
    } else if fin == 74 {
        erase_display_spec(t)
    } else if fin == 75 {
        erase_line_spec(t, unwrap_or_nat(to_index(parse_int_spec(params)), 0))
    } else if fin == 109 {
        sgr_spec(t, params)
    } else {
        t
    }
}

// ---------------------------------------------------------------- scanning

/// Index of the first CSI final byte (`0x40..=0x7e`) at or after `j`.
pub open spec fn csi_end(b: Seq<u8>, j: int) -> Option<int>
    decreases b.len() - j,
{
    if j < 0 || j >= b.len() {
        None
    } else if 0x40 <= b[j] <= 0x7e {
        Some(j)
    } else {
        csi_end(b, j + 1)
    }
}

/// One past the end of an OSC string starting at `j`, which ends at BEL or at
/// `ESC \`; `None` while the terminator has not arrived.
pub open spec fn osc_end(b: Seq<u8>, j: int) -> Option<int>
    decreases b.len() - j,
{
    if j < 0 || j >= b.len() {
        None
    } else if b[j] == 7 {
        Some(j + 1)
    } else if b[j] == 0x1b {
        if j + 1 < b.len() {
            if b[j + 1] == 0x5c {
                Some(j + 2)
            } else {
                osc_end(b, j + 1)
            }
        } else {
            None
        }
    } else {
        osc_end(b, j + 1)
    }
}

// ---------------------------------------------------------------- UTF-8

/// How many bytes the lead byte announces.
pub open spec fn utf8_len_spec(lead: u8) -> nat {
    if 0xC0 <= lead <= 0xDF {
        2
    } else if 0xE0 <= lead <= 0xEF {
        3
    } else if 0xF0 <= lead <= 0xF7 {
        4
    } else {
        1
    }
}

pub open spec fn is_cont(b: u8) -> bool {
    0x80 <= b <= 0xBF
}

/// The scalar value that `s` encodes in strict UTF-8 when `s` is exactly one
/// encoded character (shortest form, no surrogates, at most `U+10FFFF`).
pub open spec fn utf8_scalar(s: Seq<u8>) -> Option<u32> {
    if s.len() == 1 {
        if s[0] < 0x80 { Some(s[0] as u32) } else { None }
    } else if s.len() == 2 {
        if 0xC2 <= s[0] <= 0xDF && is_cont(s[1]) {
            Some(((s[0] - 0xC0) * 64 + (s[1] - 0x80)) as u32)
        } else {
            None
        }
    } else if s.len() == 3 {
        let v = (s[0] - 0xE0) * 4096 + (s[1] - 0x80) * 64 + (s[2] - 0x80);
        if 0xE0 <= s[0] <= 0xEF && is_cont(s[1]) && is_cont(s[2]) && v >= 0x800 && !(0xD800 <= v
            <= 0xDFFF) {
            Some(v as u32)
        } else {
            None
        }
    } else if s.len() == 4 {
        let v = (s[0] - 0xF0) * 262144 + (s[1] - 0x80) * 4096 + (s[2] - 0x80) * 64 + (s[3]
            - 0x80);
        if 0xF0 <= s[0] <= 0xF4 && is_cont(s[1]) && is_cont(s[2]) && is_cont(s[3]) && 0x10000 <= v
            <= 0x10FFFF {
            Some(v as u32)
        } else {
            None
        }
    } else {
        None
    }
}

// ---------------------------------------------------------------- tokens

/// The token at the front of `b` (which is non-empty).
pub open spec fn token(t: Term, b: Seq<u8>) -> Step {
    let c = b[0];
    if c == 0x1b {
        if b.len() < 2 {
            Step::Incomplete
        } else if b[1] == 0x5b {
            match csi_end(b, 2) {
                Some(e) => Step::Advance(csi_spec(t, b.subrange(2, e), b[e]), (e + 1) as nat),
                None => Step::Incomplete,
            }
        } else if b[1] == 0x5d {
            match osc_end(b, 2) {
                Some(e) => Step::Advance(t, e as nat),
                None => Step::Incomplete,
            }
        } else {
            Step::Advance(t, 2)
        }
    } else if c == 0x0a {
        Step::Advance(line_feed_spec(t), 1)
    } else if c == 0x0d {
        Step::Advance(carriage_return_spec(t), 1)
    } else if c < 0x20 {
        Step::Advance(t, 1)
    } else if c < 0x80 {
        Step::Advance(place_spec(t, c as char), 1)
    } else {
        let n = utf8_len_spec(c);
        if n > b.len() {
            Step::Incomplete
        } else {
            match utf8_scalar(b.take(n as int)) {
                Some(v) => Step::Advance(place_spec(t, v as char), n),
                None => Step::Advance(t, n),
            }
        }
    }
}

/// Run the terminal over `b`: every complete token is applied in order; the
/// bytes from the first incomplete token on are returned as the pending tail.
pub open spec fn consume(t: Term, b: Seq<u8>) -> (Term, Seq<u8>)
    decreases b.len(),
{
    if b.len() == 0 {
        (t, Seq::empty())
    } else {
        match token(t, b) {
            Step::Incomplete => (t, b),
            Step::Advance(t2, n) => if 0 < n <= b.len() {
                consume(t2, b.skip(n as int))
            } else {
                (t, b)
            },
        }
    }
}

} // verus!

verus! {

// ---------------------------------------------------------------- laws

pub proof fn lemma_csi_end_bounds(b: Seq<u8>, j: int)
    ensures
        csi_end(b, j) matches Some(e) ==> j <= e < b.len() && 0x40 <= b[e] <= 0x7e,
    decreases b.len() - j,
{
    if 0 <= j < b.len() && !(0x40 <= b[j] <= 0x7e) {
        lemma_csi_end_bounds(b, j + 1);
    }
}

pub proof fn lemma_osc_end_bounds(b: Seq<u8>, j: int)
    ensures
        osc_end(b, j) matches Some(e) ==> j < e <= b.len(),
    decreases b.len() - j,
{
    if 0 <= j < b.len() && b[j] != 7 {
        if b[j] == 0x1b {
            if j + 1 < b.len() && b[j + 1] != 0x5c {
                lemma_osc_end_bounds(b, j + 1);
            }
        } else {
            lemma_osc_end_bounds(b, j + 1);
        }
    }
}

/// A complete token spans at least one and at most all of the bytes.
pub proof fn lemma_token_span(t: Term, b: Seq<u8>)
    requires
        b.len() > 0,
    ensures
        token(t, b) matches Step::Advance(t2, n) ==> 0 < n <= b.len(),
{
    lemma_csi_end_bounds(b, 2);
    lemma_osc_end_bounds(b, 2);
}

proof fn lemma_csi_end_prefix(u: Seq<u8>, v: Seq<u8>, j: int)
    requires
        csi_end(u, j) is Some,
    ensures
        csi_end(u + v, j) == csi_end(u, j),
    decreases u.len() - j,
{
    assert((u + v)[j] == u[j]);
    if !(0x40 <= u[j] <= 0x7e) {
        lemma_csi_end_prefix(u, v, j + 1);
    }
}

proof fn lemma_osc_end_prefix(u: Seq<u8>, v: Seq<u8>, j: int)
    requires
        osc_end(u, j) is Some,
    ensures
        osc_end(u + v, j) == osc_end(u, j),
    decreases u.len() - j,
{
    assert((u + v)[j] == u[j]);
    if u[j] != 7 {
        if u[j] == 0x1b {
            assert((u + v)[j + 1] == u[j + 1]);
            if u[j + 1] != 0x5c {
                lemma_osc_end_prefix(u, v, j + 1);
            }
        } else {
            lemma_osc_end_prefix(u, v, j + 1);
        }
    }
}

/// A token that is complete within `u` reads the same and does the same when
/// more bytes follow it.
pub proof fn lemma_token_prefix(t: Term, u: Seq<u8>, v: Seq<u8>)
    requires
        u.len() > 0,
        token(t, u) is Advance,
    ensures
        token(t, u + v) == token(t, u),
{
    let b = u + v;
    assert(b[0] == u[0]);
    if u[0] == 0x1b {
        assert(b[1] == u[1]);
        if u[1] == 0x5b {
            lemma_csi_end_prefix(u, v, 2);
            lemma_csi_end_bounds(u, 2);
            let e = csi_end(u, 2)->0;
            assert(b.subrange(2, e) =~= u.subrange(2, e));
            assert(b[e] == u[e]);
        } else if u[1] == 0x5d {
            lemma_osc_end_prefix(u, v, 2);
        }
    } else if u[0] >= 0x80 {
        let n = utf8_len_spec(u[0]);
        assert(b.take(n as int) =~= u.take(n as int));
    }
}

/// Feeding is chunk-independent: running the terminal over `u` and then over
/// its pending tail followed by `v` ends exactly where running it over `u ++ v`
/// in one go ends.
pub proof fn lemma_consume_append(t: Term, u: Seq<u8>, v: Seq<u8>)
    ensures
        consume(consume(t, u).0, consume(t, u).1 + v) == consume(t, u + v),
    decreases u.len(),
{
    if u.len() == 0 {
        assert(u + v =~= v);
        assert(Seq::<u8>::empty() + v =~= v);
    } else {
        lemma_token_span(t, u);
        match token(t, u) {
            Step::Incomplete => {},
            Step::Advance(t2, n) => {
                lemma_token_prefix(t, u, v);
                assert((u + v).len() > 0);
                assert((u + v).skip(n as int) =~= u.skip(n as int) + v);
                lemma_consume_append(t2, u.skip(n as int), v);
            },
        }
    }
}

} // verus!

verus! {

/// The CSI terminator search read at an offset into a longer sequence.
pub proof fn lemma_csi_end_shift(b: Seq<u8>, i: int, j: int)
    requires
        0 <= i <= b.len(),
        0 <= j,
    ensures
        csi_end(b.skip(i), j) == (match csi_end(b, i + j) {
            Some(e) => Some(e - i),
            None => None,
        }),
    decreases b.len() - (i + j),
{
    if i + j < b.len() {
        assert(b.skip(i)[j] == b[i + j]);
        if !(0x40 <= b[i + j] <= 0x7e) {
            lemma_csi_end_shift(b, i, j + 1);
        }
    }
}

/// The OSC terminator search read at an offset into a longer sequence.
pub proof fn lemma_osc_end_shift(b: Seq<u8>, i: int, j: int)
    requires
        0 <= i <= b.len(),
        0 <= j,
    ensures
        osc_end(b.skip(i), j) == (match osc_end(b, i + j) {
            Some(e) => Some(e - i),
            None => None,
        }),
    decreases b.len() - (i + j),
{
    if i + j < b.len() {
        assert(b.skip(i)[j] == b[i + j]);
        if b[i + j] != 7 {
            if b[i + j] == 0x1b {
                if i + j + 1 < b.len() {
                    assert(b.skip(i)[j + 1] == b[i + j + 1]);
                    if b[i + j + 1] != 0x5c {
                        lemma_osc_end_shift(b, i, j + 1);
                    }
                }
            } else {
                lemma_osc_end_shift(b, i, j + 1);
            }
        }
    }
}

/// `last_semi` when the last separator before `k` is known.
pub proof fn lemma_last_semi_at(p: Seq<u8>, s: int, k: int)
    requires
        -1 <= s < k <= p.len(),
        s >= 0 ==> p[s] == 59,
        forall|j: int| s < j < k ==> p[j] != 59,
    ensures
        last_semi(p, k) == s,
    decreases k,
{
    if k - 1 > s {
        lemma_last_semi_at(p, s, k - 1);
    }
}

/// `last_semi` only reads below `k`.
pub proof fn lemma_last_semi_take(p: Seq<u8>, k: int, m: int)
    requires
        0 <= k <= m <= p.len(),
    ensures
        last_semi(p.take(m), k) == last_semi(p, k),
    decreases k,
{
    if k > 0 {
        assert(p.take(m)[k - 1] == p[k - 1]);
        lemma_last_semi_take(p, k - 1, m);
    }
}

} // verus!

verus! {

/// A blank grid with `msg` centred on its middle row (cut at the row's end),
/// the cursor homed.
pub open spec fn message_spec(t: Term, msg: Seq<char>) -> Term {
    Term { cells: message_cells(t.width, t.height, t.cells.len(), msg), row: 0, col: 0, ..t }
}

/// The column where a message of `n` characters starts on a row of `width`.
pub open spec fn message_start(width: nat, n: nat) -> int {
    (if width >= n { width - n } else { 0 }) / 2
}

/// Cell `i` of a blank `width × height` grid with `msg` written from
/// [`message_start`] on its middle row.
pub open spec fn message_cell(width: nat, height: nat, msg: Seq<char>, i: int) -> Cell {
    let base = (height / 2) * width;
    let start = message_start(width, msg.len());
    if base + start <= i < base + width && i - base - start < msg.len() {
        Cell { ch: msg[i - base - start], color: None }
    } else {
        blank_cell()
    }
}

/// The cells of a blank grid of `len` cells carrying the centred message.
pub open spec fn message_cells(width: nat, height: nat, len: nat, msg: Seq<char>) -> Seq<Cell> {
    Seq::new(len, |i: int| message_cell(width, height, msg, i))
}

/// A blank grid with the cursor homed; colour is kept.
pub open spec fn clear_spec(t: Term) -> Term {
    Term { cells: Seq::new(t.cells.len(), |i: int| blank_cell()), row: 0, col: 0, ..t }
}

} // verus!

verus! {

/// A parameter string always has at least one field.
pub proof fn lemma_split_nonempty(p: Seq<u8>)
    ensures
        split_fields(p).len() >= 1,
        field_values(p).len() >= 1,
    decreases p.len(),
{
    let s = last_semi(p, p.len() as int);
    lemma_last_semi_bounds(p, p.len() as int);
    if s >= 0 {
        lemma_split_nonempty(p.take(s));
    }
}

} // verus!

verus! {

/// Reading the fields from `k + 1` of `x` followed by `p` is reading `p`
/// from `k`.
proof fn lemma_sgr_shift(color: Option<RgbColor>, x: Option<i64>, p: Seq<Option<i64>>, k: int)
    requires
        0 <= k,
    ensures
        sgr_from(color, seq![x] + p, k + 1) == sgr_from(color, p, k),
    decreases p.len() - k,
{
    let q = seq![x] + p;
    if k < p.len() {
        assert(q[k + 1] == p[k]);
        assert forall|i: int| 0 <= i < 5 implies #[trigger] field_at(q, k + 1 + i) == field_at(p, k + i) by {
            if 0 <= k + i < p.len() {
                assert(q[k + 1 + i] == p[k + i]);
            }
        }
        assert(field_at(q, k + 2) == field_at(p, k + 1));
        assert(field_at(q, k + 3) == field_at(p, k + 2));
        assert(field_at(q, k + 4) == field_at(p, k + 3));
        assert(field_at(q, k + 5) == field_at(p, k + 4));
        if p[k] == Some(0i64) || p[k] == Some(39i64) {
            lemma_sgr_shift(None, x, p, k + 1);
        } else if p[k] == Some(38i64) {
            let mode = field_at(p, k + 1);
            let r = field_at(p, k + 2);
            let g = field_at(p, k + 3);
            let b = field_at(p, k + 4);
            let next = if mode == Some(2i64) && r is Some && g is Some && b is Some {
                Some(RgbColor { r: clamp_byte_spec(r->0), g: clamp_byte_spec(g->0), b: clamp_byte_spec(b->0) })
            } else {
                color
            };
            if k + 5 < p.len() {
                lemma_sgr_shift(next, x, p, k + 5);
            }
        } else {
            lemma_sgr_shift(color, x, p, k + 1);
        }
    }
}

/// SGR fields compose left to right: a reset field (`0` or `39`) forgets
/// whatever colour was in effect and the fields after it still apply, so
/// the colour after `0;P` (or `39;P`) from any colour is the colour after
/// `P` from no colour.
pub proof fn lemma_sgr_reset_then_rest(color: Option<RgbColor>, reset: i64, p: Seq<Option<i64>>)
    requires
        reset == 0 || reset == 39,
    ensures
        sgr_from(color, seq![Some(reset)] + p, 0) == sgr_from(None, p, 0),
{
    let q = seq![Some(reset)] + p;
    assert(q[0] == Some(reset));
    lemma_sgr_shift(None, Some(reset), p, 0);
}

/// A field other than `0`, `38` and `39` changes nothing: the colour after
/// `n;P` is the colour after `P`.
pub proof fn lemma_sgr_other_field_ignored(color: Option<RgbColor>, n: i64, p: Seq<Option<i64>>)
    requires
        n != 0 && n != 38 && n != 39,
    ensures
        sgr_from(color, seq![Some(n)] + p, 0) == sgr_from(color, p, 0),
{
    let q = seq![Some(n)] + p;
    assert(q[0] == Some(n));
    lemma_sgr_shift(color, Some(n), p, 0);
}

/// A well-formed truecolor group sets the colour (each byte clamped) and the
/// fields after it still apply.
pub proof fn lemma_sgr_truecolor_then_rest(color: Option<RgbColor>, r: i64, g: i64, b: i64, p: Seq<Option<i64>>)
    ensures
        sgr_from(color, seq![Some(38i64), Some(2i64), Some(r), Some(g), Some(b)] + p, 0) == sgr_from(
            Some(RgbColor { r: clamp_byte_spec(r), g: clamp_byte_spec(g), b: clamp_byte_spec(b) }),
            p,
            0,
        ),
{
    let head = seq![Some(38i64), Some(2i64), Some(r), Some(g), Some(b)];
    let q = head + p;
    assert(q[0] == Some(38i64));
    assert(field_at(q, 1) == Some(2i64));
    assert(field_at(q, 2) == Some(r));
    assert(field_at(q, 3) == Some(g));
    assert(field_at(q, 4) == Some(b));
    let c = Some(RgbColor { r: clamp_byte_spec(r), g: clamp_byte_spec(g), b: clamp_byte_spec(b) });
    if 5 < q.len() {
        let q1 = seq![Some(r), Some(g), Some(b)] + p;
        let q2 = seq![Some(g), Some(b)] + p;
        let q3 = seq![Some(b)] + p;
        lemma_sgr_shift(c, Some(b), p, 0);
        lemma_sgr_shift(c, Some(g), q3, 1);
        lemma_sgr_shift(c, Some(r), q2, 2);
        lemma_sgr_shift(c, Some(2i64), q1, 3);
        lemma_sgr_shift(c, Some(38i64), seq![Some(2i64)] + q1, 4);
        assert(seq![Some(g)] + q3 =~= q2);
        assert(seq![Some(r)] + q2 =~= q1);
        assert(seq![Some(38i64)] + (seq![Some(2i64)] + q1) =~= q);
    } else {
        assert(p.len() == 0);
    }
}

} // verus!
