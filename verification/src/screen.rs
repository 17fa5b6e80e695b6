//! Reconstructs `doom_ascii`'s ANSI terminal stream into a fixed character
//! grid with per-cell truecolor. Bytes may arrive in arbitrary chunks: a token
//! cut off by the end of a chunk is kept and resumed by the next `feed`.

use vstd::prelude::*;
use crate::color::RgbColor;
use crate::frame::{Cell, Frame, blank_cell};
use crate::screen_spec::{
    Term, Step, all_digits, carriage_return_spec, clamp_byte_spec, consume, csi_end, csi_spec,
    digits_value, erase_display_spec, erase_line_spec, erase_span, field_values, is_digit,
    lemma_csi_end_shift, lemma_last_semi_at, lemma_osc_end_shift, lemma_token_span,
    line_feed_spec, osc_end, parse_int_spec, place_spec, sat_inc, sgr_spec, split_fields,
    to_index, token, unwrap_or_nat, utf8_len_spec, utf8_scalar, cursor_to_spec, sgr_from,
    field_at, min_nat, clear_spec, message_spec, lemma_csi_end_bounds, lemma_osc_end_bounds,
};

verus! {

/// `char::from_u32`: the character with scalar value `v`, if `v` is one.
/// Trusted: std documents that it returns `None` exactly for values above
/// `0x10FFFF` and for the surrogate range `0xD800..=0xDFFF`.
#[verifier::external_body]
fn char_from_u32(v: u32) -> (r: Option<char>)
    ensures
        r is Some <==> (v <= 0x10FFFF && !(0xD800 <= v <= 0xDFFF)),
        r matches Some(c) ==> c as u32 == v,
{
    char::from_u32(v)
}

/// The character with scalar value `v`, which is known to be one.
fn scalar_char(v: u32) -> (r: Option<char>)
    requires
        v <= 0x10FFFF,
        !(0xD800 <= v <= 0xDFFF),
    ensures
        r == Some(v as char),
{
    let r = char_from_u32(v);
    proof {
        let c = r->0;
        vstd::utf8::char_u32_cast(c, v);
    }
    r
}

/// Clamp a parameter value into a colour channel.
pub fn clamp_byte(v: i64) -> (b: u8)
    ensures
        b == clamp_byte_spec(v),
{
    if v < 0 {
        0
    } else if v > 255 {
        255
    } else {
        v as u8
    }
}

/// Parse a single ANSI parameter field: a non-empty run of ASCII digits
/// (accumulated in wrapping `i64` arithmetic); anything else is `None`.
pub fn parse_int_field(field: &[u8]) -> (r: Option<i64>)
    ensures
        r == parse_int_spec(field@),
{
    if field.len() == 0 {
        return None;
    }
    let mut v: i64 = 0;
    let mut i: usize = 0;
    while i < field.len()
        invariant
            0 < field@.len(),
            i <= field@.len(),
            all_digits(field@.take(i as int)),
            v == digits_value(field@.take(i as int)),
        decreases field@.len() - i,
    {
        let b = field[i];
        if !(48 <= b && b <= 57) {
            assert(!all_digits(field@)) by {
                assert(!is_digit(field@[i as int]));
            }
            return None;
        }
        proof {
            assert(field@.take(i + 1).drop_last() =~= field@.take(i as int));
            assert(field@.take(i + 1).last() == b);
        }
        v = v.wrapping_mul(10).wrapping_add((b - 48) as i64);
        proof {
            assert forall|k: int| 0 <= k < i + 1 implies is_digit(#[trigger] field@.take(i + 1)[k]) by {
                if k < i {
                    assert(field@.take(i + 1)[k] == field@.take(i as int)[k]);
                }
            }
        }
        i += 1;
    }
    assert(field@.take(field@.len() as int) =~= field@);
    Some(v)
}

/// A parameter field as a machine index, if it parses and fits.
pub fn parse_uint_field(field: &[u8]) -> (r: Option<usize>)
    ensures
        match r {
            Some(x) => to_index(parse_int_spec(field@)) == Some(x as nat),
            None => to_index(parse_int_spec(field@)) is None,
        },
{
    match parse_int_field(field) {
        Some(v) => {
            if v >= 0 && (v as u64) <= (usize::MAX as u64) {
                Some(v as usize)
            } else {
                None
            }
        },
        None => None,
    }
}

/// The number of bytes a UTF-8 lead byte announces (1 for anything that is not
/// a multi-byte lead).
pub fn utf8_length(lead: u8) -> (n: usize)
    ensures
        n == utf8_len_spec(lead),
{
    let n: usize = if lead & 0xE0 == 0xC0 {
        2
    } else if lead & 0xF0 == 0xE0 {
        3
    } else if lead & 0xF8 == 0xF0 {
        4
    } else {
        1
    };
    assert((lead & 0xE0 == 0xC0) == (0xC0 <= lead <= 0xDF)) by (bit_vector);
    assert((lead & 0xF0 == 0xE0) == (0xE0 <= lead <= 0xEF)) by (bit_vector);
    assert((lead & 0xF8 == 0xF0) == (0xF0 <= lead <= 0xF7)) by (bit_vector);
    n
}

/// Decode one strictly valid UTF-8 character that spans all of `s`.
fn decode_utf8(s: &[u8]) -> (r: Option<char>)
    ensures
        match utf8_scalar(s@) {
            Some(v) => r == Some(v as char),
            None => r is None,
        },
{
    let n = s.len();
    if n == 1 {
        if s[0] < 0x80 {
            return Some(s[0] as char);
        }
        return None;
    }
    if n == 2 {
        if 0xC2 <= s[0] && s[0] <= 0xDF && 0x80 <= s[1] && s[1] <= 0xBF {
            let v: u32 = (s[0] as u32 - 0xC0) * 64 + (s[1] as u32 - 0x80);
            return scalar_char(v);
        }
        return None;
    }
    if n == 3 {
        if 0xE0 <= s[0] && s[0] <= 0xEF && 0x80 <= s[1] && s[1] <= 0xBF && 0x80 <= s[2] && s[2]
            <= 0xBF {
            let v: u32 = (s[0] as u32 - 0xE0) * 4096 + (s[1] as u32 - 0x80) * 64 + (s[2] as u32
                - 0x80);
            if v >= 0x800 && !(0xD800 <= v && v <= 0xDFFF) {
                return scalar_char(v);
            }
        }
        return None;
    }
    if n == 4 {
        if 0xF0 <= s[0] && s[0] <= 0xF4 && 0x80 <= s[1] && s[1] <= 0xBF && 0x80 <= s[2] && s[2]
            <= 0xBF && 0x80 <= s[3] && s[3] <= 0xBF {
            let v: u32 = (s[0] as u32 - 0xF0) * 262144 + (s[1] as u32 - 0x80) * 4096 + (s[2] as u32
                - 0x80) * 64 + (s[3] as u32 - 0x80);
            if 0x10000 <= v && v <= 0x10FFFF {
                return scalar_char(v);
            }
        }
        return None;
    }
    None
}

/// Index of the CSI final byte (`0x40..=0x7e`) at or after `start`.
pub fn scan_csi_terminator(buf: &[u8], start: usize) -> (r: Option<usize>)
    ensures
        match csi_end(buf@, start as int) {
            Some(e) => r == Some(e as usize),
            None => r is None,
        },
{
    let mut j = start;
    while j < buf.len()
        invariant
            start <= j,
            csi_end(buf@, start as int) == csi_end(buf@, j as int),
        decreases buf@.len() - j,
    {
        if 0x40 <= buf[j] && buf[j] <= 0x7e {
            return Some(j);
        }
        j += 1;
    }
    None
}

/// One past the end of an OSC string starting at `start` (ended by BEL or by
/// `ESC \`), or `None` while the terminator has not arrived.
pub fn scan_osc_terminator(buf: &[u8], start: usize) -> (r: Option<usize>)
    ensures
        match osc_end(buf@, start as int) {
            Some(e) => r == Some(e as usize),
            None => r is None,
        },
{
    let count = buf.len();
    let mut j = start;
    while j < count
        invariant
            count == buf@.len(),
            start <= j,
            osc_end(buf@, start as int) == osc_end(buf@, j as int),
        decreases count - j,
    {
        if buf[j] == 0x07 {
            return Some(j + 1);
        }
        if buf[j] == 0x1b {
            if j + 1 < count {
                if buf[j + 1] == 0x5c {
                    return Some(j + 2);
                }
            } else {
                return None;
            }
        }
        j += 1;
    }
    None
}

/// The parsed value of every `;`-separated field of `params`.
pub fn field_values_of(params: &[u8]) -> (vals: Vec<Option<i64>>)
    ensures
        vals@ == field_values(params@),
{
    let p = Ghost(params@);
    let n = params.len();
    let mut vals: Vec<Option<i64>> = Vec::new();
    let mut fstart: usize = 0;
    let mut j: usize = 0;
    while j < n
        invariant
            n == params@.len(),
            p@ == params@,
            fstart <= j <= n,
            forall|k: int| fstart <= k < j ==> p@[k] != 59,
            fstart == 0 ==> vals@ == Seq::<Option<i64>>::empty(),
            fstart > 0 ==> p@[fstart - 1] == 59 && vals@ == field_values(p@.take(fstart - 1)),
        decreases n - j,
    {
        if params[j] == 59 {
            let f = &params[fstart..j];
            let v = parse_int_field(f);
            proof {
                let q = p@.take(j as int);
                lemma_last_semi_at(q, fstart - 1, j as int);
                if fstart > 0 {
                    assert(q.take(fstart - 1) =~= p@.take(fstart - 1));
                    assert(q.skip(fstart as int) =~= p@.subrange(fstart as int, j as int));
                } else {
                    assert(q =~= p@.subrange(0, j as int));
                }
                assert(split_fields(q).map_values(|f: Seq<u8>| parse_int_spec(f)) =~= vals@.push(
                    v,
                ));
            }
            vals.push(v);
            fstart = j + 1;
        }
        j += 1;
    }
    let last = &params[fstart..n];
    let v = parse_int_field(last);
    proof {
        let q = p@;
        lemma_last_semi_at(q, fstart - 1, n as int);
        if fstart > 0 {
            assert(q.skip(fstart as int) =~= p@.subrange(fstart as int, n as int));
        } else {
            assert(q =~= p@.subrange(0, n as int));
        }
        assert(split_fields(q).map_values(|f: Seq<u8>| parse_int_spec(f)) =~= vals@.push(v));
    }
    vals.push(v);
    vals
}

} // verus!

verus! {

/// A parameter value as a machine index, if it is a non-negative one that fits.
fn index_value(v: Option<i64>) -> (r: Option<usize>)
    ensures
        match r {
            Some(x) => to_index(v) == Some(x as nat),
            None => to_index(v) is None,
        },
{
    match v {
        Some(x) => {
            if x >= 0 && (x as u64) <= (usize::MAX as u64) {
                Some(x as usize)
            } else {
                None
            }
        },
        None => None,
    }
}

fn value_at(vals: &Vec<Option<i64>>, k: usize, offset: usize) -> (r: Option<i64>)
    requires
        k < vals@.len(),
    ensures
        r == field_at(vals@, k + offset),
{
    if offset < vals.len() - k {
        vals[k + offset]
    } else {
        None
    }
}

/// A mutable terminal grid driven by a stream of `doom_ascii` ANSI bytes.
pub struct ScreenBuffer {
    width: usize,
    height: usize,
    cells: Vec<Cell>,
    current_color: Option<RgbColor>,
    cursor_row: usize,
    cursor_col: usize,
    pending: Vec<u8>,
}

impl ScreenBuffer {
    /// The grid is at least one cell in each direction and holds one cell per
    /// position.
    pub closed spec fn wf(&self) -> bool {
        &&& 1 <= self.width
        &&& 1 <= self.height
        &&& self.cells@.len() == self.width * self.height
        &&& self.width * self.height <= usize::MAX
    }

    /// The terminal this buffer holds.
    pub closed spec fn term(&self) -> Term {
        Term {
            width: self.width as nat,
            height: self.height as nat,
            cells: self.cells@,
            color: self.current_color,
            row: self.cursor_row as nat,
            col: self.cursor_col as nat,
        }
    }

    /// The bytes of a token cut off at the end of the last chunk.
    pub closed spec fn pending_bytes(&self) -> Seq<u8> {
        self.pending@
    }

    /// A blank `width × height` grid (each side at least 1), cursor homed, no
    /// colour.
    pub fn new(width: usize, height: usize) -> (b: ScreenBuffer)
        requires
            (if width < 1 { 1 } else { width }) * (if height < 1 { 1 } else { height })
                <= usize::MAX,
        ensures
            b.wf(),
            b.term() == (Term {
                width: (if width < 1 { 1 } else { width }) as nat,
                height: (if height < 1 { 1 } else { height }) as nat,
                cells: Seq::new(
                    ((if width < 1 { 1 } else { width }) * (if height < 1 { 1 } else { height }))
                        as nat,
                    |i: int| blank_cell(),
                ),
                color: None,
                row: 0,
                col: 0,
            }),
            b.pending_bytes() == Seq::<u8>::empty(),
    {
        let width = if width < 1 { 1 } else { width };
        let height = if height < 1 { 1 } else { height };
        let f = Frame::blank(width, height);
        let b = ScreenBuffer {
            width,
            height,
            cells: f.cells,
            current_color: None,
            cursor_row: 0,
            cursor_col: 0,
            pending: Vec::new(),
        };
        assert(b.cells@ =~= Seq::new((width * height) as nat, |i: int| blank_cell()));
        b
    }

    /// The bytes held back from the last chunk.
    pub fn pending(&self) -> (p: &Vec<u8>)
        ensures
            p@ == self.pending_bytes(),
    {
        &self.pending
    }

    /// The grid as an owned frame.
    pub fn snapshot(&self) -> (f: Frame)
        requires
            self.wf(),
        ensures
            f.wf(),
            f.width == self.term().width,
            f.height == self.term().height,
            f.cells@ == self.term().cells,
    {
        let mut cells: Vec<Cell> = Vec::with_capacity(self.cells.len());
        let mut i: usize = 0;
        while i < self.cells.len()
            invariant
                i <= self.cells@.len(),
                cells@ == self.cells@.take(i as int),
            decreases self.cells@.len() - i,
        {
            cells.push(self.cells[i]);
            proof {
                assert(self.cells@.take(i + 1) =~= self.cells@.take(i as int).push(self.cells@[i as int]));
            }
            i += 1;
        }
        assert(self.cells@.take(self.cells@.len() as int) =~= self.cells@);
        Frame { width: self.width, height: self.height, cells }
    }

    fn blank_all(&mut self)
        requires
            old(self).wf(),
        ensures
            final(self).wf(),
            final(self).term() == erase_display_spec(old(self).term()),
            final(self).pending@ == old(self).pending@,
    {
        let n = self.cells.len();
        let mut i: usize = 0;
        while i < n
            invariant
                self.wf(),
                n == self.cells@.len(),
                self.width == old(self).width,
                self.height == old(self).height,
                self.current_color == old(self).current_color,
                self.cursor_row == old(self).cursor_row,
                self.cursor_col == old(self).cursor_col,
                self.pending == old(self).pending,
                i <= n,
                forall|j: int| 0 <= j < i ==> self.cells@[j] == blank_cell(),
            decreases n - i,
        {
            self.cells.set(i, Cell::blank());
            i += 1;
        }
        assert(self.cells@ =~= Seq::new(n as nat, |i: int| blank_cell()));
    }

    /// Reset the grid to all-blank and home the cursor.
    pub fn clear(&mut self)
        requires
            old(self).wf(),
        ensures
            final(self).wf(),
            final(self).term() == clear_spec(old(self).term()),
            final(self).pending_bytes() == old(self).pending_bytes(),
    {
        self.blank_all();
        self.cursor_row = 0;
        self.cursor_col = 0;
    }

    /// Centre an informational line on the middle row of an otherwise blank
    /// grid (characters past the row's end are dropped).
    pub fn show_message(&mut self, message: &str)
        requires
            old(self).wf(),
        ensures
            final(self).wf(),
            final(self).term() == message_spec(old(self).term(), message@),
            final(self).pending_bytes() == old(self).pending_bytes(),
    {
        self.clear();
        let row = self.height / 2;
        let n = message.unicode_len();
        let start = self.width.saturating_sub(n) / 2;
        let ghost before = self.cells@;
        proof {
            crate::frame::lemma_row_start(row as int, self.width as int, self.height as int);
        }
        let base = row * self.width;
        let mut i: usize = 0;
        while i < n
            invariant
                self.wf(),
                self.width == old(self).width,
                self.height == old(self).height,
                self.current_color == old(self).current_color,
                self.cursor_row == 0,
                self.cursor_col == 0,
                self.pending@ == old(self).pending@,
                n == message@.len(),
                row == self.height / 2,
                base == row * self.width,
                base + self.width <= self.cells@.len(),
                start == (if self.width >= n { self.width - n } else { 0 }) / 2,
                i <= n,
                forall|k: int|
                    0 <= k < self.cells@.len() ==> #[trigger] self.cells@[k] == (if base + start
                        <= k < base + self.width && k - base - start < i {
                        Cell { ch: message@[k - base - start], color: None }
                    } else {
                        blank_cell()
                    }),
            decreases n - i,
        {
            if start + i < self.width {
                let ch = message.get_char(i);
                self.cells.set(base + start + i, Cell::new(ch, None));
            }
            i += 1;
        }
        let ghost m = message_spec(old(self).term(), message@);
        assert forall|k: int| 0 <= k < self.cells@.len() implies self.cells@[k] == m.cells[k] by {
            assert(self.cells@[k] == (if base + start <= k < base + self.width && k - base - start < n {
                Cell { ch: message@[k - base - start], color: None }
            } else {
                blank_cell()
            }));
        }
        assert(self.cells@ =~= m.cells);
    }

    /// Write `ch` at the cursor and advance it one column.
    fn place(&mut self, ch: char)
        requires
            old(self).wf(),
        ensures
            final(self).wf(),
            final(self).term() == place_spec(old(self).term(), ch),
            final(self).pending@ == old(self).pending@,
    {
        if self.cursor_row < self.height && self.cursor_col < self.width {
            proof {
                crate::frame::lemma_index_in_grid(
                    self.cursor_col as int,
                    self.cursor_row as int,
                    self.width as int,
                    self.height as int,
                );
            }
            let i = self.cursor_row * self.width + self.cursor_col;
            self.cells.set(i, Cell::new(ch, self.current_color));
        }
        self.cursor_col = self.cursor_col.saturating_add(1);
    }

    /// `CSI mode K`.
    fn erase_line(&mut self, mode: usize)
        requires
            old(self).wf(),
        ensures
            final(self).wf(),
            final(self).term() == erase_line_spec(old(self).term(), mode as nat),
            final(self).pending@ == old(self).pending@,
    {
        if self.cursor_row >= self.height {
            return;
        }
        proof {
            crate::frame::lemma_row_start(self.cursor_row as int, self.width as int, self.height as int);
        }
        let base = self.cursor_row * self.width;
        let (lo, hi): (usize, usize) = if mode == 1 {
            (0, if self.cursor_col < self.width - 1 { self.cursor_col } else { self.width - 1 } + 1)
        } else if mode == 2 {
            (0, self.width)
        } else if self.cursor_col < self.width {
            (self.cursor_col, self.width)
        } else {
            (0, 0)
        };
        assert((lo as int, hi as int) == erase_span(old(self).term(), mode as nat));
        let mut c = lo;
        while c < hi
            invariant
                self.wf(),
                self.width == old(self).width,
                self.height == old(self).height,
                self.current_color == old(self).current_color,
                self.cursor_row == old(self).cursor_row,
                self.cursor_col == old(self).cursor_col,
                self.pending == old(self).pending,
                base == self.cursor_row * self.width,
                base + self.width <= self.cells@.len(),
                lo <= c <= hi <= self.width,
                forall|k: int|
                    0 <= k < self.cells@.len() ==> #[trigger] self.cells@[k] == (if base + lo <= k
                        < base + c {
                        blank_cell()
                    } else {
                        old(self).cells@[k]
                    }),
            decreases hi - c,
        {
            self.cells.set(base + c, Cell::blank());
            c += 1;
        }
        assert(self.cells@ =~= erase_line_spec(old(self).term(), mode as nat).cells);
    }

    /// `CSI params m`.
    fn apply_sgr(&mut self, params: &[u8])
        requires
            old(self).wf(),
        ensures
            final(self).wf(),
            final(self).term() == sgr_spec(old(self).term(), params@),
            final(self).pending@ == old(self).pending@,
    {
        if params.len() == 0 {
            self.current_color = None;
            return;
        }
        let vals = field_values_of(params);
        let mut color = self.current_color;
        let mut k: usize = 0;
        while k < vals.len()
            invariant
                k <= vals@.len(),
                sgr_from(color, vals@, k as int) == sgr_from(old(self).current_color, vals@, 0),
            decreases vals@.len() - k,
        {
            let v = vals[k];
            if v == Some(0i64) || v == Some(39i64) {
                color = None;
                k += 1;
            } else if v == Some(38i64) {
                let mode = value_at(&vals, k, 1);
                let r = value_at(&vals, k, 2);
                let g = value_at(&vals, k, 3);
                let b = value_at(&vals, k, 4);
                if mode == Some(2i64) && r.is_some() && g.is_some() && b.is_some() {
                    color = Some(
                        RgbColor::new(
                            clamp_byte(r.unwrap()),
                            clamp_byte(g.unwrap()),
                            clamp_byte(b.unwrap()),
                        ),
                    );
                }
                if vals.len() - k > 5 {
                    k += 5;
                } else {
                    k = vals.len();
                }
            } else {
                k += 1;
            }
        }
        self.current_color = color;
    }

    /// A complete CSI sequence.
    fn apply_csi(&mut self, params: &[u8], final_byte: u8)
        requires
            old(self).wf(),
        ensures
            final(self).wf(),
            final(self).term() == csi_spec(old(self).term(), params@, final_byte),
            final(self).pending@ == old(self).pending@,
    {
        if final_byte == 72 || final_byte == 102 {
            let vals = field_values_of(params);
            proof {
                crate::screen_spec::lemma_split_nonempty(params@);
            }
            let row1 = match index_value(value_at(&vals, 0, 0)) {
                Some(v) => v,
                None => 1,
            };
            let col1 = match index_value(value_at(&vals, 0, 1)) {
                Some(v) => v,
                None => 1,
            };
            let r = row1.saturating_sub(1);
            let c = col1.saturating_sub(1);
            self.cursor_row = if r < self.height - 1 { r } else { self.height - 1 };
            self.cursor_col = if c < self.width - 1 { c } else { self.width - 1 };
        } else if final_byte == 74 {
            self.blank_all();
        } else if final_byte == 75 {
            let mode = match parse_uint_field(params) {
                Some(v) => v,
                None => 0,
            };
            self.erase_line(mode);
        } else if final_byte == 109 {
            self.apply_sgr(params);
        }
    }

    /// Apply the token that starts at `buf[i]`: `None` (and no change) when it
    /// is cut off by the end of `buf`, else the number of bytes it spans.
    fn step_at(&mut self, buf: &[u8], i: usize) -> (adv: Option<usize>)
        requires
            old(self).wf(),
            i < buf@.len(),
        ensures
            final(self).wf(),
            final(self).pending@ == old(self).pending@,
            match token(old(self).term(), buf@.skip(i as int)) {
                Step::Incomplete => adv is None && final(self).term() == old(self).term(),
                Step::Advance(t2, n) => adv == Some(n as usize) && final(self).term() == t2,
            },
    {
        let ghost b = buf@.skip(i as int);
        let count = buf.len();
        let c = buf[i];
        assert(b[0] == c);
        if c == 0x1b {
            if i + 1 >= count {
                return None;
            }
            let n = buf[i + 1];
            assert(b[1] == n);
            if n == 0x5b {
                proof {
                    lemma_csi_end_shift(buf@, i as int, 2);
                    lemma_csi_end_bounds(buf@, i + 2);
                }
                match scan_csi_terminator(buf, i + 2) {
                    Some(end) => {
                        let params = &buf[i + 2..end];
                        proof {
                            assert(b.subrange(2, end - i) =~= params@);
                            assert(b[end - i] == buf@[end as int]);
                        }
                        self.apply_csi(params, buf[end]);
                        Some(end + 1 - i)
                    },
                    None => None,
                }
            } else if n == 0x5d {
                proof {
                    lemma_osc_end_shift(buf@, i as int, 2);
                    lemma_osc_end_bounds(buf@, i + 2);
                }
                match scan_osc_terminator(buf, i + 2) {
                    Some(end) => Some(end - i),
                    None => None,
                }
            } else {
                Some(2)
            }
        } else if c == 0x0a {
            self.cursor_row = self.cursor_row.saturating_add(1);
            self.cursor_col = 0;
            Some(1)
        } else if c == 0x0d {
            self.cursor_col = 0;
            Some(1)
        } else if c < 0x20 {
            Some(1)
        } else if c < 0x80 {
            self.place(c as char);
            Some(1)
        } else {
            let len = utf8_length(c);
            if len > count - i {
                return None;
            }
            let s = &buf[i..i + len];
            assert(b.take(len as int) =~= s@);
            match decode_utf8(s) {
                Some(ch) => {
                    self.place(ch);
                },
                None => {},
            }
            Some(len)
        }
    }

    /// Feed raw PTY bytes. The held-back tail of the previous chunk is resumed
    /// first; every complete token is applied; a token cut off by the end of
    /// the bytes is held back for the next call.
    pub fn feed(&mut self, bytes: &[u8])
        requires
            old(self).wf(),
        ensures
            final(self).wf(),
            (final(self).term(), final(self).pending_bytes()) == consume(
                old(self).term(),
                old(self).pending_bytes() + bytes@,
            ),
    {
        let mut buf: Vec<u8> = Vec::new();
        let mut k: usize = 0;
        while k < self.pending.len()
            invariant
                k <= self.pending@.len(),
                buf@ == self.pending@.take(k as int),
            decreases self.pending@.len() - k,
        {
            buf.push(self.pending[k]);
            proof {
                assert(self.pending@.take(k + 1) =~= self.pending@.take(k as int).push(self.pending@[k as int]));
            }
            k += 1;
        }
        let mut k: usize = 0;
        while k < bytes.len()
            invariant
                k <= bytes@.len(),
                buf@ == old(self).pending@ + bytes@.take(k as int),
                self.pending@ == old(self).pending@,
            decreases bytes@.len() - k,
        {
            proof {
                assert(self.pending@.take(self.pending@.len() as int) =~= self.pending@);
            }
            buf.push(bytes[k]);
            proof {
                assert(bytes@.take(k + 1) =~= bytes@.take(k as int).push(bytes@[k as int]));
            }
            k += 1;
        }
        assert(buf@ =~= old(self).pending@ + bytes@);
        self.pending = Vec::new();
        let ghost target = consume(self.term(), buf@);
        assert(buf@.skip(0) =~= buf@);
        let count = buf.len();
        let mut i: usize = 0;
        while i < count
            invariant
                self.wf(),
                count == buf@.len(),
                i <= count,
                consume(self.term(), buf@.skip(i as int)) == target,
                target == consume(old(self).term(), old(self).pending@ + bytes@),
                self.pending@ == Seq::<u8>::empty(),
            decreases count - i,
        {
            proof {
                lemma_token_span(self.term(), buf@.skip(i as int));
            }
            match self.step_at(buf.as_slice(), i) {
                None => {
                    let mut tail: Vec<u8> = Vec::new();
                    let mut j: usize = i;
                    while j < count
                        invariant
                            i <= j <= count,
                            count == buf@.len(),
                            tail@ == buf@.subrange(i as int, j as int),
                        decreases count - j,
                    {
                        tail.push(buf[j]);
                        proof {
                            assert(buf@.subrange(i as int, j + 1) =~= buf@.subrange(i as int, j as int).push(buf@[j as int]));
                        }
                        j += 1;
                    }
                    assert(tail@ =~= buf@.skip(i as int));
                    assert(consume(self.term(), buf@.skip(i as int)) == (self.term(), buf@.skip(i as int)));
                    self.pending = tail;
                    assert(target == (self.term(), self.pending@));
                    return;
                },
                Some(n) => {
                    proof {
                        assert(buf@.skip(i as int).skip(n as int) =~= buf@.skip(i + n));
                    }
                    i = i + n;
                },
            }
        }
        proof {
            assert(buf@.skip(i as int) =~= Seq::<u8>::empty());
        }
    }
}

} // verus!
