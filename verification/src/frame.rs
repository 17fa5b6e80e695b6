//! One rendered frame: a `width × height` grid of coloured character cells.

use vstd::prelude::*;
use crate::color::RgbColor;
use crate::text::push_char;

verus! {

/// A single character cell. `color == None` means "paint in the theme colour".
#[derive(Clone, Copy, Debug, PartialEq, Eq, Structural)]
pub struct Cell {
    pub ch: char,
    pub color: Option<RgbColor>,
}

/// The blank cell: a space in the theme colour.
pub open spec fn blank_cell() -> Cell {
    Cell { ch: ' ', color: None }
}

impl Cell {
    pub fn new(ch: char, color: Option<RgbColor>) -> (c: Cell)
        ensures
            c.ch == ch,
            c.color == color,
    {
        Cell { ch, color }
    }

    /// The blank cell (a space with no explicit colour).
    pub fn blank() -> (c: Cell)
        ensures
            c == blank_cell(),
    {
        Cell { ch: ' ', color: None }
    }
}

impl Default for Cell {
    fn default() -> (c: Cell)
        ensures
            c == blank_cell(),
    {
        Cell::blank()
    }
}

/// A row-major grid of cells; `cells.len() == width * height` when well formed.
#[derive(Clone, Debug, PartialEq, Eq)]
pub struct Frame {
    pub width: usize,
    pub height: usize,
    pub cells: Vec<Cell>,
}

/// The glyphs of row `r` of a grid of width `w`.
pub open spec fn row_chars(cells: Seq<Cell>, w: nat, r: nat) -> Seq<char> {
    Seq::new(w, |c: int| cells[(r * w + c) as int].ch)
}

/// The first `k` rows joined by newlines.
pub open spec fn rows_text(cells: Seq<Cell>, w: nat, k: nat) -> Seq<char>
    decreases k,
{
    if k == 0 {
        Seq::empty()
    } else if k == 1 {
        row_chars(cells, w, 0)
    } else {
        rows_text(cells, w, (k - 1) as nat).push('\n') + row_chars(cells, w, (k - 1) as nat)
    }
}

impl Frame {
    /// The grid holds exactly one cell per position.
    pub open spec fn wf(&self) -> bool {
        self.cells@.len() == self.width * self.height
    }

    /// Row-major index of `(x, y)`.
    pub open spec fn index_of(&self, x: int, y: int) -> int {
        y * self.width + x
    }

    /// The monochrome text view: `height` rows of glyphs joined by newlines.
    pub open spec fn text_spec(&self) -> Seq<char> {
        rows_text(self.cells@, self.width as nat, self.height as nat)
    }

    /// A frame of all-blank cells.
    pub fn blank(width: usize, height: usize) -> (f: Frame)
        requires
            width * height <= usize::MAX,
        ensures
            f.wf(),
            f.width == width,
            f.height == height,
            forall|i: int| 0 <= i < f.cells@.len() ==> f.cells@[i] == blank_cell(),
    {
        let n = width * height;
        let mut cells: Vec<Cell> = Vec::with_capacity(n);
        let mut i: usize = 0;
        while i < n
            invariant
                i <= n,
                cells@.len() == i,
                forall|j: int| 0 <= j < i ==> cells@[j] == blank_cell(),
            decreases n - i,
        {
            cells.push(Cell::blank());
            i += 1;
        }
        Frame { width, height, cells }
    }

    /// Row-major index of `(x, y)`: `y * width + x`.
    pub fn idx(&self, x: usize, y: usize) -> (i: usize)
        requires
            y * self.width + x <= usize::MAX,
        ensures
            i == self.index_of(x as int, y as int),
    {
        y * self.width + x
    }

    /// Write a cell if `(x, y)` is in bounds; out-of-bounds writes are ignored.
    pub fn set(&mut self, x: usize, y: usize, cell: Cell)
        requires
            old(self).wf(),
        ensures
            final(self).wf(),
            final(self).width == old(self).width,
            final(self).height == old(self).height,
            x < old(self).width && y < old(self).height ==> final(self).cells@ == old(
                self,
            ).cells@.update(old(self).index_of(x as int, y as int), cell),
            !(x < old(self).width && y < old(self).height) ==> final(self).cells@ == old(
                self,
            ).cells@,
    {
        let n = self.cells.len();
        if x < self.width && y < self.height {
            proof {
                lemma_index_in_grid(x as int, y as int, self.width as int, self.height as int);
            }
            let i = self.idx(x, y);
            self.cells.set(i, cell);
        }
    }

    /// Write a glyph with no explicit colour (see [`Frame::set`]).
    pub fn set_char(&mut self, x: usize, y: usize, ch: char)
        requires
            old(self).wf(),
        ensures
            final(self).wf(),
            final(self).width == old(self).width,
            final(self).height == old(self).height,
            x < old(self).width && y < old(self).height ==> final(self).cells@ == old(
                self,
            ).cells@.update(old(self).index_of(x as int, y as int), Cell { ch, color: None }),
            !(x < old(self).width && y < old(self).height) ==> final(self).cells@ == old(
                self,
            ).cells@,
    {
        self.set(x, y, Cell::new(ch, None));
    }

    /// The glyphs as `height` newline-joined rows.
    pub fn text(&self) -> (s: String)
        requires
            self.wf(),
        ensures
            s@ == self.text_spec(),
    {
        let mut out = String::new();
        let n = self.cells.len();
        let w = self.width;
        let h = self.height;
        let mut row: usize = 0;
        while row < h
            invariant
                self.wf(),
                w == self.width,
                h == self.height,
                n == self.cells@.len(),
                row <= h,
                out@ == rows_text(self.cells@, w as nat, row as nat),
            decreases h - row,
        {
            proof {
                lemma_row_start(row as int, w as int, h as int);
            }
            let start = row * w;
            if row > 0 {
                push_char(&mut out, '\n');
            }
            let ghost before = out@;
            let mut col: usize = 0;
            while col < w
                invariant
                    self.wf(),
                    w == self.width,
                    h == self.height,
                    row < h,
                    n == self.cells@.len(),
                    start == row * w,
                    start + w <= self.cells@.len(),
                    col <= w,
                    out@ == before + row_chars(self.cells@, w as nat, row as nat).take(col as int),
                decreases w - col,
            {
                push_char(&mut out, self.cells[start + col].ch);
                proof {
                    assert(row_chars(self.cells@, w as nat, row as nat).take(col + 1) =~= row_chars(
                        self.cells@,
                        w as nat,
                        row as nat,
                    ).take(col as int).push(self.cells@[start + col].ch));
                }
                col += 1;
            }
            proof {
                assert(row_chars(self.cells@, w as nat, row as nat).take(w as int) =~= row_chars(
                    self.cells@,
                    w as nat,
                    row as nat,
                ));
                if row == 0 {
                    assert(out@ =~= rows_text(self.cells@, w as nat, 1));
                }
            }
            row += 1;
        }
        out
    }
}

/// `(x, y)` inside a `w × h` grid has a row-major index below `w * h`.
pub proof fn lemma_index_in_grid(x: int, y: int, w: int, h: int)
    requires
        0 <= x < w,
        0 <= y < h,
    ensures
        0 <= y * w + x < w * h,
{
    assert(y * w + x < w * h) by (nonlinear_arith)
        requires
            0 <= x < w,
            0 <= y < h,
    ;
    assert(0 <= y * w) by (nonlinear_arith)
        requires
            0 <= y,
            0 <= w,
    ;
}

/// Row `r < h` of a `w × h` grid ends no later than the grid does.
pub proof fn lemma_row_start(r: int, w: int, h: int)
    requires
        0 <= r < h,
        0 <= w,
    ensures
        0 <= r * w,
        r * w + w <= w * h,
{
    assert(r * w + w <= w * h) by (nonlinear_arith)
        requires
            0 <= r < h,
            0 <= w,
    ;
    assert(0 <= r * w) by (nonlinear_arith)
        requires
            0 <= r,
            0 <= w,
    ;
}

} // verus!
