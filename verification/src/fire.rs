//! Doom-style fire: heat rises from an ignited bottom row, drifting with the
//! wind and cooling as it goes, and is drawn with an ASCII ramp in the
//! palette colour for each heat.

use vstd::prelude::*;
use crate::color::RgbColor;
use crate::frame::{Cell, Frame, blank_cell, lemma_index_in_grid, lemma_row_start};
use crate::rng::{SeededRng, advance_state, draw, seed_state};

verus! {

/// The hottest a cell gets.
pub const MAX_HEAT: i32 = 36;

/// The glyphs for rising heat, coolest first.
pub open spec fn ramp() -> Seq<char> {
    seq![' ', '.', '.', ':', ':', '-', '-', '=', '=', '+', '+', '+', '*', '*', '*', '#', '#', '#', '%', '%', '@', '@']
}

/// The heat the bottom row is ignited with at an intensity setting.
pub open spec fn bottom_seed(intensity: int) -> i32 {
    if intensity == 0 { 28 } else { 36 }
}

/// How much heat a rising cell loses on top of the random decay.
pub open spec fn cooling(intensity: int) -> int {
    if intensity == 0 { 2 } else if intensity == 1 { 1 } else { 0 }
}

/// Board `heat` with its bottom row set to `seed`.
pub open spec fn ignited(heat: Seq<i32>, w: int, h: int, seed: i32) -> Seq<i32> {
    Seq::new(heat.len(), |i: int| if h > 0 && (h - 1) * w <= i < h * w { seed } else { heat[i] })
}

/// Cell `(x, y)` (with `y >= 1`) sends its heat one row up, from generator
/// state `s`: a dead cell clears the cell above; a live one draws a jitter
/// `0..=3`, lands one row up shifted by `1 - jitter + wind` (clamped to the
/// board) and loses `jitter % 2 + cooling` heat. Gives the board and the
/// generator state afterwards.
pub open spec fn spread(heat: Seq<i32>, s: u64, x: int, y: int, w: int, h: int, wind: int, cool: int) -> (Seq<i32>, u64) {
    let src = y * w + x;
    let pixel = heat[src];
    if pixel <= 0 {
        (heat.update(src - w, 0), s)
    } else {
        let jitter = (draw(s) % 4) as int;
        let d0 = src - jitter + 1 + wind - w;
        let d1 = if d0 < 0 { src - w } else { d0 };
        let dst = if d1 >= w * h { w * h - 1 } else { d1 };
        let v = pixel - (jitter % 2 + cool);
        (heat.update(dst, if v < 0 { 0i32 } else { v as i32 }), advance_state(s))
    }
}

/// Rows `1..y_lim` of column `x` spread in order.
pub open spec fn column_pass(heat: Seq<i32>, s: u64, x: int, y_lim: int, w: int, h: int, wind: int, cool: int) -> (Seq<i32>, u64)
    decreases y_lim,
{
    if y_lim <= 1 {
        (heat, s)
    } else {
        let r = column_pass(heat, s, x, y_lim - 1, w, h, wind, cool);
        spread(r.0, r.1, x, y_lim - 1, w, h, wind, cool)
    }
}

/// Columns `0..x_lim` passed in order.
pub open spec fn fire_pass(heat: Seq<i32>, s: u64, x_lim: int, w: int, h: int, wind: int, cool: int) -> (Seq<i32>, u64)
    decreases x_lim,
{
    if x_lim <= 0 {
        (heat, s)
    } else {
        let r = fire_pass(heat, s, x_lim - 1, w, h, wind, cool);
        column_pass(r.0, r.1, x_lim - 1, h, w, h, wind, cool)
    }
}

/// Every heat lies in `0..=MAX_HEAT`.
pub open spec fn heat_in_range(heat: Seq<i32>) -> bool {
    forall|i: int| 0 <= i < heat.len() ==> 0 <= #[trigger] heat[i] <= 36
}

/// What a cell of the given heat shows: nothing when cold, else the ramp
/// glyph for the heat in the palette colour for it (the last colour for any
/// hotter heat).
pub open spec fn fire_cell(heat: i32, palette: Seq<RgbColor>) -> Cell {
    if heat <= 0 {
        blank_cell()
    } else {
        let r = heat * 21 / 36;
        let k = if heat < palette.len() { heat as int } else { palette.len() - 1 };
        Cell { ch: ramp()[if r < 21 { r as int } else { 21 }], color: Some(palette[k]) }
    }
}

/// The fire board: a `width × height` grid of heats, the generator, and the
/// intensity (0 calm, 1 normal, 2 inferno) and wind (a sideways drift per
/// row) settings.
pub struct FireBoard {
    pub width: usize,
    pub height: usize,
    pub heat: Vec<i32>,
    pub rng: SeededRng,
    pub intensity: i32,
    pub wind: i32,
}

impl FireBoard {
    /// The board fits in `i32` cell indices, holds no heat or one heat per
    /// cell, each within `0..=MAX_HEAT`.
    pub open spec fn wf(&self) -> bool {
        &&& self.width * self.height <= i32::MAX
        &&& (self.heat@.len() == 0 || self.heat@.len() == self.width * self.height)
        &&& heat_in_range(self.heat@)
    }

    /// A 10 × 10 board, not started, at normal intensity and no wind.
    pub fn new() -> (b: FireBoard)
        ensures
            b.wf(),
            b.width == 10,
            b.height == 10,
            b.heat@.len() == 0,
            b.rng@ == seed_state(0xF15E_0FEE),
            b.intensity == 1,
            b.wind == 0,
    {
        FireBoard { width: 10, height: 10, heat: Vec::new(), rng: SeededRng::new(0xF15E_0FEE), intensity: 1, wind: 0 }
    }

    /// Set the bottom row to the ignition heat.
    fn ignite_bottom_row(&mut self)
        requires
            old(self).wf(),
            old(self).heat@.len() == old(self).width * old(self).height,
        ensures
            final(self).wf(),
            final(self).width == old(self).width,
            final(self).height == old(self).height,
            final(self).rng == old(self).rng,
            final(self).intensity == old(self).intensity,
            final(self).wind == old(self).wind,
            final(self).heat@ == ignited(
                old(self).heat@,
                old(self).width as int,
                old(self).height as int,
                bottom_seed(old(self).intensity as int),
            ),
    {
        if self.height == 0 {
            proof {
                assert(self.heat@ =~= ignited(self.heat@, self.width as int, 0, bottom_seed(self.intensity as int)));
            }
            return;
        }
        let ghost h0 = self.heat@;
        let w = self.width;
        let h = self.height;
        proof {
            lemma_row_start((h - 1) as int, w as int, h as int);
            assert((h - 1) * w + w == w * h && w * h == h * w) by (nonlinear_arith)
                requires
                    h >= 1,
            ;
        }
        let base = (h - 1) * w;
        let seed: i32 = if self.intensity == 0 { 28 } else { 36 };
        let mut x: usize = 0;
        while x < w
            invariant
                w == self.width,
                h == self.height,
                h >= 1,
                base == (h - 1) * w,
                base + w == w * h,
                self.heat@.len() == w * h,
                h0.len() == w * h,
                self.width * self.height <= i32::MAX,
                seed == bottom_seed(self.intensity as int),
                self.rng == old(self).rng,
                self.intensity == old(self).intensity,
                self.wind == old(self).wind,
                x <= w,
                forall|i: int| 0 <= i < h0.len() ==> #[trigger] self.heat@[i] == if base <= i < base + x { seed } else { h0[i] },
                heat_in_range(h0),
            decreases w - x,
        {
            self.heat.set(base + x, seed);
            x += 1;
        }
        proof {
            assert(self.heat@ =~= ignited(h0, w as int, h as int, seed));
        }
    }
}

} // verus!

verus! {

impl FireBoard {
    /// Spread cell `(x, y)` one row up (see [`spread`]).
    fn spread_cell(&mut self, x: usize, y: usize, cool: i32)
        requires
            old(self).wf(),
            old(self).heat@.len() == old(self).width * old(self).height,
            x < old(self).width,
            1 <= y < old(self).height,
            0 <= cool <= 2,
        ensures
            final(self).wf(),
            final(self).heat@.len() == old(self).heat@.len(),
            final(self).width == old(self).width,
            final(self).height == old(self).height,
            final(self).intensity == old(self).intensity,
            final(self).wind == old(self).wind,
            (final(self).heat@, final(self).rng@) == spread(
                old(self).heat@,
                old(self).rng@,
                x as int,
                y as int,
                old(self).width as int,
                old(self).height as int,
                old(self).wind as int,
                cool as int,
            ),
    {
        let w = self.width;
        let h = self.height;
        proof {
            lemma_index_in_grid(x as int, y as int, w as int, h as int);
            lemma_index_in_grid(x as int, (y - 1) as int, w as int, h as int);
            assert((y - 1) * w + x == y * w + x - w) by (nonlinear_arith);
        }
        let len = self.heat.len();
        let src = y * w + x;
        let pixel = self.heat[src];
        if pixel <= 0 {
            self.heat.set(src - w, 0);
            return;
        }
        let jitter = self.rng.next_range_inclusive(0, 3);
        let size = (w * h) as i64;
        let mut dst: i64 = src as i64 - jitter + 1 + self.wind as i64 - w as i64;
        if dst < 0 {
            dst = src as i64 - w as i64;
        }
        if dst >= size {
            dst = size - 1;
        }
        let v = pixel - (jitter % 2) as i32 - cool;
        self.heat.set(dst as usize, if v < 0 { 0 } else { v });
    }

    /// One fire step: ignite the bottom row, then spread every cell above it
    /// one row up, column by column.
    pub fn step(&mut self)
        requires
            old(self).wf(),
            old(self).heat@.len() == old(self).width * old(self).height,
        ensures
            final(self).wf(),
            final(self).heat@.len() == old(self).heat@.len(),
            final(self).width == old(self).width,
            final(self).height == old(self).height,
            final(self).intensity == old(self).intensity,
            final(self).wind == old(self).wind,
            (final(self).heat@, final(self).rng@) == fire_pass(
                ignited(old(self).heat@, old(self).width as int, old(self).height as int, bottom_seed(old(self).intensity as int)),
                old(self).rng@,
                old(self).width as int,
                old(self).width as int,
                old(self).height as int,
                old(self).wind as int,
                cooling(old(self).intensity as int),
            ),
    {
        self.ignite_bottom_row();
        let ghost start = (self.heat@, self.rng@);
        let w = self.width;
        let h = self.height;
        let cool: i32 = if self.intensity == 0 { 2 } else if self.intensity == 1 { 1 } else { 0 };
        let mut x: usize = 0;
        while x < w
            invariant
                self.wf(),
                self.heat@.len() == w * h,
                w == self.width,
                h == self.height,
                self.intensity == old(self).intensity,
                self.wind == old(self).wind,
                cool == cooling(self.intensity as int),
                x <= w,
                (self.heat@, self.rng@) == fire_pass(start.0, start.1, x as int, w as int, h as int, self.wind as int, cool as int),
            decreases w - x,
        {
            let mut y: usize = 1;
            while y < h
                invariant
                    self.wf(),
                    self.heat@.len() == w * h,
                    w == self.width,
                    h == self.height,
                    self.intensity == old(self).intensity,
                    self.wind == old(self).wind,
                    cool == cooling(self.intensity as int),
                    x < w,
                    1 <= y,
                    y <= h || y == 1,
                    (self.heat@, self.rng@) == column_pass(
                        fire_pass(start.0, start.1, x as int, w as int, h as int, self.wind as int, cool as int).0,
                        fire_pass(start.0, start.1, x as int, w as int, h as int, self.wind as int, cool as int).1,
                        x as int,
                        y as int,
                        w as int,
                        h as int,
                        self.wind as int,
                        cool as int,
                    ),
                decreases h - y,
            {
                self.spread_cell(x, y, cool);
                y += 1;
            }
            proof {
                let prev = fire_pass(start.0, start.1, x as int, w as int, h as int, self.wind as int, cool as int);
                if h == 0 {
                    assert(column_pass(prev.0, prev.1, x as int, y as int, w as int, h as int, self.wind as int, cool as int) == (prev.0, prev.1));
                }
            }
            x += 1;
        }
    }

    /// The heats as a frame: each warm cell shows its ramp glyph in the
    /// palette colour for its heat.
    pub fn render(&self, palette: &Vec<RgbColor>) -> (f: Frame)
        requires
            self.wf(),
            self.heat@.len() == self.width * self.height,
            palette@.len() >= 1,
        ensures
            f.wf(),
            f.width == self.width,
            f.height == self.height,
            forall|i: int| 0 <= i < f.cells@.len() ==> #[trigger] f.cells@[i] == fire_cell(self.heat@[i], palette@),
    {
        let glyphs: Vec<char> = vec![
            ' ', '.', '.', ':', ':', '-', '-', '=', '=', '+', '+', '+', '*', '*', '*', '#', '#', '#', '%', '%', '@', '@'
        ];
        proof {
            assert(glyphs@ =~= ramp());
        }
        let n = self.heat.len();
        let mut cells: Vec<Cell> = Vec::with_capacity(n);
        let mut i: usize = 0;
        while i < n
            invariant
                self.wf(),
                n == self.heat@.len(),
                glyphs@ == ramp(),
                palette@.len() >= 1,
                i <= n,
                cells@.len() == i,
                forall|j: int| 0 <= j < i ==> #[trigger] cells@[j] == fire_cell(self.heat@[j], palette@),
            decreases n - i,
        {
            let heat = self.heat[i];
            if heat <= 0 {
                cells.push(Cell::blank());
            } else {
                let r = (heat as usize) * 21 / 36;
                let ri = if r < 21 { r } else { 21 };
                let k = if (heat as usize) < palette.len() { heat as usize } else { palette.len() - 1 };
                cells.push(Cell::new(glyphs[ri], Some(palette[k])));
            }
            i += 1;
        }
        Frame { width: self.width, height: self.height, cells }
    }

    /// Restart: all cold, bottom row ignited.
    fn reset(&mut self)
        requires
            old(self).width * old(self).height <= i32::MAX,
        ensures
            final(self).wf(),
            final(self).heat@.len() == old(self).width * old(self).height,
            final(self).width == old(self).width,
            final(self).height == old(self).height,
            final(self).intensity == old(self).intensity,
            final(self).wind == old(self).wind,
            final(self).rng == old(self).rng,
            final(self).heat@ == ignited(
                Seq::new((old(self).width * old(self).height) as nat, |i: int| 0i32),
                old(self).width as int,
                old(self).height as int,
                bottom_seed(old(self).intensity as int),
            ),
    {
        let n = self.width * self.height;
        let mut heat: Vec<i32> = Vec::with_capacity(n);
        let mut i: usize = 0;
        while i < n
            invariant
                i <= n,
                heat@ == Seq::new(i as nat, |j: int| 0i32),
            decreases n - i,
        {
            heat.push(0);
            i += 1;
        }
        self.heat = heat;
        self.ignite_bottom_row();
    }

    /// Resize to a `width × height` grid and restart; zero sizes, and the
    /// current size once started, are ignored.
    pub fn set_grid(&mut self, width: usize, height: usize)
        requires
            old(self).wf(),
            width * height <= i32::MAX,
        ensures
            final(self).wf(),
            (width == 0 || height == 0 || (width == old(self).width && height == old(self).height
                && old(self).heat@.len() > 0)) ==> *final(self) == *old(self),
            !(width == 0 || height == 0 || (width == old(self).width && height == old(self).height
                && old(self).heat@.len() > 0)) ==> {
                &&& final(self).width == width
                &&& final(self).height == height
                &&& final(self).intensity == old(self).intensity
                &&& final(self).wind == old(self).wind
                &&& final(self).rng == old(self).rng
                &&& final(self).heat@ == ignited(
                    Seq::new((width * height) as nat, |i: int| 0i32),
                    width as int,
                    height as int,
                    bottom_seed(old(self).intensity as int),
                )
            },
    {
        if width == 0 || height == 0 {
            return;
        }
        if width == self.width && height == self.height && self.heat.len() > 0 {
            return;
        }
        self.width = width;
        self.height = height;
        self.reset();
    }

    /// Start the board if its heats do not match its size.
    pub fn ensure_started(&mut self)
        requires
            old(self).wf(),
        ensures
            final(self).wf(),
            final(self).width == old(self).width,
            final(self).height == old(self).height,
            final(self).intensity == old(self).intensity,
            final(self).wind == old(self).wind,
            final(self).rng == old(self).rng,
            old(self).heat@.len() == old(self).width * old(self).height ==> *final(self) == *old(self),
            old(self).heat@.len() != old(self).width * old(self).height ==> final(self).heat@ == ignited(
                Seq::new((old(self).width * old(self).height) as nat, |i: int| 0i32),
                old(self).width as int,
                old(self).height as int,
                bottom_seed(old(self).intensity as int),
            ),
            final(self).heat@.len() == final(self).width * final(self).height,
    {
        if self.heat.len() != self.width * self.height {
            self.reset();
        }
    }
}

} // verus!

verus! {

/// Where rising heat lands follows the wind: heat from a burning cell
/// `(x, y)` with jitter `j` lands at `(x + 1 - j + wind, y - 1)` (as a
/// row-major index, when that stays on the board), with the same heat and
/// generator state whatever the wind, so one more unit of wind moves the
/// landing cell exactly one index further on.
pub proof fn lemma_wind_moves_landing(
    heat: Seq<i32>,
    s: u64,
    x: int,
    y: int,
    w: int,
    h: int,
    wind: int,
    cool: int,
)
    requires
        0 <= x < w,
        1 <= y < h,
        heat.len() == w * h,
        heat[y * w + x] > 0,
        0 <= y * w + x - w + 1 - (draw(s) % 4) as int + wind,
        y * w + x - w + 1 - (draw(s) % 4) as int + wind + 1 < w * h,
    ensures
        ({
            let d = y * w + x - w + 1 - (draw(s) % 4) as int + wind;
            let calm = spread(heat, s, x, y, w, h, wind, cool);
            let windy = spread(heat, s, x, y, w, h, wind + 1, cool);
            exists|v: i32|
                calm.0 == heat.update(d, v) && windy.0 == heat.update(d + 1, v) && calm.1 == windy.1
                    && calm.1 == advance_state(s)
        }),
{
    let src = y * w + x;
    let jitter = (draw(s) % 4) as int;
    let pixel = heat[src];
    let v0 = pixel - (jitter % 2 + cool);
    let v: i32 = if v0 < 0 { 0i32 } else { v0 as i32 };
    let d = src - w + 1 - jitter + wind;
    assert(spread(heat, s, x, y, w, h, wind, cool).0 == heat.update(d, v));
    assert(spread(heat, s, x, y, w, h, wind + 1, cool).0 == heat.update(d + 1, v));
}

} // verus!
