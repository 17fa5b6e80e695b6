//! The "pipes" screensaver: coloured pipes crawl over the grid, mostly going
//! straight and sometimes turning, leaving box-drawing segments behind, and
//! the board restarts once more than 55% of it is filled.

use vstd::prelude::*;
use crate::color::RgbColor;
use crate::frame::{Cell, Frame, lemma_index_in_grid};
use crate::rng::{SeededRng, advance_state, draw, seed_state};

verus! {

/// Column step of each direction (up, right, down, left).
pub open spec fn dx(d: int) -> int {
    if d == 1 { 1 } else if d == 3 { -1 } else { 0 }
}

/// Row step of each direction (up, right, down, left).
pub open spec fn dy(d: int) -> int {
    if d == 0 { -1 } else if d == 2 { 1 } else { 0 }
}

/// The glyph joining a pipe that enters from side `a` and leaves by side `b`
/// (sides numbered up, right, down, left).
pub open spec fn connector_spec(a: int, b: int) -> char {
    if a == b {
        if a % 2 == 0 { '│' } else { '─' }
    } else {
        let lo = if a < b { a } else { b };
        let hi = if a < b { b } else { a };
        if lo == 0 && hi == 2 {
            '│'
        } else if lo == 1 && hi == 3 {
            '─'
        } else if lo == 1 && hi == 2 {
            '┌'
        } else if lo == 2 && hi == 3 {
            '┐'
        } else if lo == 0 && hi == 1 {
            '└'
        } else if lo == 0 && hi == 3 {
            '┘'
        } else {
            '+'
        }
    }
}

/// The glyph joining side `a` to side `b`.
pub fn connector(a: usize, b: usize) -> (c: char)
    ensures
        c == connector_spec(a as int, b as int),
{
    if a == b {
        return if a % 2 == 0 { '│' } else { '─' };
    }
    let lo = if a < b { a } else { b };
    let hi = if a < b { b } else { a };
    if lo == 0 && hi == 2 {
        '│'
    } else if lo == 1 && hi == 3 {
        '─'
    } else if lo == 1 && hi == 2 {
        '┌'
    } else if lo == 2 && hi == 3 {
        '┐'
    } else if lo == 0 && hi == 1 {
        '└'
    } else if lo == 0 && hi == 3 {
        '┘'
    } else {
        '+'
    }
}

/// A draw below this value (in its top 53 bits) turns the pipe: the 53-bit
/// fixed-point form of the turn probability 0.18.
pub const TURN_THRESHOLD: u64 = 1_621_295_865_853_379;

/// Whether the draw from state `s` makes the pipe turn.
pub open spec fn turns(s: u64) -> bool {
    (draw(s) >> 11u64) < TURN_THRESHOLD
}

/// `(x, y)` lies on a `w × h` grid.
pub open spec fn in_grid(x: int, y: int, w: int, h: int) -> bool {
    0 <= x < w && 0 <= y < h
}

/// The first of the candidate directions (`preferred`, then right of `dir`,
/// left of `dir`, straight on, back) whose next cell is on the grid; `dir`
/// if none is.
pub open spec fn open_dir(x: int, y: int, dir: int, preferred: int, w: int, h: int) -> int {
    let cands = seq![preferred, (dir + 1) % 4, (dir + 3) % 4, dir, (dir + 2) % 4];
    if in_grid(x + dx(cands[0]), y + dy(cands[0]), w, h) {
        cands[0]
    } else if in_grid(x + dx(cands[1]), y + dy(cands[1]), w, h) {
        cands[1]
    } else if in_grid(x + dx(cands[2]), y + dy(cands[2]), w, h) {
        cands[2]
    } else if in_grid(x + dx(cands[3]), y + dy(cands[3]), w, h) {
        cands[3]
    } else if in_grid(x + dx(cands[4]), y + dy(cands[4]), w, h) {
        cands[4]
    } else {
        dir
    }
}

/// Whether a glyph counts as filled.
pub open spec fn is_filled(c: char) -> int {
    if c == ' ' { 0 } else { 1 }
}

/// How many cells of `g` are filled.
pub open spec fn filled_count(g: Seq<char>) -> int
    decreases g.len(),
{
    if g.len() == 0 {
        0
    } else {
        filled_count(g.drop_last()) + is_filled(g.last())
    }
}

} // verus!

verus! {

/// One pipe: its head cell, heading (0 up, 1 right, 2 down, 3 left) and colour.
#[derive(Clone, Copy, Debug, PartialEq, Eq, Structural)]
pub struct Pipe {
    pub x: i64,
    pub y: i64,
    pub dir: usize,
    pub color: RgbColor,
}

/// The pipe heads a cell of the `w × h` grid with a valid heading.
pub open spec fn pipe_ok(p: Pipe, w: int, h: int) -> bool {
    in_grid(p.x as int, p.y as int, w, h) && p.dir < 4
}

/// The hue palette entry for hue cursor `cursor`: hues advance 47° a step.
pub open spec fn hue_color(hues: Seq<RgbColor>, cursor: u32) -> RgbColor {
    hues[(cursor as int * 47) % 360]
}

/// A pipe spawned in `color` from generator state `s` on a `w × h` grid: a
/// random cell and heading. Gives the pipe and the state after the draws.
pub open spec fn spawn_spec(s: u64, w: int, h: int, color: RgbColor) -> (Pipe, u64) {
    let x = draw(s) % ((if w < 1 { 1 } else { w }) as u64);
    let s1 = advance_state(s);
    let y = draw(s1) % ((if h < 1 { 1 } else { h }) as u64);
    let s2 = advance_state(s1);
    let d = draw(s2) % 4;
    let s3 = advance_state(s2);
    (Pipe { x: x as i64, y: y as i64, dir: d as usize, color }, s3)
}

/// `n` pipes spawned in fresh hues. Gives the pipes, the generator state and
/// the hue cursor afterwards.
pub open spec fn spawn_all(s: u64, hue: u32, n: nat, w: int, h: int, hues: Seq<RgbColor>) -> (Seq<Pipe>, u64, u32)
    decreases n,
{
    if n == 0 {
        (Seq::empty(), s, hue)
    } else {
        let r = spawn_all(s, hue, (n - 1) as nat, w, h, hues);
        let sp = spawn_spec(r.1, w, h, hue_color(hues, r.2));
        (r.0.push(sp.0), sp.1, vstd::wrapping::u32_specs::wrapping_add(r.2, 1u32))
    }
}

/// The board after pipe `p` crawls one cell, from generator state `s`: it
/// may turn (a 0.18 chance, then left or right on a coin flip), takes the
/// first open direction, draws the joining glyph in its colour on its cell,
/// and moves on, or respawns elsewhere if it is boxed in at the edge.
/// Gives the grid, colours, filled count, generator state and the pipe.
pub open spec fn advance_spec(
    w: int,
    h: int,
    grid: Seq<char>,
    colors: Seq<Option<RgbColor>>,
    filled: int,
    s: u64,
    p: Pipe,
) -> (Seq<char>, Seq<Option<RgbColor>>, int, u64, Pipe) {
    let dir = p.dir as int;
    let s1 = advance_state(s);
    let preferred = if turns(s) {
        if draw(s1) & 1 == 1 { (dir + 1) % 4 } else { (dir + 3) % 4 }
    } else {
        dir
    };
    let s2 = if turns(s) { advance_state(s1) } else { s1 };
    let nd = open_dir(p.x as int, p.y as int, dir, preferred, w, h);
    let idx = p.y * w + p.x;
    let grid2 = grid.update(idx, connector_spec((dir + 2) % 4, nd));
    let colors2 = colors.update(idx, Some(p.color));
    let filled2 = filled + (if grid[idx] == ' ' { 1int } else { 0 });
    let (nx, ny) = (p.x + dx(nd), p.y + dy(nd));
    if in_grid(nx, ny, w, h) {
        (grid2, colors2, filled2, s2, Pipe { x: nx as i64, y: ny as i64, dir: nd as usize, color: p.color })
    } else {
        let sp = spawn_spec(s2, w, h, p.color);
        (grid2, colors2, filled2, sp.1, Pipe { dir: nd as usize, ..sp.0 })
    }
}

/// The first `k` pipes advanced in order.
pub open spec fn advance_all(
    w: int,
    h: int,
    grid: Seq<char>,
    colors: Seq<Option<RgbColor>>,
    filled: int,
    s: u64,
    pipes: Seq<Pipe>,
    k: nat,
) -> (Seq<char>, Seq<Option<RgbColor>>, int, u64, Seq<Pipe>)
    decreases k,
{
    if k == 0 {
        (grid, colors, filled, s, pipes)
    } else {
        let r = advance_all(w, h, grid, colors, filled, s, pipes, (k - 1) as nat);
        let a = advance_spec(w, h, r.0, r.1, r.2, r.3, r.4[k - 1]);
        (a.0, a.1, a.2, a.3, r.4.update(k - 1, a.4))
    }
}

/// A grid of `n` empty cells.
pub open spec fn empty_grid(n: int) -> Seq<char> {
    Seq::new(n as nat, |i: int| ' ')
}

/// `n` uncoloured cells.
pub open spec fn no_colors(n: int) -> Seq<Option<RgbColor>> {
    Seq::new(n as nat, |i: int| None)
}

/// The generator seed a board of `size` cells restarts from.
pub open spec fn board_seed(size: int) -> u64 {
    0xC0FFEEu64 ^ vstd::wrapping::u64_specs::wrapping_mul(size as u64, 2654435761u64)
}

/// Replacing cell `i` of a grid changes the filled count by the difference.
proof fn lemma_filled_update(g: Seq<char>, i: int, c: char)
    requires
        0 <= i < g.len(),
    ensures
        filled_count(g.update(i, c)) == filled_count(g) - is_filled(g[i]) + is_filled(c),
    decreases g.len(),
{
    if i < g.len() - 1 {
        lemma_filled_update(g.drop_last(), i, c);
        assert(g.update(i, c).drop_last() =~= g.drop_last().update(i, c));
    } else {
        assert(g.update(i, c).drop_last() =~= g.drop_last());
    }
}

/// The filled count is at most the grid size.
proof fn lemma_filled_bounds(g: Seq<char>)
    ensures
        0 <= filled_count(g) <= g.len(),
    decreases g.len(),
{
    if g.len() > 0 {
        lemma_filled_bounds(g.drop_last());
    }
}

/// An empty grid has nothing filled.
proof fn lemma_filled_empty(n: int)
    requires
        0 <= n,
    ensures
        filled_count(empty_grid(n)) == 0,
    decreases n,
{
    if n > 0 {
        assert(empty_grid(n).drop_last() =~= empty_grid(n - 1));
        lemma_filled_empty(n - 1);
    }
}

} // verus!

verus! {

/// The pipes board: a `width × height` grid of glyphs and colours, the
/// crawling pipes, how many cells are filled, the hue cursor, the generator,
/// how many pipes a restart spawns, and the 360-entry hue palette
/// (`hues[d]` is the colour at hue `d` degrees).
pub struct PipesBoard {
    pub width: usize,
    pub height: usize,
    pub grid: Vec<char>,
    pub colors: Vec<Option<RgbColor>>,
    pub pipes: Vec<Pipe>,
    pub filled: usize,
    pub hue_cursor: u32,
    pub rng: SeededRng,
    pub pipe_count: usize,
    pub hues: Vec<RgbColor>,
}

/// `r` is the board restarted at `w × h` with `count` pipes, the hue cursor
/// at `cursor` and the hue table `hues`: a fresh generator for the size,
/// an empty grid and the restart's pipes.
pub open spec fn restart_of(w: usize, h: usize, count: usize, cursor: u32, hues: Seq<RgbColor>, r: PipesBoard) -> bool {
    &&& r.width == w
    &&& r.height == h
    &&& r.pipe_count == count
    &&& r.hues@ == hues
    &&& r.grid@ == empty_grid(w * h)
    &&& r.colors@ == no_colors(w * h)
    &&& r.filled == 0
    &&& (r.pipes@, r.rng@, r.hue_cursor) == spawn_all(
        seed_state(board_seed(w * h)),
        cursor,
        count as nat,
        w as int,
        h as int,
        hues,
    )
}

impl PipesBoard {
    /// Grid and colours agree in size, which is 0 (not started) or one per
    /// cell; on a started board every pipe heads a cell of the grid; the
    /// filled count is the number of non-blank glyphs.
    pub open spec fn wf(&self) -> bool {
        &&& self.width * self.height * 55 <= usize::MAX
        &&& self.width <= i64::MAX
        &&& self.height <= i64::MAX
        &&& self.colors@.len() == self.grid@.len()
        &&& (self.grid@.len() == 0 || self.grid@.len() == self.width * self.height)
        &&& self.filled == filled_count(self.grid@)
        &&& self.hues@.len() == 360
        &&& (self.grid@.len() == self.width * self.height && self.grid@.len() > 0) ==> forall|k: int|
            0 <= k < self.pipes@.len() ==> #[trigger] pipe_ok(self.pipes@[k], self.width as int, self.height as int)
    }

    /// A 10 × 10 board, not yet started, with four pipes per restart.
    pub fn new(hues: Vec<RgbColor>) -> (b: PipesBoard)
        requires
            hues@.len() == 360,
        ensures
            b.wf(),
            b.width == 10,
            b.height == 10,
            b.grid@.len() == 0,
            b.pipes@.len() == 0,
            b.hue_cursor == 0,
            b.pipe_count == 4,
            b.hues@ == hues@,
            b.rng@ == seed_state(0xC0FFEE),
    {
        PipesBoard {
            width: 10,
            height: 10,
            grid: Vec::new(),
            colors: Vec::new(),
            pipes: Vec::new(),
            filled: 0,
            hue_cursor: 0,
            rng: SeededRng::new(0xC0FFEE),
            pipe_count: 4,
            hues,
        }
    }

    /// Whether `(x, y)` is on the grid.
    fn in_bounds(&self, x: i64, y: i64) -> (r: bool)
        requires
            self.width <= i64::MAX,
            self.height <= i64::MAX,
        ensures
            r == in_grid(x as int, y as int, self.width as int, self.height as int),
    {
        x >= 0 && x < self.width as i64 && y >= 0 && y < self.height as i64
    }

    /// The next hue of the palette.
    fn next_hue(&mut self) -> (c: RgbColor)
        requires
            old(self).hues@.len() == 360,
        ensures
            c == hue_color(old(self).hues@, old(self).hue_cursor),
            final(self).hue_cursor == vstd::wrapping::u32_specs::wrapping_add(old(self).hue_cursor, 1u32),
            final(self).width == old(self).width,
            final(self).height == old(self).height,
            final(self).grid == old(self).grid,
            final(self).colors == old(self).colors,
            final(self).pipes == old(self).pipes,
            final(self).filled == old(self).filled,
            final(self).rng == old(self).rng,
            final(self).pipe_count == old(self).pipe_count,
            final(self).hues == old(self).hues,
    {
        let k = ((self.hue_cursor as u64) * 47 % 360) as usize;
        self.hue_cursor = self.hue_cursor.wrapping_add(1);
        self.hues[k]
    }

    /// A pipe in `color` at a random cell and heading.
    fn spawn_pipe(&mut self, color: RgbColor) -> (p: Pipe)
        requires
            old(self).width <= i64::MAX,
            old(self).height <= i64::MAX,
        ensures
            (p, final(self).rng@) == spawn_spec(old(self).rng@, old(self).width as int, old(self).height as int, color),
            in_grid(p.x as int, p.y as int, old(self).width as int, old(self).height as int) || old(self).width == 0
                || old(self).height == 0,
            p.dir < 4,
            final(self).width == old(self).width,
            final(self).height == old(self).height,
            final(self).grid == old(self).grid,
            final(self).colors == old(self).colors,
            final(self).pipes == old(self).pipes,
            final(self).filled == old(self).filled,
            final(self).hue_cursor == old(self).hue_cursor,
            final(self).pipe_count == old(self).pipe_count,
            final(self).hues == old(self).hues,
    {
        let wm = if self.width < 1 { 1 } else { self.width };
        let hm = if self.height < 1 { 1 } else { self.height };
        let x = self.rng.next_below(wm) as i64;
        let y = self.rng.next_below(hm) as i64;
        let dir = self.rng.next_below(4);
        Pipe { x, y, dir, color }
    }

    /// Spawn the restart's pipes in fresh hues.
    fn spawn_all_pipes(&mut self) -> (ps: Vec<Pipe>)
        requires
            old(self).width <= i64::MAX,
            old(self).height <= i64::MAX,
            old(self).hues@.len() == 360,
        ensures
            (ps@, final(self).rng@, final(self).hue_cursor) == spawn_all(
                old(self).rng@,
                old(self).hue_cursor,
                old(self).pipe_count as nat,
                old(self).width as int,
                old(self).height as int,
                old(self).hues@,
            ),
            final(self).width == old(self).width,
            final(self).height == old(self).height,
            final(self).grid == old(self).grid,
            final(self).colors == old(self).colors,
            final(self).pipes == old(self).pipes,
            final(self).filled == old(self).filled,
            final(self).pipe_count == old(self).pipe_count,
            final(self).hues == old(self).hues,
    {
        let n = self.pipe_count;
        let mut ps: Vec<Pipe> = Vec::with_capacity(n);
        let mut i: usize = 0;
        while i < n
            invariant
                n == self.pipe_count,
                self.width == old(self).width,
                self.height == old(self).height,
                self.grid == old(self).grid,
                self.colors == old(self).colors,
                self.pipes == old(self).pipes,
                self.filled == old(self).filled,
                self.pipe_count == old(self).pipe_count,
                self.hues == old(self).hues,
                self.width <= i64::MAX,
                self.height <= i64::MAX,
                self.hues@.len() == 360,
                i <= n,
                (ps@, self.rng@, self.hue_cursor) == spawn_all(
                    old(self).rng@,
                    old(self).hue_cursor,
                    i as nat,
                    old(self).width as int,
                    old(self).height as int,
                    old(self).hues@,
                ),
            decreases n - i,
        {
            let c = self.next_hue();
            let p = self.spawn_pipe(c);
            ps.push(p);
            i += 1;
        }
        ps
    }

    /// Restart: a fresh generator for this board size, an empty grid and the
    /// restart's pipes.
    fn reset(&mut self)
        requires
            old(self).width * old(self).height * 55 <= usize::MAX,
            old(self).width <= i64::MAX,
            old(self).height <= i64::MAX,
            old(self).hues@.len() == 360,
        ensures
            final(self).wf(),
            final(self).hues == old(self).hues,
            restart_of(
                old(self).width,
                old(self).height,
                old(self).pipe_count,
                old(self).hue_cursor,
                old(self).hues@,
                *final(self),
            ),
    {
        let size = self.width * self.height;
        self.rng = SeededRng::new(0xC0FFEE ^ (size as u64).wrapping_mul(2654435761));
        self.grid = spaces(size);
        self.colors = uncoloured(size);
        self.filled = 0;
        proof {
            lemma_filled_empty(size as int);
        }
        self.pipes = self.spawn_all_pipes();
        proof {
            if size > 0 {
                assert(self.width >= 1 && self.height >= 1) by (nonlinear_arith)
                    requires
                        self.width * self.height == size,
                        size > 0,
                ;
                lemma_spawn_all_in_grid(
                    seed_state(board_seed(size as int)),
                    old(self).hue_cursor,
                    self.pipe_count as nat,
                    self.width as int,
                    self.height as int,
                    self.hues@,
                );
            }
        }
    }
}

/// Spawned pipes head cells of the grid.
proof fn lemma_spawn_all_in_grid(s: u64, hue: u32, n: nat, w: int, h: int, hues: Seq<RgbColor>)
    requires
        1 <= w <= i64::MAX,
        1 <= h <= i64::MAX,
    ensures
        spawn_all(s, hue, n, w, h, hues).0.len() == n,
        forall|k: int| 0 <= k < n ==> #[trigger] pipe_ok(spawn_all(s, hue, n, w, h, hues).0[k], w, h),
    decreases n,
{
    if n > 0 {
        lemma_spawn_all_in_grid(s, hue, (n - 1) as nat, w, h, hues);
        let r = spawn_all(s, hue, (n - 1) as nat, w, h, hues);
        let sp = spawn_spec(r.1, w, h, hue_color(hues, r.2));
        vstd::arithmetic::div_mod::lemma_mod_pos_bound(draw(r.1) as int, w);
        vstd::arithmetic::div_mod::lemma_mod_pos_bound(draw(advance_state(r.1)) as int, h);
        let xv = draw(r.1) % (w as u64);
        assert(xv < w);
        assert(sp.0.x as int == xv as int);
        assert(in_grid(sp.0.x as int, sp.0.y as int, w, h));
        assert(spawn_all(s, hue, n, w, h, hues).0 == r.0.push(sp.0));
        assert forall|k: int| 0 <= k < n implies #[trigger] pipe_ok(spawn_all(s, hue, n, w, h, hues).0[k], w, h) by {
            if k < n - 1 {
                assert(spawn_all(s, hue, n, w, h, hues).0[k] == r.0[k]);
            }
        }
    }
}

/// `n` blank glyphs.
fn spaces(n: usize) -> (v: Vec<char>)
    ensures
        v@ == empty_grid(n as int),
{
    let mut v: Vec<char> = Vec::with_capacity(n);
    let mut i: usize = 0;
    while i < n
        invariant
            i <= n,
            v@ == empty_grid(i as int),
        decreases n - i,
    {
        v.push(' ');
        proof {
            assert(v@ =~= empty_grid(i + 1));
        }
        i += 1;
    }
    v
}

/// `n` cells with no colour.
fn uncoloured(n: usize) -> (v: Vec<Option<RgbColor>>)
    ensures
        v@ == no_colors(n as int),
{
    let mut v: Vec<Option<RgbColor>> = Vec::with_capacity(n);
    let mut i: usize = 0;
    while i < n
        invariant
            i <= n,
            v@ == no_colors(i as int),
        decreases n - i,
    {
        v.push(None);
        proof {
            assert(v@ =~= no_colors(i + 1));
        }
        i += 1;
    }
    v
}

} // verus!

verus! {

/// Column step of heading `d`.
fn step_x(d: usize) -> (r: i64)
    ensures
        r == dx(d as int),
{
    if d == 1 { 1 } else if d == 3 { -1 } else { 0 }
}

/// Row step of heading `d`.
fn step_y(d: usize) -> (r: i64)
    ensures
        r == dy(d as int),
{
    if d == 0 { -1 } else if d == 2 { 1 } else { 0 }
}

impl PipesBoard {
    /// Crawl pipe `p` one cell (see [`advance_spec`]).
    fn advance(&mut self, p: Pipe) -> (q: Pipe)
        requires
            old(self).wf(),
            old(self).grid@.len() == old(self).width * old(self).height,
            old(self).grid@.len() > 0,
            pipe_ok(p, old(self).width as int, old(self).height as int),
        ensures
            (final(self).grid@, final(self).colors@, final(self).filled as int, final(self).rng@, q) == advance_spec(
                old(self).width as int,
                old(self).height as int,
                old(self).grid@,
                old(self).colors@,
                old(self).filled as int,
                old(self).rng@,
                p,
            ),
            pipe_ok(q, old(self).width as int, old(self).height as int),
            final(self).filled == filled_count(final(self).grid@),
            final(self).grid@.len() == old(self).grid@.len(),
            final(self).colors@.len() == old(self).colors@.len(),
            final(self).width == old(self).width,
            final(self).height == old(self).height,
            final(self).pipes == old(self).pipes,
            final(self).hue_cursor == old(self).hue_cursor,
            final(self).pipe_count == old(self).pipe_count,
            final(self).hues == old(self).hues,
    {
        let ghost w = self.width as int;
        let ghost h = self.height as int;
        proof {
            assert(self.width >= 1 && self.height >= 1) by (nonlinear_arith)
                requires
                    self.width * self.height > 0,
            ;
        }
        let turning = (self.rng.next_u64() >> 11) < TURN_THRESHOLD;
        let dir = p.dir;
        let preferred = if turning {
            if self.rng.next_bool() { (dir + 1) % 4 } else { (dir + 3) % 4 }
        } else {
            dir
        };
        let (x, y) = (p.x, p.y);
        let c1 = (dir + 1) % 4;
        let c2 = (dir + 3) % 4;
        let c4 = (dir + 2) % 4;
        let nd = if self.in_bounds(x + step_x(preferred), y + step_y(preferred)) {
            preferred
        } else if self.in_bounds(x + step_x(c1), y + step_y(c1)) {
            c1
        } else if self.in_bounds(x + step_x(c2), y + step_y(c2)) {
            c2
        } else if self.in_bounds(x + step_x(dir), y + step_y(dir)) {
            dir
        } else if self.in_bounds(x + step_x(c4), y + step_y(c4)) {
            c4
        } else {
            dir
        };
        let glyph = connector((dir + 2) % 4, nd);
        proof {
            lemma_index_in_grid(x as int, y as int, w, h);
        }
        let len = self.grid.len();
        let idx = (y as usize) * self.width + (x as usize);
        let ghost g0 = self.grid@;
        proof {
            lemma_filled_update(g0, idx as int, glyph);
            lemma_filled_bounds(g0.update(idx as int, glyph));
        }
        if self.grid[idx] == ' ' {
            self.filled += 1;
        }
        self.grid.set(idx, glyph);
        self.colors.set(idx, Some(p.color));
        let nx = x + step_x(nd);
        let ny = y + step_y(nd);
        if self.in_bounds(nx, ny) {
            Pipe { x: nx, y: ny, dir: nd, color: p.color }
        } else {
            let sp = self.spawn_pipe(p.color);
            Pipe { dir: nd, ..sp }
        }
    }

    /// Crawl every pipe one cell; once more than 55% of the grid is filled,
    /// clear it and spawn the restart's pipes in fresh hues.
    pub fn step(&mut self)
        requires
            old(self).wf(),
        ensures
            final(self).wf(),
            ({
                let (w, h) = (old(self).width as int, old(self).height as int);
                let r = advance_all(
                    w,
                    h,
                    old(self).grid@,
                    old(self).colors@,
                    old(self).filled as int,
                    old(self).rng@,
                    old(self).pipes@,
                    old(self).pipes@.len(),
                );
                if w * h == 0 || old(self).grid@.len() != w * h {
                    *final(self) == *old(self)
                } else if r.2 > w * h * 55 / 100 {
                    &&& final(self).grid@ == empty_grid(w * h)
                    &&& final(self).colors@ == no_colors(w * h)
                    &&& final(self).filled == 0
                    &&& (final(self).pipes@, final(self).rng@, final(self).hue_cursor) == spawn_all(
                        r.3,
                        old(self).hue_cursor,
                        old(self).pipe_count as nat,
                        w,
                        h,
                        old(self).hues@,
                    )
                    &&& final(self).width == old(self).width
                    &&& final(self).height == old(self).height
                    &&& final(self).pipe_count == old(self).pipe_count
                    &&& final(self).hues == old(self).hues
                } else {
                    &&& final(self).grid@ == r.0
                    &&& final(self).colors@ == r.1
                    &&& final(self).filled == r.2
                    &&& final(self).rng@ == r.3
                    &&& final(self).pipes@ == r.4
                    &&& final(self).hue_cursor == old(self).hue_cursor
                    &&& final(self).width == old(self).width
                    &&& final(self).height == old(self).height
                    &&& final(self).pipe_count == old(self).pipe_count
                    &&& final(self).hues == old(self).hues
                }
            }),
    {
        let size = self.width * self.height;
        if size == 0 || self.grid.len() != size {
            return;
        }
        let ghost w = self.width as int;
        let ghost h = self.height as int;
        let n = self.pipes.len();
        let mut i: usize = 0;
        while i < n
            invariant
                self.wf(),
                self.width == old(self).width,
                self.height == old(self).height,
                self.hue_cursor == old(self).hue_cursor,
                self.pipe_count == old(self).pipe_count,
                self.hues == old(self).hues,
                w == self.width,
                h == self.height,
                size == w * h,
                size > 0,
                self.grid@.len() == size,
                n == self.pipes@.len(),
                i <= n,
                (self.grid@, self.colors@, self.filled as int, self.rng@, self.pipes@) == advance_all(
                    w,
                    h,
                    old(self).grid@,
                    old(self).colors@,
                    old(self).filled as int,
                    old(self).rng@,
                    old(self).pipes@,
                    i as nat,
                ),
            decreases n - i,
        {
            let p = self.pipes[i];
            proof {
                assert(pipe_ok(self.pipes@[i as int], w, h));
            }
            let q = self.advance(p);
            self.pipes.set(i, q);
            proof {
                assert forall|k: int| 0 <= k < self.pipes@.len() implies #[trigger] pipe_ok(self.pipes@[k], w, h) by {
                    if k != i {
                        assert(self.pipes@[k] == old(self).pipes@[k] || true);
                    }
                }
            }
            i += 1;
        }
        if self.filled > (size * 55) / 100 {
            self.grid = spaces(size);
            self.colors = uncoloured(size);
            self.filled = 0;
            proof {
                lemma_filled_empty(size as int);
            }
            let ghost s = self.rng@;
            self.pipes = self.spawn_all_pipes();
            proof {
                assert(self.width >= 1 && self.height >= 1) by (nonlinear_arith)
                    requires
                        self.width * self.height == size,
                        size > 0,
                ;
                lemma_spawn_all_in_grid(s, old(self).hue_cursor, self.pipe_count as nat, w, h, self.hues@);
            }
        }
    }

    /// The grid as a frame: each cell's glyph and colour (a blank frame until
    /// the board is started).
    pub fn render(&self) -> (f: Frame)
        requires
            self.wf(),
        ensures
            f.wf(),
            f.width == self.width,
            f.height == self.height,
            self.grid@.len() == self.width * self.height ==> forall|i: int| 0 <= i < f.cells@.len() ==> #[trigger] f.cells@[i]
                == (Cell { ch: self.grid@[i], color: self.colors@[i] }),
            self.grid@.len() != self.width * self.height ==> forall|i: int| 0 <= i < f.cells@.len() ==> #[trigger] f.cells@[i]
                == crate::frame::blank_cell(),
    {
        let (w, h) = (self.width, self.height);
        let mut frame = Frame::blank(w, h);
        if self.grid.len() == w * h {
            let n = w * h;
            let mut i: usize = 0;
            while i < n
                invariant
                    self.wf(),
                    n == w * h,
                    w == self.width,
                    h == self.height,
                    self.grid@.len() == n,
                    frame.wf(),
                    frame.width == w,
                    frame.height == h,
                    i <= n,
                    forall|j: int| 0 <= j < i ==> #[trigger] frame.cells@[j] == (Cell { ch: self.grid@[j], color: self.colors@[j] }),
                decreases n - i,
            {
                frame.cells.set(i, Cell::new(self.grid[i], self.colors[i]));
                i += 1;
            }
        }
        frame
    }

    /// Resize to a `width × height` grid and restart; zero sizes, and the
    /// current size once started, are ignored.
    pub fn set_grid(&mut self, width: usize, height: usize)
        requires
            old(self).wf(),
            width * height * 55 <= usize::MAX,
            width <= i64::MAX,
            height <= i64::MAX,
        ensures
            final(self).wf(),
            (width == 0 || height == 0 || (width == old(self).width && height == old(self).height
                && old(self).grid@.len() > 0)) ==> *final(self) == *old(self),
            !(width == 0 || height == 0 || (width == old(self).width && height == old(self).height
                && old(self).grid@.len() > 0)) ==> restart_of(
                width,
                height,
                old(self).pipe_count,
                old(self).hue_cursor,
                old(self).hues@,
                *final(self),
            ),
    {
        if width == 0 || height == 0 {
            return;
        }
        if width == self.width && height == self.height && self.grid.len() > 0 {
            return;
        }
        self.width = width;
        self.height = height;
        self.reset();
    }

    /// Start the board if its grid does not match its size.
    pub fn ensure_started(&mut self)
        requires
            old(self).wf(),
        ensures
            final(self).wf(),
            final(self).width == old(self).width,
            final(self).height == old(self).height,
            old(self).grid@.len() == old(self).width * old(self).height ==> *final(self) == *old(self),
            old(self).grid@.len() != old(self).width * old(self).height ==> restart_of(
                old(self).width,
                old(self).height,
                old(self).pipe_count,
                old(self).hue_cursor,
                old(self).hues@,
                *final(self),
            ),
            final(self).grid@.len() == final(self).width * final(self).height,
    {
        if self.grid.len() != self.width * self.height {
            self.reset();
        }
    }

    /// Change how many pipes a restart spawns, and restart.
    pub fn set_pipe_count(&mut self, n: usize)
        requires
            old(self).wf(),
        ensures
            final(self).wf(),
            restart_of(old(self).width, old(self).height, n, old(self).hue_cursor, old(self).hues@, *final(self)),
            final(self).pipes@.len() == n,
    {
        self.pipe_count = n;
        self.reset();
        proof {
            lemma_spawn_all_len(
                seed_state(board_seed(self.width * self.height)),
                old(self).hue_cursor,
                n as nat,
                self.width as int,
                self.height as int,
                self.hues@,
            );
        }
    }
}

/// `n` spawns give `n` pipes.
proof fn lemma_spawn_all_len(s: u64, hue: u32, n: nat, w: int, h: int, hues: Seq<RgbColor>)
    ensures
        spawn_all(s, hue, n, w, h, hues).0.len() == n,
    decreases n,
{
    if n > 0 {
        lemma_spawn_all_len(s, hue, (n - 1) as nat, w, h, hues);
    }
}

} // verus!

verus! {

/// The joining glyph does not depend on which end is which.
pub proof fn lemma_connector_symmetric(a: int, b: int)
    ensures
        connector_spec(a, b) == connector_spec(b, a),
{
}

} // verus!

verus! {

/// One crawl of a pipe keeps the board sound: the pipe stays on the grid in
/// its colour, exactly its old cell is written (the glyph joining where it
/// came from to where it heads, in its colour), and the filled count stays
/// the number of non-blank cells.
pub proof fn lemma_advance_keeps_board(
    w: int,
    h: int,
    grid: Seq<char>,
    colors: Seq<Option<RgbColor>>,
    filled: int,
    s: u64,
    p: Pipe,
)
    requires
        1 <= w <= i64::MAX,
        1 <= h <= i64::MAX,
        grid.len() == w * h,
        colors.len() == w * h,
        pipe_ok(p, w, h),
        filled == filled_count(grid),
    ensures
        ({
            let (g2, c2, f2, _s2, q) = advance_spec(w, h, grid, colors, filled, s, p);
            let idx = p.y * w + p.x;
            &&& pipe_ok(q, w, h)
            &&& q.color == p.color
            &&& 0 <= idx < w * h
            &&& g2 == grid.update(idx, connector_spec((p.dir + 2) % 4, q.dir as int))
            &&& c2 == colors.update(idx, Some(p.color))
            &&& f2 == filled_count(g2)
        }),
{
    let idx = p.y * w + p.x;
    crate::frame::lemma_index_in_grid(p.x as int, p.y as int, w, h);
    let dir = p.dir as int;
    let s1 = advance_state(s);
    let preferred = if turns(s) {
        if draw(s1) & 1 == 1 { (dir + 1) % 4 } else { (dir + 3) % 4 }
    } else {
        dir
    };
    let s2 = if turns(s) { advance_state(s1) } else { s1 };
    let nd = open_dir(p.x as int, p.y as int, dir, preferred, w, h);
    assert(0 <= nd < 4);
    lemma_filled_update(grid, idx, connector_spec((dir + 2) % 4, nd));
    let (nx, ny) = (p.x + dx(nd), p.y + dy(nd));
    if !in_grid(nx, ny, w, h) {
        let sp = spawn_spec(s2, w, h, p.color);
        let x = draw(s2) % (w as u64);
        let y = draw(advance_state(s2)) % (h as u64);
        assert(x < w && y < h);
        assert(sp.0.x == x as i64 && sp.0.y == y as i64);
    }
}

} // verus!

verus! {

/// The cell one step from `(x, y)` in direction `d` is on the grid.
pub open spec fn step_on_grid(x: int, y: int, d: int, w: int, h: int) -> bool {
    in_grid(x + dx(d), y + dy(d), w, h)
}

/// A pipe never doubles back while it has another way out: when the cell
/// ahead or a cell to either side is on the grid, its new heading is not
/// the reverse of the old one. Without a turn it keeps straight on when it
/// can; with a turn it goes off to one side (a right angle) when both sides
/// are open.
pub proof fn lemma_pipe_heading(
    w: int,
    h: int,
    grid: Seq<char>,
    colors: Seq<Option<RgbColor>>,
    filled: int,
    s: u64,
    p: Pipe,
)
    requires
        1 <= w,
        1 <= h,
        pipe_ok(p, w, h),
    ensures
        ({
            let q = advance_spec(w, h, grid, colors, filled, s, p).4;
            let (x, y, d) = (p.x as int, p.y as int, p.dir as int);
            &&& (step_on_grid(x, y, d, w, h) || step_on_grid(x, y, (d + 1) % 4, w, h) || step_on_grid(
                x,
                y,
                (d + 3) % 4,
                w,
                h,
            )) ==> q.dir != (d + 2) % 4
            &&& (!turns(s) && step_on_grid(x, y, d, w, h)) ==> q.dir == d
            &&& (turns(s) && step_on_grid(x, y, (d + 1) % 4, w, h) && step_on_grid(x, y, (d + 3) % 4, w, h))
                ==> (q.dir == (d + 1) % 4 || q.dir == (d + 3) % 4)
        }),
{
}

} // verus!
