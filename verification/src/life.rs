//! Conway's Game of Life on a toroidal (wrap-around) board, seeded with
//! classic patterns (gliders, spaceships, oscillators, methuselahs, glider
//! guns) placed by the deterministic generator, with ages for tinting and an
//! automatic reseed when the board dies out or settles.

use vstd::prelude::*;
use crate::color::RgbColor;
use crate::frame::{Cell, Frame, blank_cell, lemma_index_in_grid};
use crate::rng::{SeededRng, advance_state, draw, seed_state};

verus! {

/// Row above `y` on a torus of `rows` rows.
pub open spec fn up(y: int, rows: int) -> int {
    (y + rows - 1) % rows
}

/// Row below `y` on a torus of `rows` rows.
pub open spec fn down(y: int, rows: int) -> int {
    (y + 1) % rows
}

/// 1 if cell `(x, y)` of the row-major board `a` is alive, else 0.
pub open spec fn alive_at(a: Seq<bool>, cols: int, x: int, y: int) -> int {
    if a[y * cols + x] { 1 } else { 0 }
}

/// The number of live cells among the eight toroidal neighbours of `(x, y)`.
pub open spec fn neighbours(a: Seq<bool>, cols: int, rows: int, x: int, y: int) -> int {
    let (xl, xr) = (up(x, cols), down(x, cols));
    let (yu, yd) = (up(y, rows), down(y, rows));
    alive_at(a, cols, xl, yu) + alive_at(a, cols, x, yu) + alive_at(a, cols, xr, yu)
        + alive_at(a, cols, xl, y) + alive_at(a, cols, xr, y)
        + alive_at(a, cols, xl, yd) + alive_at(a, cols, x, yd) + alive_at(a, cols, xr, yd)
}

/// Conway's rule: a live cell survives with two or three live neighbours, a
/// dead one is born with exactly three.
pub open spec fn life_rule(live: bool, n: int) -> bool {
    if live { n == 2 || n == 3 } else { n == 3 }
}

/// The next generation of board `a`.
pub open spec fn next_gen(a: Seq<bool>, cols: int, rows: int) -> Seq<bool> {
    Seq::new((cols * rows) as nat, |i: int| life_rule(a[i], neighbours(a, cols, rows, i % cols, i / cols)))
}

/// The ages after a generation: survivors age by one (up to 999), newborns
/// and dead cells are 0.
pub open spec fn next_ages(a: Seq<bool>, ages: Seq<i32>, cols: int, rows: int) -> Seq<i32> {
    Seq::new(
        (cols * rows) as nat,
        |i: int|
            if next_gen(a, cols, rows)[i] && a[i] {
                if ages[i] + 1 < 999 { (ages[i] + 1) as i32 } else { 999i32 }
            } else {
                0i32
            },
    )
}

/// No cell of `a` is alive.
pub open spec fn all_dead(a: Seq<bool>) -> bool {
    forall|i: int| 0 <= i < a.len() ==> !#[trigger] a[i]
}

/// Column `x` and row `y` are recovered from `y * cols + x`.
pub(crate) proof fn lemma_join_index(x: int, y: int, cols: int)
    requires
        0 <= x < cols,
        0 <= y,
    ensures
        (y * cols + x) % cols == x,
        (y * cols + x) / cols == y,
{
    vstd::arithmetic::div_mod::lemma_fundamental_div_mod_converse(y * cols + x, cols, y, x);
}

} // verus!

verus! {

/// The classic patterns the board is seeded with.
#[derive(Clone, Copy, Debug, PartialEq, Eq, Structural)]
pub enum LifePattern {
    Glider,
    Blinker,
    Toad,
    Beacon,
    RPentomino,
    Acorn,
    /// Lightweight spaceship (travels across the torus).
    Lwss,
    /// Period-3 pulsar.
    Pulsar,
    /// Gosper glider gun (keeps emitting gliders).
    GosperGun,
}

/// The live cells of a pattern as `(x, y)` offsets.
#[verifier::opaque]
pub open spec fn pattern_cells(p: LifePattern) -> Seq<(i64, i64)> {
    match p {
        LifePattern::Glider => seq![(1i64, 0i64), (2, 1), (0, 2), (1, 2), (2, 2)],
        LifePattern::Blinker => seq![(0i64, 0i64), (1, 0), (2, 0)],
        LifePattern::Toad => seq![(1i64, 0i64), (2, 0), (3, 0), (0, 1), (1, 1), (2, 1)],
        LifePattern::Beacon => seq![(0i64, 0i64), (1, 0), (0, 1), (1, 1), (2, 2), (3, 2), (2, 3), (3, 3)],
        LifePattern::RPentomino => seq![(1i64, 0i64), (2, 0), (0, 1), (1, 1), (1, 2)],
        LifePattern::Acorn => seq![(1i64, 0i64), (3, 1), (0, 2), (1, 2), (4, 2), (5, 2), (6, 2)],
        LifePattern::Lwss => seq![(0i64, 0i64), (3, 0), (4, 1), (0, 2), (4, 2), (1, 3), (2, 3), (3, 3), (4, 3)],
        LifePattern::Pulsar => seq![
            (2i64, 0i64), (3, 0), (4, 0), (8, 0), (9, 0), (10, 0),
            (2, 5), (3, 5), (4, 5), (8, 5), (9, 5), (10, 5),
            (2, 7), (3, 7), (4, 7), (8, 7), (9, 7), (10, 7),
            (2, 12), (3, 12), (4, 12), (8, 12), (9, 12), (10, 12),
            (0, 2), (5, 2), (7, 2), (12, 2), (0, 3), (5, 3), (7, 3), (12, 3),
            (0, 4), (5, 4), (7, 4), (12, 4), (0, 8), (5, 8), (7, 8), (12, 8),
            (0, 9), (5, 9), (7, 9), (12, 9), (0, 10), (5, 10), (7, 10), (12, 10)
        ],
        LifePattern::GosperGun => seq![
            (0i64, 4i64), (0, 5), (1, 4), (1, 5), (10, 4), (10, 5), (10, 6), (11, 3), (11, 7),
            (12, 2), (12, 8), (13, 2), (13, 8), (14, 5), (15, 3), (15, 7), (16, 4), (16, 5),
            (16, 6), (17, 5), (20, 2), (20, 3), (20, 4), (21, 2), (21, 3), (21, 4), (22, 1),
            (22, 5), (24, 0), (24, 1), (24, 5), (24, 6), (34, 2), (34, 3), (35, 2), (35, 3)
        ],
    }
}

/// Offsets small enough to turn and shift without overflow.
pub open spec fn small_cells(s: Seq<(i64, i64)>) -> bool {
    forall|k: int| 0 <= k < s.len() ==> -1000 <= #[trigger] s[k].0 <= 1000 && -1000 <= s[k].1 <= 1000
}

/// The live cells of pattern `p`.
pub fn pattern_vec(p: LifePattern) -> (v: Vec<(i64, i64)>)
    ensures
        v@ == pattern_cells(p),
        v@.len() >= 1,
        small_cells(v@),
{
    reveal(pattern_cells);
    match p {
        LifePattern::Glider => vec![(1, 0), (2, 1), (0, 2), (1, 2), (2, 2)],
        LifePattern::Blinker => vec![(0, 0), (1, 0), (2, 0)],
        LifePattern::Toad => vec![(1, 0), (2, 0), (3, 0), (0, 1), (1, 1), (2, 1)],
        LifePattern::Beacon => vec![(0, 0), (1, 0), (0, 1), (1, 1), (2, 2), (3, 2), (2, 3), (3, 3)],
        LifePattern::RPentomino => vec![(1, 0), (2, 0), (0, 1), (1, 1), (1, 2)],
        LifePattern::Acorn => vec![(1, 0), (3, 1), (0, 2), (1, 2), (4, 2), (5, 2), (6, 2)],
        LifePattern::Lwss => vec![(0, 0), (3, 0), (4, 1), (0, 2), (4, 2), (1, 3), (2, 3), (3, 3), (4, 3)],
        LifePattern::Pulsar => vec![
            (2, 0), (3, 0), (4, 0), (8, 0), (9, 0), (10, 0),
            (2, 5), (3, 5), (4, 5), (8, 5), (9, 5), (10, 5),
            (2, 7), (3, 7), (4, 7), (8, 7), (9, 7), (10, 7),
            (2, 12), (3, 12), (4, 12), (8, 12), (9, 12), (10, 12),
            (0, 2), (5, 2), (7, 2), (12, 2), (0, 3), (5, 3), (7, 3), (12, 3),
            (0, 4), (5, 4), (7, 4), (12, 4), (0, 8), (5, 8), (7, 8), (12, 8),
            (0, 9), (5, 9), (7, 9), (12, 9), (0, 10), (5, 10), (7, 10), (12, 10)
        ],
        LifePattern::GosperGun => vec![
            (0, 4), (0, 5), (1, 4), (1, 5), (10, 4), (10, 5), (10, 6), (11, 3), (11, 7),
            (12, 2), (12, 8), (13, 2), (13, 8), (14, 5), (15, 3), (15, 7), (16, 4), (16, 5),
            (16, 6), (17, 5), (20, 2), (20, 3), (20, 4), (21, 2), (21, 3), (21, 4), (22, 1),
            (22, 5), (24, 0), (24, 1), (24, 5), (24, 6), (34, 2), (34, 3), (35, 2), (35, 3)
        ],
    }
}

/// Cell `c` mirrored (if `flip`) and then turned `rot` quarter turns.
pub open spec fn turned(c: (i64, i64), flip: bool, rot: int) -> (int, int) {
    let x0: int = if flip { -c.0 } else { c.0 as int };
    let y0: int = c.1 as int;
    if rot == 0 {
        (x0, y0)
    } else if rot == 1 {
        (-y0, x0)
    } else if rot == 2 {
        (-x0, -y0)
    } else {
        (y0, -x0)
    }
}

/// The smallest value of `s` (0 for an empty sequence).
pub open spec fn seq_min(s: Seq<int>) -> int
    decreases s.len(),
{
    if s.len() == 0 {
        0
    } else if s.len() == 1 {
        s[0]
    } else {
        let m = seq_min(s.drop_last());
        if s.last() < m { s.last() } else { m }
    }
}

/// The cells of a pattern mirrored (if `flip`), turned `rot` quarter turns
/// and shifted so the smallest `x` and the smallest `y` are both 0.
pub open spec fn oriented_cells(s: Seq<(i64, i64)>, flip: bool, rot: int) -> Seq<(int, int)> {
    let t = s.map_values(|c: (i64, i64)| turned(c, flip, rot));
    let mx = seq_min(t.map_values(|c: (int, int)| c.0));
    let my = seq_min(t.map_values(|c: (int, int)| c.1));
    t.map_values(|c: (int, int)| (c.0 - mx, c.1 - my))
}

/// The board cell that pattern cell `c` lands on when the pattern is placed
/// with its origin at `(ox, oy)`, wrapping round the torus.
pub open spec fn landing(c: (int, int), ox: int, oy: int, cols: int, rows: int) -> int {
    ((oy + c.1) % rows) * cols + (ox + c.0) % cols
}

/// Board `a` with every cell of `pat` (placed at `(ox, oy)`) switched on.
pub open spec fn place(a: Seq<bool>, cols: int, rows: int, pat: Seq<(int, int)>, ox: int, oy: int) -> Seq<bool>
    decreases pat.len(),
{
    if pat.len() == 0 {
        a
    } else {
        place(a, cols, rows, pat.drop_last(), ox, oy).update(landing(pat.last(), ox, oy, cols, rows), true)
    }
}

/// One stamp: pick a pattern from `pool`, orient it, pick an origin and place
/// it, drawing five values from the generator in state `s`. Gives the new
/// board and the generator's state afterwards.
#[verifier::opaque]
pub open spec fn stamp_once(a: Seq<bool>, cols: int, rows: int, s: u64, pool: Seq<LifePattern>) -> (Seq<bool>, u64) {
    let pick = draw(s) % (pool.len() as u64);
    let s1 = advance_state(s);
    let flip = draw(s1) & 1 == 1;
    let s2 = advance_state(s1);
    let rot = draw(s2) % 4;
    let s3 = advance_state(s2);
    let ox = draw(s3) % (cols as u64);
    let s4 = advance_state(s3);
    let oy = draw(s4) % (rows as u64);
    let s5 = advance_state(s4);
    (place(a, cols, rows, oriented_cells(pattern_cells(pool[pick as int]), flip, rot as int), ox as int, oy as int), s5)
}

/// `count` stamps in a row.
pub open spec fn stamp_spec(a: Seq<bool>, cols: int, rows: int, s: u64, count: nat, pool: Seq<LifePattern>) -> (Seq<bool>, u64)
    decreases count,
{
    if count == 0 {
        (a, s)
    } else {
        let prev = stamp_spec(a, cols, rows, s, (count - 1) as nat, pool);
        stamp_once(prev.0, cols, rows, prev.1, pool)
    }
}

} // verus!

verus! {

/// The mixing constant the reseed folds the board size in with.
pub open spec fn size_hash(cols: int, rows: int) -> u64 {
    vstd::wrapping::u64_specs::wrapping_mul(cols as u64, 73856093u64) ^ vstd::wrapping::u64_specs::wrapping_mul(
        rows as u64,
        19349663u64,
    )
}

/// The oscillators a board of `cols × rows` is seeded with: the pulsar only
/// where it fits.
pub open spec fn oscillators(cols: int, rows: int) -> Seq<LifePattern> {
    if cols >= 16 && rows >= 16 {
        seq![LifePattern::Blinker, LifePattern::Toad, LifePattern::Beacon, LifePattern::Pulsar]
    } else {
        seq![LifePattern::Blinker, LifePattern::Toad, LifePattern::Beacon]
    }
}

/// `max(v, lo)` for the stamp counts.
pub open spec fn at_least(v: int, lo: int) -> nat {
    if v < lo { lo as nat } else { v as nat }
}

/// The board and generator state a fresh seeding produces from generator
/// state `s0`: the generator is reseeded from its next draw mixed with the
/// board size, then gliders, spaceships, oscillators and methuselahs (and, on
/// a large board, one or two glider guns) are stamped on an empty board.
pub open spec fn seed_spec(cols: int, rows: int, s0: u64) -> (Seq<bool>, u64) {
    let area = cols * rows;
    let st = seed_state(draw(s0) ^ size_hash(cols, rows));
    let empty = Seq::new(area as nat, |i: int| false);
    let r1 = stamp_spec(empty, cols, rows, st, at_least(area as int / 180, 6), seq![LifePattern::Glider]);
    let r2 = stamp_spec(r1.0, cols, rows, r1.1, at_least(area as int / 450, 3), seq![LifePattern::Lwss]);
    let r3 = stamp_spec(r2.0, cols, rows, r2.1, at_least(area as int / 700, 2), oscillators(cols, rows));
    let r4 = stamp_spec(r3.0, cols, rows, r3.1, at_least(area as int / 1400, 1), seq![LifePattern::Acorn, LifePattern::RPentomino]);
    if cols >= 40 && rows >= 12 {
        let guns: nat = if 1 + area / 2500 < 2 { (1 + area / 2500) as nat } else { 2 };
        stamp_spec(r4.0, cols, rows, r4.1, guns, seq![LifePattern::GosperGun])
    } else {
        r4
    }
}

/// A Life board: a `cols × rows` torus of cells with their ages, the two
/// previous generations (to spot still lifes and period-2 oscillators), the
/// count of stalled generations and the generator used for seeding.
pub struct LifeBoard {
    pub cols: usize,
    pub rows: usize,
    pub alive: Vec<bool>,
    pub age: Vec<i32>,
    pub prev1: Vec<bool>,
    pub prev2: Vec<bool>,
    pub stable_steps: i32,
    pub rng: SeededRng,
}

impl LifeBoard {
    /// The vectors agree in length, which is 0 (not yet seeded) or one per
    /// cell; ages stay within 0..=999 and the stall count within 0..=8.
    pub open spec fn wf(&self) -> bool {
        &&& self.cols * self.rows <= usize::MAX
        &&& self.age@.len() == self.alive@.len()
        &&& self.prev1@.len() == self.alive@.len()
        &&& self.prev2@.len() == self.alive@.len()
        &&& (self.alive@.len() == 0 || self.alive@.len() == self.cols * self.rows)
        &&& forall|i: int| 0 <= i < self.age@.len() ==> 0 <= #[trigger] self.age@[i] <= 999
        &&& 0 <= self.stable_steps <= 8
    }

    /// This board is a fresh seeding of a `cols × rows` board from generator
    /// state `s0`.
    pub open spec fn seeded_from(&self, cols: int, rows: int, s0: u64) -> bool {
        let area = cols * rows;
        &&& self.cols == cols
        &&& self.rows == rows
        &&& self.alive@ == seed_spec(cols, rows, s0).0
        &&& self.rng@ == seed_spec(cols, rows, s0).1
        &&& self.age@ == Seq::new(area as nat, |i: int| 0i32)
        &&& self.prev1@ == Seq::new(area as nat, |i: int| false)
        &&& self.prev2@ == Seq::new(area as nat, |i: int| false)
        &&& self.stable_steps == 0
    }

    /// An unseeded board (no cells yet) with the scene's fixed generator seed.
    pub fn new() -> (b: LifeBoard)
        ensures
            b.wf(),
            b.cols == 0,
            b.rows == 0,
            b.alive@.len() == 0,
            b.rng@ == seed_state(0x11FE_C0DE),
    {
        LifeBoard {
            cols: 0,
            rows: 0,
            alive: Vec::new(),
            age: Vec::new(),
            prev1: Vec::new(),
            prev2: Vec::new(),
            stable_steps: 0,
            rng: SeededRng::new(0x11FE_C0DE),
        }
    }

    /// Mirror (on a coin flip) and turn (0–3 quarter turns) a pattern, then
    /// shift it to the origin.
    fn oriented(&mut self, cells: &Vec<(i64, i64)>) -> (out: Vec<(i64, i64)>)
        requires
            small_cells(cells@),
        ensures
            final(self).cols == old(self).cols,
            final(self).rows == old(self).rows,
            final(self).alive == old(self).alive,
            final(self).age == old(self).age,
            final(self).prev1 == old(self).prev1,
            final(self).prev2 == old(self).prev2,
            final(self).stable_steps == old(self).stable_steps,
            final(self).rng@ == advance_state(advance_state(old(self).rng@)),
            out@.len() == cells@.len(),
            forall|k: int| 0 <= k < out@.len() ==> 0 <= #[trigger] out@[k].0 <= 2000 && 0 <= out@[k].1 <= 2000,
            forall|k: int| 0 <= k < out@.len() ==> (#[trigger] out@[k].0 as int, out@[k].1 as int) == oriented_cells(
                cells@,
                draw(old(self).rng@) & 1 == 1,
                (draw(advance_state(old(self).rng@)) % 4) as int,
            )[k],
    {
        let flip = self.rng.next_bool();
        let rot = self.rng.next_below(4);
        let ghost t = cells@.map_values(|c: (i64, i64)| turned(c, flip, rot as int));
        let n = cells.len();
        let mut turned_v: Vec<(i64, i64)> = Vec::with_capacity(n);
        let mut k: usize = 0;
        while k < n
            invariant
                n == cells@.len(),
                small_cells(cells@),
                rot < 4,
                t == cells@.map_values(|c: (i64, i64)| turned(c, flip, rot as int)),
                k <= n,
                turned_v@.len() == k,
                forall|j: int| 0 <= j < k ==> (#[trigger] turned_v@[j].0 as int, turned_v@[j].1 as int) == t[j],
                forall|j: int| 0 <= j < k ==> -1000 <= #[trigger] turned_v@[j].0 <= 1000 && -1000 <= turned_v@[j].1 <= 1000,
            decreases n - k,
        {
            let (x, y) = cells[k];
            let x0 = if flip { -x } else { x };
            let p = if rot == 0 {
                (x0, y)
            } else if rot == 1 {
                (-y, x0)
            } else if rot == 2 {
                (-x0, -y)
            } else {
                (y, -x0)
            };
            turned_v.push(p);
            k += 1;
        }
        let ghost xs = t.map_values(|c: (int, int)| c.0);
        let ghost ys = t.map_values(|c: (int, int)| c.1);
        let mut min_x: i64 = 0;
        let mut min_y: i64 = 0;
        if n > 0 {
            min_x = turned_v[0].0;
            min_y = turned_v[0].1;
            proof {
                assert(xs.take(1).drop_last() =~= xs.take(0));
                assert(ys.take(1).drop_last() =~= ys.take(0));
            }
        }
        let mut k: usize = 1;
        while k < n
            invariant
                n == cells@.len(),
                turned_v@.len() == n,
                xs == t.map_values(|c: (int, int)| c.0),
                ys == t.map_values(|c: (int, int)| c.1),
                t.len() == n,
                forall|j: int| 0 <= j < n ==> (#[trigger] turned_v@[j].0 as int, turned_v@[j].1 as int) == t[j],
                1 <= k,
                n > 0 ==> k <= n,
                n > 0 ==> min_x == seq_min(xs.take(k as int)),
                n > 0 ==> min_y == seq_min(ys.take(k as int)),
                n == 0 ==> min_x == 0 && min_y == 0,
            decreases n - k,
        {
            proof {
                assert(xs.take(k + 1).drop_last() =~= xs.take(k as int));
                assert(ys.take(k + 1).drop_last() =~= ys.take(k as int));
            }
            if turned_v[k].0 < min_x {
                min_x = turned_v[k].0;
            }
            if turned_v[k].1 < min_y {
                min_y = turned_v[k].1;
            }
            k += 1;
        }
        proof {
            if n > 0 {
                assert(xs.take(n as int) =~= xs);
                assert(ys.take(n as int) =~= ys);
            } else {
                assert(xs.len() == 0);
                assert(ys.len() == 0);
            }
            assert forall|j: int| 0 <= j < n implies -1000 <= #[trigger] t[j].0 <= 1000 && -1000 <= t[j].1 <= 1000 by {
                assert(turned_v@[j].0 as int == t[j].0);
            }
            assert forall|j: int| 0 <= j < n implies -1000 <= #[trigger] xs[j] <= 1000 && -1000 <= ys[j] <= 1000 by {
                assert(xs[j] == t[j].0);
                assert(ys[j] == t[j].1);
            }
            lemma_seq_min_le(xs);
            lemma_seq_min_le(ys);
            lemma_seq_min_within(xs, -1000, 1000);
            lemma_seq_min_within(ys, -1000, 1000);
        }
        let mut out: Vec<(i64, i64)> = Vec::with_capacity(n);
        let mut k: usize = 0;
        while k < n
            invariant
                n == cells@.len(),
                turned_v@.len() == n,
                t.len() == n,
                xs == t.map_values(|c: (int, int)| c.0),
                ys == t.map_values(|c: (int, int)| c.1),
                forall|j: int| 0 <= j < n ==> (#[trigger] turned_v@[j].0 as int, turned_v@[j].1 as int) == t[j],
                forall|j: int| 0 <= j < n ==> -1000 <= #[trigger] t[j].0 <= 1000 && -1000 <= t[j].1 <= 1000,
                min_x == seq_min(xs),
                min_y == seq_min(ys),
                forall|j: int| 0 <= j < n ==> min_x <= #[trigger] xs[j] && min_y <= ys[j],
                -1000 <= min_x <= 1000,
                -1000 <= min_y <= 1000,
                k <= n,
                out@.len() == k,
                forall|j: int| 0 <= j < k ==> (#[trigger] out@[j].0 as int, out@[j].1 as int) == (t[j].0 - min_x, t[j].1 - min_y),
                forall|j: int| 0 <= j < k ==> 0 <= #[trigger] out@[j].0 <= 2000 && 0 <= out@[j].1 <= 2000,
            decreases n - k,
        {
            proof {
                assert(xs[k as int] == t[k as int].0);
                assert(ys[k as int] == t[k as int].1);
            }
            let (x, y) = turned_v[k];
            out.push((x - min_x, y - min_y));
            k += 1;
        }
        out
    }
}

/// The smallest value of a sequence is at most each element.
proof fn lemma_seq_min_le(s: Seq<int>)
    ensures
        forall|j: int| 0 <= j < s.len() ==> seq_min(s) <= #[trigger] s[j],
    decreases s.len(),
{
    if s.len() > 1 {
        lemma_seq_min_le(s.drop_last());
        assert forall|j: int| 0 <= j < s.len() implies seq_min(s) <= #[trigger] s[j] by {
            if j < s.len() - 1 {
                assert(s.drop_last()[j] == s[j]);
            }
        }
    }
}

/// The smallest value of a sequence stays within bounds that every element
/// (and 0, for the empty case) respects.
proof fn lemma_seq_min_within(s: Seq<int>, lo: int, hi: int)
    requires
        lo <= 0 <= hi,
        forall|j: int| 0 <= j < s.len() ==> lo <= #[trigger] s[j] <= hi,
    ensures
        lo <= seq_min(s) <= hi,
    decreases s.len(),
{
    if s.len() > 1 {
        assert forall|j: int| 0 <= j < s.drop_last().len() implies lo <= #[trigger] s.drop_last()[j] <= hi by {
            assert(s.drop_last()[j] == s[j]);
        }
        lemma_seq_min_within(s.drop_last(), lo, hi);
        assert(lo <= s[s.len() - 1] <= hi);
    }
}

} // verus!

verus! {

impl LifeBoard {
    /// Switch on every cell of `pat` placed with its origin at `(ox, oy)`.
    fn place_pattern(&mut self, pat: &Vec<(i64, i64)>, ox: usize, oy: usize)
        requires
            old(self).alive@.len() == old(self).cols * old(self).rows,
            old(self).cols >= 1,
            old(self).rows >= 1,
            ox < old(self).cols,
            oy < old(self).rows,
            forall|k: int| 0 <= k < pat@.len() ==> 0 <= #[trigger] pat@[k].0 <= 2000 && 0 <= pat@[k].1 <= 2000,
        ensures
            final(self).cols == old(self).cols,
            final(self).rows == old(self).rows,
            final(self).rng == old(self).rng,
            final(self).age == old(self).age,
            final(self).prev1 == old(self).prev1,
            final(self).prev2 == old(self).prev2,
            final(self).stable_steps == old(self).stable_steps,
            final(self).alive@.len() == old(self).alive@.len(),
            final(self).alive@ == place(
                old(self).alive@,
                old(self).cols as int,
                old(self).rows as int,
                pat@.map_values(|c: (i64, i64)| (c.0 as int, c.1 as int)),
                ox as int,
                oy as int,
            ),
    {
        let ghost a0 = self.alive@;
        let ghost ps = pat@.map_values(|c: (i64, i64)| (c.0 as int, c.1 as int));
        let cols = self.cols;
        let rows = self.rows;
        let n = pat.len();
        let mut k: usize = 0;
        while k < n
            invariant
                n == pat@.len(),
                ps == pat@.map_values(|c: (i64, i64)| (c.0 as int, c.1 as int)),
                forall|j: int| 0 <= j < pat@.len() ==> 0 <= #[trigger] pat@[j].0 <= 2000 && 0 <= pat@[j].1 <= 2000,
                cols == self.cols,
                rows == self.rows,
                cols >= 1,
                rows >= 1,
                ox < cols,
                oy < rows,
                self.alive@.len() == cols * rows,
                self.rng == old(self).rng,
                self.age == old(self).age,
                self.prev1 == old(self).prev1,
                self.prev2 == old(self).prev2,
                self.stable_steps == old(self).stable_steps,
                k <= n,
                self.alive@ == place(a0, cols as int, rows as int, ps.take(k as int), ox as int, oy as int),
            decreases n - k,
        {
            let (px, py) = pat[k];
            let gx = wrap_add(ox, px as usize, cols);
            let gy = wrap_add(oy, py as usize, rows);
            proof {
                lemma_index_in_grid(gx as int, gy as int, cols as int, rows as int);
            }
            let len = self.alive.len();
            let idx = gy * cols + gx;
            self.alive.set(idx, true);
            proof {
                assert(ps.take(k + 1).drop_last() =~= ps.take(k as int));
                assert(ps.take(k + 1).last() == ps[k as int]);
            }
            k += 1;
        }
        proof {
            assert(ps.take(n as int) =~= ps);
        }
    }

    /// Stamp `count` patterns drawn from `pool` onto the board.
    fn stamp(&mut self, count: usize, pool: &Vec<LifePattern>)
        requires
            old(self).alive@.len() == old(self).cols * old(self).rows,
            old(self).cols >= 1,
            old(self).rows >= 1,
            pool@.len() >= 1,
        ensures
            final(self).cols == old(self).cols,
            final(self).rows == old(self).rows,
            final(self).age == old(self).age,
            final(self).prev1 == old(self).prev1,
            final(self).prev2 == old(self).prev2,
            final(self).stable_steps == old(self).stable_steps,
            final(self).alive@.len() == old(self).alive@.len(),
            (final(self).alive@, final(self).rng@) == stamp_spec(
                old(self).alive@,
                old(self).cols as int,
                old(self).rows as int,
                old(self).rng@,
                count as nat,
                pool@,
            ),
    {
        let mut i: usize = 0;
        while i < count
            invariant
                self.cols == old(self).cols,
                self.rows == old(self).rows,
                self.cols >= 1,
                self.rows >= 1,
                pool@.len() >= 1,
                self.alive@.len() == self.cols * self.rows,
                self.age == old(self).age,
                self.prev1 == old(self).prev1,
                self.prev2 == old(self).prev2,
                self.stable_steps == old(self).stable_steps,
                i <= count,
                (self.alive@, self.rng@) == stamp_spec(
                    old(self).alive@,
                    old(self).cols as int,
                    old(self).rows as int,
                    old(self).rng@,
                    i as nat,
                    pool@,
                ),
            decreases count - i,
        {
            let ghost s = self.rng@;
            let pick = self.rng.next_below(pool.len());
            let cells = pattern_vec(pool[pick]);
            let pattern = self.oriented(&cells);
            let ox = self.rng.next_below(self.cols);
            let oy = self.rng.next_below(self.rows);
            let ghost before = self.alive@;
            self.place_pattern(&pattern, ox, oy);
            proof {
                let flip = draw(advance_state(s)) & 1 == 1;
                let rot = (draw(advance_state(advance_state(s))) % 4) as int;
                let pat_int = pattern@.map_values(|c: (i64, i64)| (c.0 as int, c.1 as int));
                assert(pat_int =~= oriented_cells(pattern_cells(pool@[pick as int]), flip, rot));
                lemma_stamp_once(before, self.cols as int, self.rows as int, s, pool@, pick as int, flip, rot, ox as int, oy as int, pat_int);
                assert(stamp_spec(old(self).alive@, self.cols as int, self.rows as int, old(self).rng@, (i + 1) as nat, pool@)
                    == stamp_once(before, self.cols as int, self.rows as int, s, pool@));
            }
            i += 1;
        }
    }

    /// Reseed: fresh generator state (the next draw mixed with the board
    /// size), every cell dead and young, then stamp the classic patterns.
    fn seed(&mut self)
        requires
            old(self).cols >= 1,
            old(self).rows >= 1,
            old(self).cols * old(self).rows <= usize::MAX,
        ensures
            final(self).wf(),
            final(self).seeded_from(old(self).cols as int, old(self).rows as int, old(self).rng@),
    {
        let ghost s0 = self.rng@;
        let cols = self.cols;
        let rows = self.rows;
        let size = cols * rows;
        let v = self.rng.next_u64();
        self.rng = SeededRng::new(v ^ ((cols as u64).wrapping_mul(73856093) ^ (rows as u64).wrapping_mul(19349663)));
        self.alive = falses(size);
        self.age = zeros(size);
        self.prev1 = falses(size);
        self.prev2 = falses(size);
        self.stable_steps = 0;
        let area = size;
        let ghost ci = cols as int;
        let ghost ri = rows as int;
        proof {
            assert(self.rng@ == seed_state(draw(s0) ^ size_hash(ci, ri)));
        }
        let ghost st = self.rng@;
        let ghost empty = self.alive@;
        let c1 = if area / 180 < 6 { 6 } else { area / 180 };
        let pool1 = vec![LifePattern::Glider];
        proof {
            assert(pool1@ =~= seq![LifePattern::Glider]);
        }
        self.stamp(c1, &pool1);
        let ghost r1 = stamp_spec(empty, ci, ri, st, at_least(area as int / 180, 6), seq![LifePattern::Glider]);
        assert(self.alive@ == r1.0 && self.rng@ == r1.1);
        let c2 = if area / 450 < 3 { 3 } else { area / 450 };
        let pool2 = vec![LifePattern::Lwss];
        proof {
            assert(pool2@ =~= seq![LifePattern::Lwss]);
        }
        self.stamp(c2, &pool2);
        let ghost r2 = stamp_spec(r1.0, ci, ri, r1.1, at_least(area as int / 450, 3), seq![LifePattern::Lwss]);
        assert(self.alive@ == r2.0 && self.rng@ == r2.1);
        let mut osc = vec![LifePattern::Blinker, LifePattern::Toad, LifePattern::Beacon];
        if cols >= 16 && rows >= 16 {
            osc.push(LifePattern::Pulsar);
        }
        proof {
            assert(osc@ =~= oscillators(ci, ri));
        }
        let c3 = if area / 700 < 2 { 2 } else { area / 700 };
        self.stamp(c3, &osc);
        let ghost r3 = stamp_spec(r2.0, ci, ri, r2.1, at_least(area as int / 700, 2), oscillators(ci, ri));
        assert(self.alive@ == r3.0 && self.rng@ == r3.1);
        let c4 = if area / 1400 < 1 { 1 } else { area / 1400 };
        let pool4 = vec![LifePattern::Acorn, LifePattern::RPentomino];
        proof {
            assert(pool4@ =~= seq![LifePattern::Acorn, LifePattern::RPentomino]);
        }
        self.stamp(c4, &pool4);
        let ghost r4 = stamp_spec(r3.0, ci, ri, r3.1, at_least(area as int / 1400, 1), seq![LifePattern::Acorn, LifePattern::RPentomino]);
        assert(self.alive@ == r4.0 && self.rng@ == r4.1);
        if cols >= 40 && rows >= 12 {
            let g = if 1 + area / 2500 < 2 { 1 + area / 2500 } else { 2 };
            let pool5 = vec![LifePattern::GosperGun];
            proof {
                assert(pool5@ =~= seq![LifePattern::GosperGun]);
            }
            self.stamp(g, &pool5);
        }
    }
}

/// One stamp, spelled out: the pattern picked and oriented by the first three
/// draws, placed at the origin the next two draws give.
proof fn lemma_stamp_once(
    a: Seq<bool>,
    cols: int,
    rows: int,
    s: u64,
    pool: Seq<LifePattern>,
    pick: int,
    flip: bool,
    rot: int,
    ox: int,
    oy: int,
    pat: Seq<(int, int)>,
)
    requires
        pick == draw(s) % (pool.len() as u64),
        flip == (draw(advance_state(s)) & 1 == 1),
        rot == draw(advance_state(advance_state(s))) % 4,
        ox == draw(advance_state(advance_state(advance_state(s)))) % (cols as u64),
        oy == draw(advance_state(advance_state(advance_state(advance_state(s))))) % (rows as u64),
        pat == oriented_cells(pattern_cells(pool[pick]), flip, rot),
    ensures
        stamp_once(a, cols, rows, s, pool) == (
            place(a, cols, rows, pat, ox, oy),
            advance_state(advance_state(advance_state(advance_state(advance_state(s))))),
        ),
{
    reveal(stamp_once);
}

/// `(a + b) % n` for `a < n`, without overflow.
fn wrap_add(a: usize, b: usize, n: usize) -> (r: usize)
    requires
        a < n,
    ensures
        r == (a + b) % (n as int),
        r < n,
{
    let m = b % n;
    proof {
        vstd::arithmetic::div_mod::lemma_add_mod_noop(a as int, b as int, n as int);
        vstd::arithmetic::div_mod::lemma_small_mod(a as nat, n as nat);
    }
    if m >= n - a {
        proof {
            vstd::arithmetic::div_mod::lemma_fundamental_div_mod_converse(a + m, n as int, 1, a + m - n);
        }
        m - (n - a)
    } else {
        proof {
            vstd::arithmetic::div_mod::lemma_small_mod((a + m) as nat, n as nat);
        }
        a + m
    }
}

/// `n` dead cells.
fn falses(n: usize) -> (v: Vec<bool>)
    ensures
        v@ == Seq::new(n as nat, |i: int| false),
{
    let mut v: Vec<bool> = Vec::with_capacity(n);
    let mut i: usize = 0;
    while i < n
        invariant
            i <= n,
            v@ == Seq::new(i as nat, |j: int| false),
        decreases n - i,
    {
        v.push(false);
        i += 1;
    }
    v
}

/// `n` zero ages.
fn zeros(n: usize) -> (v: Vec<i32>)
    ensures
        v@ == Seq::new(n as nat, |i: int| 0i32),
{
    let mut v: Vec<i32> = Vec::with_capacity(n);
    let mut i: usize = 0;
    while i < n
        invariant
            i <= n,
            v@ == Seq::new(i as nat, |j: int| 0i32),
        decreases n - i,
    {
        v.push(0);
        i += 1;
    }
    v
}

} // verus!

verus! {

/// Stepping round the torus: the neighbour before `v` and the one after it.
proof fn lemma_wrap(v: int, n: int)
    requires
        0 <= v < n,
    ensures
        up(v, n) == if v == 0 { n - 1 } else { v - 1 },
        down(v, n) == if v + 1 == n { 0 } else { v + 1 },
{
    if v == 0 {
        vstd::arithmetic::div_mod::lemma_small_mod((n - 1) as nat, n as nat);
    } else {
        vstd::arithmetic::div_mod::lemma_fundamental_div_mod_converse(v + n - 1, n, 1, v - 1);
    }
    if v + 1 == n {
        vstd::arithmetic::div_mod::lemma_fundamental_div_mod_converse(v + 1, n, 1, 0);
    } else {
        vstd::arithmetic::div_mod::lemma_small_mod((v + 1) as nat, n as nat);
    }
}

/// Whether any cell is alive.
fn any_alive(v: &Vec<bool>) -> (r: bool)
    ensures
        r == !all_dead(v@),
{
    let mut i: usize = 0;
    while i < v.len()
        invariant
            i <= v@.len(),
            forall|j: int| 0 <= j < i ==> !#[trigger] v@[j],
        decreases v@.len() - i,
    {
        if v[i] {
            return true;
        }
        i += 1;
    }
    false
}

/// Whether two boards hold the same cells.
fn same_cells(a: &Vec<bool>, b: &Vec<bool>) -> (r: bool)
    ensures
        r == (a@ == b@),
{
    if a.len() != b.len() {
        return false;
    }
    let mut i: usize = 0;
    while i < a.len()
        invariant
            a@.len() == b@.len(),
            i <= a@.len(),
            forall|j: int| 0 <= j < i ==> a@[j] == b@[j],
        decreases a@.len() - i,
    {
        if a[i] != b[i] {
            return false;
        }
        i += 1;
    }
    assert(a@ =~= b@);
    true
}

impl LifeBoard {
    /// The next state and age of cell `(x, y)`.
    #[verifier::spinoff_prover]
    #[verifier::rlimit(40)]
    fn cell_next(&self, x: usize, y: usize) -> (r: (bool, i32))
        requires
            self.wf(),
            self.cols >= 1,
            self.rows >= 1,
            self.alive@.len() == self.cols * self.rows,
            x < self.cols,
            y < self.rows,
        ensures
            r.0 == life_rule(
                self.alive@[y * self.cols + x],
                neighbours(self.alive@, self.cols as int, self.rows as int, x as int, y as int),
            ),
            r.1 == if r.0 && self.alive@[y * self.cols + x] {
                if self.age@[y * self.cols + x] + 1 < 999 { (self.age@[y * self.cols + x] + 1) as i32 } else { 999i32 }
            } else {
                0i32
            },
    {
        let ghost a = self.alive@;
        let cols = self.cols;
        let rows = self.rows;
        let size = self.alive.len();
        proof {
            lemma_index_in_grid(x as int, y as int, cols as int, rows as int);
        }
        let x_l = if x == 0 { cols - 1 } else { x - 1 };
        let x_r = if x + 1 == cols { 0 } else { x + 1 };
        let y_up = if y == 0 { rows - 1 } else { y - 1 };
        let y_dn = if y + 1 == rows { 0 } else { y + 1 };
        proof {
            lemma_wrap(x as int, cols as int);
            lemma_wrap(y as int, rows as int);
            lemma_index_in_grid(x_l as int, y_up as int, cols as int, rows as int);
            lemma_index_in_grid(x as int, y_up as int, cols as int, rows as int);
            lemma_index_in_grid(x_r as int, y_up as int, cols as int, rows as int);
            lemma_index_in_grid(x_l as int, y as int, cols as int, rows as int);
            lemma_index_in_grid(x_r as int, y as int, cols as int, rows as int);
            lemma_index_in_grid(x_l as int, y_dn as int, cols as int, rows as int);
            lemma_index_in_grid(x as int, y_dn as int, cols as int, rows as int);
            lemma_index_in_grid(x_r as int, y_dn as int, cols as int, rows as int);
        }
        let mut n: u32 = 0;
        if self.alive[y_up * cols + x_l] {
            n += 1;
        }
        if self.alive[y_up * cols + x] {
            n += 1;
        }
        if self.alive[y_up * cols + x_r] {
            n += 1;
        }
        if self.alive[y * cols + x_l] {
            n += 1;
        }
        if self.alive[y * cols + x_r] {
            n += 1;
        }
        if self.alive[y_dn * cols + x_l] {
            n += 1;
        }
        if self.alive[y_dn * cols + x] {
            n += 1;
        }
        if self.alive[y_dn * cols + x_r] {
            n += 1;
        }
        proof {
            assert(n == neighbours(a, cols as int, rows as int, x as int, y as int));
        }
        let was = self.alive[y * cols + x];
        let live = if was { n == 2 || n == 3 } else { n == 3 };
        let new_age: i32 = if live && was {
            let aged = self.age[y * cols + x] + 1;
            if aged < 999 { aged } else { 999 }
        } else {
            0
        };
        (live, new_age)
    }

    /// The next generation and its ages.
    fn next_generation(&self) -> (r: (Vec<bool>, Vec<i32>))
        requires
            self.wf(),
            self.cols >= 1,
            self.rows >= 1,
            self.alive@.len() == self.cols * self.rows,
        ensures
            r.0@ == next_gen(self.alive@, self.cols as int, self.rows as int),
            r.1@ == next_ages(self.alive@, self.age@, self.cols as int, self.rows as int),
    {
        let ghost a = self.alive@;
        let cols = self.cols;
        let rows = self.rows;
        let size = self.alive.len();
        let mut next: Vec<bool> = Vec::with_capacity(size);
        let mut next_age: Vec<i32> = Vec::with_capacity(size);
        let mut i: usize = 0;
        let mut x: usize = 0;
        let mut y: usize = 0;
        while i < size
            invariant
                self.wf(),
                a == self.alive@,
                cols == self.cols,
                rows == self.rows,
                cols >= 1,
                rows >= 1,
                size == cols * rows,
                size == a.len(),
                i <= size,
                x < cols,
                i == y * cols + x,
                i < size ==> y < rows,
                next@.len() == i,
                next_age@.len() == i,
                forall|j: int| 0 <= j < i ==> #[trigger] next@[j] == next_gen(a, cols as int, rows as int)[j],
                forall|j: int| 0 <= j < i ==> #[trigger] next_age@[j] == next_ages(a, self.age@, cols as int, rows as int)[j],
            decreases size - i,
        {
            let (live, new_age) = self.cell_next(x, y);
            proof {
                lemma_join_index(x as int, y as int, cols as int);
            }
            next.push(live);
            next_age.push(new_age);
            let ghost (oi, ox, oy) = (i as int, x as int, y as int);
            i += 1;
            if x + 1 == cols {
                x = 0;
                y += 1;
            } else {
                x += 1;
            }
            proof {
                assert(i == y * cols + x) by (nonlinear_arith)
                    requires
                        oi == oy * cols + ox,
                        i == oi + 1,
                        (ox + 1 == cols && y == oy + 1 && x == 0) || (ox + 1 < cols && y == oy && x == ox + 1),
                ;
                if i < size {
                    assert(y < rows) by (nonlinear_arith)
                        requires
                            i == y * cols + x,
                            i < cols * rows,
                            0 <= x,
                            cols >= 1,
                    ;
                }
            }
        }
        proof {
            assert(next@ =~= next_gen(a, cols as int, rows as int));
            assert(next_age@ =~= next_ages(a, self.age@, cols as int, rows as int));
        }
        (next, next_age)
    }

    /// Advance one generation by Conway's rule on the torus. An emptied board,
    /// or one that has matched one of its two previous generations for more
    /// than eight steps in a row, is reseeded instead.
    pub fn step(&mut self)
        requires
            old(self).wf(),
        ensures
            final(self).wf(),
            ({
                let (cols, rows) = (old(self).cols as int, old(self).rows as int);
                let nx = next_gen(old(self).alive@, cols, rows);
                let stalled = if nx == old(self).prev1@ || nx == old(self).prev2@ {
                    old(self).stable_steps + 1
                } else {
                    0
                };
                if cols * rows == 0 || old(self).alive@.len() != cols * rows {
                    *final(self) == *old(self)
                } else if all_dead(nx) || stalled > 8 {
                    final(self).seeded_from(cols, rows, old(self).rng@)
                } else {
                    &&& final(self).cols == old(self).cols
                    &&& final(self).rows == old(self).rows
                    &&& final(self).alive@ == nx
                    &&& final(self).age@ == next_ages(old(self).alive@, old(self).age@, cols, rows)
                    &&& final(self).prev1@ == old(self).alive@
                    &&& final(self).prev2@ == old(self).prev1@
                    &&& final(self).stable_steps == stalled
                    &&& final(self).rng == old(self).rng
                }
            }),
    {
        let size = self.cols * self.rows;
        if size == 0 || self.alive.len() != size {
            return;
        }
        proof {
            assert(self.cols >= 1 && self.rows >= 1) by (nonlinear_arith)
                requires
                    self.cols * self.rows != 0,
            ;
        }
        let (mut next, next_age) = self.next_generation();
        if !any_alive(&next) {
            self.seed();
            return;
        }
        if same_cells(&next, &self.prev1) || same_cells(&next, &self.prev2) {
            self.stable_steps += 1;
        } else {
            self.stable_steps = 0;
        }
        std::mem::swap(&mut self.alive, &mut next);
        std::mem::swap(&mut self.prev1, &mut next);
        self.prev2 = next;
        self.age = next_age;
        if self.stable_steps > 8 {
            self.seed();
        }
    }
}

} // verus!

verus! {

/// The logical board size for a `width × height` character grid drawn with
/// `cell_size`-character blocks: at least one cell each way.
pub open spec fn logical_dims_spec(width: int, height: int, cell_size: int) -> (int, int) {
    let cs = if cell_size < 1 { 1 } else { cell_size };
    let c = width / cs;
    let r = height / cs;
    (if c < 1 { 1 } else { c }, if r < 1 { 1 } else { r })
}

/// The logical board size for a `width × height` grid of `cell_size` blocks.
pub fn logical_dims(width: usize, height: usize, cell_size: usize) -> (r: (usize, usize))
    ensures
        (r.0 as int, r.1 as int) == logical_dims_spec(width as int, height as int, cell_size as int),
        r.0 >= 1,
        r.1 >= 1,
        r.0 <= if width < 1 { 1 } else { width },
        r.1 <= if height < 1 { 1 } else { height },
{
    let cs = if cell_size < 1 { 1 } else { cell_size };
    let c = width / cs;
    let r = height / cs;
    (if c < 1 { 1 } else { c }, if r < 1 { 1 } else { r })
}

/// What character cell `(px, py)` shows: a solid block in the colour for the
/// age of the live logical cell it falls in (the palette entry for that age,
/// the last entry for any older cell), or a blank.
pub open spec fn life_cell(b: LifeBoard, px: int, py: int, cell_size: int, palette: Seq<RgbColor>) -> Cell {
    let (lx, ly) = (px / cell_size, py / cell_size);
    if b.cols > 0 && b.rows > 0 && b.alive@.len() == b.cols * b.rows && lx < b.cols && ly < b.rows
        && b.alive@[ly * b.cols + lx] {
        let age = b.age@[ly * b.cols + lx];
        let k = if age < palette.len() { age as int } else { palette.len() - 1 };
        Cell { ch: '█', color: Some(palette[k]) }
    } else {
        blank_cell()
    }
}

impl LifeBoard {
    /// Resize the board to `cols × rows` and seed it afresh.
    pub fn reset(&mut self, cols: usize, rows: usize)
        requires
            old(self).wf(),
            cols >= 1,
            rows >= 1,
            cols * rows <= usize::MAX,
        ensures
            final(self).wf(),
            final(self).seeded_from(cols as int, rows as int, old(self).rng@),
    {
        self.cols = cols;
        self.rows = rows;
        self.seed();
    }

    /// Draw the board into a `width × height` frame, each logical cell a
    /// `cell_size × cell_size` block of `█` in the palette colour for its age.
    pub fn render(&self, width: usize, height: usize, cell_size: usize, palette: &Vec<RgbColor>) -> (f: Frame)
        requires
            self.wf(),
            width * height <= usize::MAX,
            cell_size >= 1,
            palette@.len() >= 1,
        ensures
            f.wf(),
            f.width == width,
            f.height == height,
            forall|px: int, py: int| 0 <= px < width && 0 <= py < height ==> #[trigger] f.cells@[py * width + px]
                == life_cell(*self, px, py, cell_size as int, palette@),
    {
        let size = width * height;
        let mut cells: Vec<Cell> = Vec::with_capacity(size);
        let ready = self.cols > 0 && self.rows > 0 && self.alive.len() == self.cols * self.rows;
        let mut i: usize = 0;
        let mut px: usize = 0;
        let mut py: usize = 0;
        while i < size
            invariant
                self.wf(),
                size == width * height,
                cell_size >= 1,
                palette@.len() >= 1,
                ready == (self.cols > 0 && self.rows > 0 && self.alive@.len() == self.cols * self.rows),
                i <= size,
                width > 0 ==> px < width,
                i == py * width + px,
                i < size ==> py < height,
                cells@.len() == i,
                forall|j: int| 0 <= j < i ==> #[trigger] cells@[j] == life_cell(*self, j % (width as int), j / (width as int), cell_size as int, palette@),
            decreases size - i,
        {
            proof {
                if width == 0 {
                    assert(size == 0);
                }
                lemma_join_index(px as int, py as int, width as int);
            }
            let lx = px / cell_size;
            let ly = py / cell_size;
            let mut cell = Cell::blank();
            if ready && lx < self.cols && ly < self.rows {
                proof {
                    lemma_index_in_grid(lx as int, ly as int, self.cols as int, self.rows as int);
                }
                let k = ly * self.cols + lx;
                if self.alive[k] {
                    let age = self.age[k];
                    let pi = if (age as usize) < palette.len() { age as usize } else { palette.len() - 1 };
                    cell = Cell::new('█', Some(palette[pi]));
                }
            }
            cells.push(cell);
            let ghost (oi, ox, oy) = (i as int, px as int, py as int);
            i += 1;
            if px + 1 == width {
                px = 0;
                py += 1;
            } else {
                px += 1;
            }
            proof {
                assert(i == py * width + px) by (nonlinear_arith)
                    requires
                        oi == oy * width + ox,
                        i == oi + 1,
                        (ox + 1 == width && py == oy + 1 && px == 0) || (ox + 1 < width && py == oy && px == ox + 1),
                ;
                if i < size {
                    assert(py < height) by (nonlinear_arith)
                        requires
                            i == py * width + px,
                            i < width * height,
                            0 <= px,
                            width >= 1,
                    ;
                }
            }
        }
        let f = Frame { width, height, cells };
        proof {
            assert forall|x: int, y: int| 0 <= x < width && 0 <= y < height implies #[trigger] f.cells@[y * width + x]
                == life_cell(*self, x, y, cell_size as int, palette@) by {
                lemma_index_in_grid(x, y, width as int, height as int);
                lemma_join_index(x, y, width as int);
            }
        }
        f
    }
}

} // verus!

verus! {

/// Every pattern has at least one live cell.
proof fn lemma_pattern_nonempty(p: LifePattern)
    ensures
        pattern_cells(p).len() >= 1,
{
    reveal(pattern_cells);
}

/// Where a placed cell lands is on the board.
proof fn lemma_landing_in_board(c: (int, int), ox: int, oy: int, cols: int, rows: int)
    requires
        cols >= 1,
        rows >= 1,
    ensures
        0 <= landing(c, ox, oy, cols, rows) < cols * rows,
{
    lemma_index_in_grid((ox + c.0) % cols, (oy + c.1) % rows, cols, rows);
}

/// Placing a pattern keeps the board's size and every live cell, and brings
/// its last cell to life.
proof fn lemma_place_grows(a: Seq<bool>, cols: int, rows: int, pat: Seq<(int, int)>, ox: int, oy: int)
    requires
        cols >= 1,
        rows >= 1,
        a.len() == cols * rows,
    ensures
        place(a, cols, rows, pat, ox, oy).len() == a.len(),
        forall|i: int| 0 <= i < a.len() && a[i] ==> #[trigger] place(a, cols, rows, pat, ox, oy)[i],
        pat.len() >= 1 ==> place(a, cols, rows, pat, ox, oy)[landing(pat.last(), ox, oy, cols, rows)],
    decreases pat.len(),
{
    if pat.len() > 0 {
        lemma_place_grows(a, cols, rows, pat.drop_last(), ox, oy);
        lemma_landing_in_board(pat.last(), ox, oy, cols, rows);
    }
}

/// Stamping keeps the board's size and every live cell; after at least one
/// stamp some cell is alive.
proof fn lemma_stamp_grows(a: Seq<bool>, cols: int, rows: int, s: u64, count: nat, pool: Seq<LifePattern>)
    requires
        cols >= 1,
        rows >= 1,
        a.len() == cols * rows,
        pool.len() >= 1,
    ensures
        stamp_spec(a, cols, rows, s, count, pool).0.len() == a.len(),
        forall|i: int| 0 <= i < a.len() && a[i] ==> #[trigger] stamp_spec(a, cols, rows, s, count, pool).0[i],
        count >= 1 ==> !all_dead(stamp_spec(a, cols, rows, s, count, pool).0),
    decreases count,
{
    if count > 0 {
        lemma_stamp_grows(a, cols, rows, s, (count - 1) as nat, pool);
        let prev = stamp_spec(a, cols, rows, s, (count - 1) as nat, pool);
        reveal(stamp_once);
        let pick = draw(prev.1) % (pool.len() as u64);
        let s1 = advance_state(prev.1);
        let s2 = advance_state(s1);
        let s3 = advance_state(s2);
        let s4 = advance_state(s3);
        let pat = oriented_cells(pattern_cells(pool[pick as int]), draw(s1) & 1 == 1, (draw(s2) % 4) as int);
        lemma_pattern_nonempty(pool[pick as int]);
        let ox = (draw(s3) % (cols as u64)) as int;
        let oy = (draw(s4) % (rows as u64)) as int;
        lemma_place_grows(prev.0, cols, rows, pat, ox, oy);
        let spot = landing(pat.last(), ox, oy, cols, rows);
        lemma_landing_in_board(pat.last(), ox, oy, cols, rows);
        assert(stamp_spec(a, cols, rows, s, count, pool).0[spot]);
    }
}

/// A freshly seeded board always has live cells.
pub proof fn lemma_seed_has_live_cells(cols: int, rows: int, s0: u64)
    requires
        cols >= 1,
        rows >= 1,
    ensures
        seed_spec(cols, rows, s0).0.len() == cols * rows,
        !all_dead(seed_spec(cols, rows, s0).0),
{
    let area = cols * rows;
    assert(area >= 1) by (nonlinear_arith)
        requires
            cols >= 1,
            rows >= 1,
            area == cols * rows,
    ;
    let st = seed_state(draw(s0) ^ size_hash(cols, rows));
    let empty = Seq::new(area as nat, |i: int| false);
    let r1 = stamp_spec(empty, cols, rows, st, at_least(area / 180, 6), seq![LifePattern::Glider]);
    lemma_stamp_grows(empty, cols, rows, st, at_least(area / 180, 6), seq![LifePattern::Glider]);
    let w1 = choose|i: int| 0 <= i < r1.0.len() && r1.0[i];
    let r2 = stamp_spec(r1.0, cols, rows, r1.1, at_least(area / 450, 3), seq![LifePattern::Lwss]);
    lemma_stamp_grows(r1.0, cols, rows, r1.1, at_least(area / 450, 3), seq![LifePattern::Lwss]);
    let r3 = stamp_spec(r2.0, cols, rows, r2.1, at_least(area / 700, 2), oscillators(cols, rows));
    lemma_stamp_grows(r2.0, cols, rows, r2.1, at_least(area / 700, 2), oscillators(cols, rows));
    let p4 = seq![LifePattern::Acorn, LifePattern::RPentomino];
    let r4 = stamp_spec(r3.0, cols, rows, r3.1, at_least(area / 1400, 1), p4);
    lemma_stamp_grows(r3.0, cols, rows, r3.1, at_least(area / 1400, 1), p4);
    assert(r4.0[w1]);
    if cols >= 40 && rows >= 12 {
        let guns: nat = if 1 + area / 2500 < 2 { (1 + area / 2500) as nat } else { 2 };
        lemma_stamp_grows(r4.0, cols, rows, r4.1, guns, seq![LifePattern::GosperGun]);
        assert(seed_spec(cols, rows, s0).0[w1]);
    }
}

} // verus!
