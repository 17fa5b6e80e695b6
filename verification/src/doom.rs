//! DOOM geometry: the character grid `doom_ascii` draws at a `-scaling`
//! factor, and the sharpest factor that fits a terminal.

use vstd::prelude::*;

verus! {

/// DOOM's framebuffer width in pixels.
pub const SCREEN_WIDTH: usize = 320;

/// DOOM's framebuffer height in pixels.
pub const SCREEN_HEIGHT: usize = 200;

/// The character grid at `-scaling n` (0 counts as 1): every pixel column is
/// two characters wide.
pub open spec fn grid_size_spec(scaling: int) -> (int, int) {
    let n = if scaling < 1 { 1 } else { scaling };
    ((320int / n) * 2, 200int / n)
}

/// The `(columns, rows)` `doom_ascii` draws at `-scaling scaling`.
pub fn grid_size(scaling: usize) -> (r: (usize, usize))
    ensures
        (r.0 as int, r.1 as int) == grid_size_spec(scaling as int),
{
    let n = if scaling < 1 { 1 } else { scaling };
    ((SCREEN_WIDTH / n) * 2, SCREEN_HEIGHT / n)
}

/// The grid at `-scaling n` fits a `cols × rows` terminal.
pub open spec fn fits(n: int, cols: int, rows: int) -> bool {
    grid_size_spec(n).0 <= cols && grid_size_spec(n).1 <= rows
}

/// The smallest `-scaling` in `1..=16` whose grid fits a `cols × rows`
/// terminal, or 16 when none does.
pub fn doom_scaling_for(cols: u16, rows: u16) -> (n: usize)
    ensures
        1 <= n <= 16,
        forall|m: int| 1 <= m < n ==> !#[trigger] fits(m, cols as int, rows as int),
        n < 16 ==> fits(n as int, cols as int, rows as int),
        fits(16, cols as int, rows as int) ==> fits(n as int, cols as int, rows as int),
{
    let mut n: usize = 1;
    while n <= 16
        invariant
            1 <= n <= 17,
            forall|m: int| 1 <= m < n ==> !#[trigger] fits(m, cols as int, rows as int),
        decreases 17 - n,
    {
        let (w, h) = grid_size(n);
        if w <= cols as usize && h <= rows as usize {
            return n;
        }
        n += 1;
    }
    16
}

} // verus!
