//! The 8-bytes-per-cell frame layout shared with native mobile hosts:
//! bytes 0–3 the character as a little-endian `u32`, bytes 4–6 the colour
//! (zero without one), byte 7 whether the cell has its own colour.

use vstd::prelude::*;
use crate::frame::{Cell, Frame};

verus! {

/// Bytes per encoded cell.
pub const BYTES_PER_CELL: usize = 8;

/// The eight bytes a cell encodes to.
pub open spec fn cell_bytes(c: Cell) -> Seq<u8> {
    let v = c.ch as u32 as int;
    let (r, g, b, has) = match c.color {
        Some(col) => (col.r, col.g, col.b, 1u8),
        None => (0u8, 0u8, 0u8, 0u8),
    };
    seq![
        (v % 256) as u8,
        (v / 256 % 256) as u8,
        (v / 65536 % 256) as u8,
        (v / 16777216) as u8,
        r,
        g,
        b,
        has
    ]
}

/// Encode `frame` into `out`, resized in place to eight bytes per cell.
pub fn encode_frame(frame: &Frame, out: &mut Vec<u8>)
    requires
        frame.wf(),
        frame.width * frame.height * 8 <= usize::MAX,
    ensures
        final(out)@.len() == frame.width * frame.height * 8,
        forall|i: int, k: int| 0 <= i < frame.cells@.len() && 0 <= k < 8 ==> #[trigger] final(out)@[i * 8 + k]
            == cell_bytes(frame.cells@[i])[k],
{
    let num_cells = frame.width * frame.height;
    out.resize(num_cells * BYTES_PER_CELL, 0);
    let n = frame.cells.len();
    let mut i: usize = 0;
    while i < n
        invariant
            n == frame.cells@.len(),
            n == num_cells,
            out@.len() == n * 8,
            n * 8 <= usize::MAX,
            i <= n,
            forall|j: int, k: int| 0 <= j < i && 0 <= k < 8 ==> #[trigger] out@[j * 8 + k] == cell_bytes(frame.cells@[j])[k],
        decreases n - i,
    {
        let cell = frame.cells[i];
        let off = i * BYTES_PER_CELL;
        let v = cell.ch as u32;
        let (r, g, b, has) = match cell.color {
            Some(c) => (c.r, c.g, c.b, 1u8),
            None => (0u8, 0u8, 0u8, 0u8),
        };
        let ghost before = out@;
        out.set(off, (v % 256) as u8);
        out.set(off + 1, (v / 256 % 256) as u8);
        out.set(off + 2, (v / 65536 % 256) as u8);
        out.set(off + 3, (v / 16777216) as u8);
        out.set(off + 4, r);
        out.set(off + 5, g);
        out.set(off + 6, b);
        out.set(off + 7, has);
        proof {
            assert forall|j: int, k: int| 0 <= j < i + 1 && 0 <= k < 8 implies #[trigger] out@[j * 8 + k]
                == cell_bytes(frame.cells@[j])[k] by {
                if j < i {
                    assert(j * 8 + k < off);
                    assert(out@[j * 8 + k] == before[j * 8 + k]);
                }
            }
        }
        i += 1;
    }
}

} // verus!
