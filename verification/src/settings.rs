//! Scene settings: each is a menu of presets with one chosen by default.

use vstd::prelude::*;

verus! {

/// The preset a setting starts on: the requested index, pulled back to the
/// last preset when it lies past the end (0 for an empty menu).
pub fn default_index(requested: usize, option_count: usize) -> (i: usize)
    ensures
        i == (if option_count == 0 {
            0
        } else if requested < option_count {
            requested as int
        } else {
            option_count - 1
        }),
{
    let last = if option_count == 0 { 0 } else { option_count - 1 };
    if requested < last { requested } else { last }
}

} // verus!
