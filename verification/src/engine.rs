//! The flat form of a frame that embedding hosts read: the glyphs as one
//! row-major string, the colours as one word per cell, and the palettes as
//! JSON.

use vstd::prelude::*;
use crate::color::{RgbColor, argb_spec};
use crate::frame::Frame;
use crate::text::{decimal_spec, push_char, push_decimal, push_str};
use crate::theme::{Theme, amber_theme, ghost_theme, hacker_theme, ice_theme};

verus! {

/// The colour word of a cell: `0xFFRRGGBB` for an explicit colour, zero for
/// "use the theme colour" (an explicit black is `0xFF000000`, never zero).
pub open spec fn color_word(c: Option<RgbColor>) -> u32 {
    match c {
        Some(c) => argb_spec(c),
        None => 0,
    }
}

/// One colour word per cell, row-major.
pub fn frame_colors(frame: &Frame) -> (v: Vec<u32>)
    ensures
        v@.len() == frame.cells@.len(),
        forall|i: int| 0 <= i < v@.len() ==> #[trigger] v@[i] == color_word(frame.cells@[i].color),
{
    let n = frame.cells.len();
    let mut v: Vec<u32> = Vec::with_capacity(n);
    let mut i: usize = 0;
    while i < n
        invariant
            n == frame.cells@.len(),
            i <= n,
            v@.len() == i,
            forall|j: int| 0 <= j < i ==> #[trigger] v@[j] == color_word(frame.cells@[j].color),
        decreases n - i,
    {
        let w = match frame.cells[i].color {
            Some(c) => c.to_argb(),
            None => 0,
        };
        v.push(w);
        i += 1;
    }
    v
}

/// The glyphs of the cells, row-major, with no line breaks.
pub open spec fn glyphs_spec(frame: Frame) -> Seq<char> {
    Seq::new(frame.cells@.len(), |i: int| frame.cells@[i].ch)
}

/// The glyphs as one string, `width * height` characters, no newlines.
pub fn frame_glyphs(frame: &Frame) -> (s: String)
    ensures
        s@ == glyphs_spec(*frame),
{
    let n = frame.cells.len();
    let mut s = String::new();
    let mut i: usize = 0;
    while i < n
        invariant
            n == frame.cells@.len(),
            i <= n,
            s@ == glyphs_spec(*frame).take(i as int),
        decreases n - i,
    {
        push_char(&mut s, frame.cells[i].ch);
        proof {
            assert(glyphs_spec(*frame).take(i + 1) =~= glyphs_spec(*frame).take(i as int).push(
                frame.cells@[i as int].ch,
            ));
        }
        i += 1;
    }
    proof {
        assert(glyphs_spec(*frame).take(n as int) =~= glyphs_spec(*frame));
    }
    s
}

/// `r,g,b` in decimal.
pub open spec fn rgb_json(c: RgbColor) -> Seq<char> {
    decimal_spec(c.r as nat) + ","@ + decimal_spec(c.g as nat) + ","@ + decimal_spec(c.b as nat)
}

/// One theme as a JSON object: its name and its two colours as arrays.
pub open spec fn theme_json(t: Theme) -> Seq<char> {
    "{\"name\":\""@ + t.name@ + "\",\"text\":["@ + rgb_json(t.text) + "],\"background\":["@
        + rgb_json(t.background) + "]}"@
}

/// The objects of `themes`, separated by commas.
pub open spec fn theme_entries(themes: Seq<Theme>) -> Seq<char>
    decreases themes.len(),
{
    if themes.len() == 0 {
        Seq::empty()
    } else if themes.len() == 1 {
        theme_json(themes[0])
    } else {
        theme_entries(themes.drop_last()) + ","@ + theme_json(themes.last())
    }
}

/// The palettes as a JSON array, in menu order.
pub open spec fn themes_json_spec() -> Seq<char> {
    "["@ + theme_entries(seq![hacker_theme(), amber_theme(), ice_theme(), ghost_theme()]) + "]"@
}

fn push_rgb(s: &mut String, c: RgbColor)
    ensures
        final(s)@ == old(s)@ + rgb_json(c),
{
    push_decimal(s, c.r as u64);
    push_str(s, ",");
    push_decimal(s, c.g as u64);
    push_str(s, ",");
    push_decimal(s, c.b as u64);
}

fn push_theme(s: &mut String, t: Theme)
    ensures
        final(s)@ == old(s)@ + theme_json(t),
{
    push_str(s, "{\"name\":\"");
    push_str(s, t.name);
    push_str(s, "\",\"text\":[");
    push_rgb(s, t.text);
    push_str(s, "],\"background\":[");
    push_rgb(s, t.background);
    push_str(s, "]}");
}

/// The four palettes as JSON, so a page never keeps a second copy that can
/// drift: `[{"name":"Hacker","text":[48,209,88],"background":[0,0,0]},…]`.
pub fn themes_json() -> (s: String)
    ensures
        s@ == themes_json_spec(),
{
    let all = Theme::all();
    let mut s = String::new();
    push_str(&mut s, "[");
    let mut i: usize = 0;
    while i < 4
        invariant
            all@ == Theme::all_spec(),
            i <= 4,
            s@ == "["@ + theme_entries(Theme::all_spec().take(i as int)),
        decreases 4 - i,
    {
        let ghost before = s@;
        if i > 0 {
            push_char(&mut s, ',');
        }
        push_theme(&mut s, all[i]);
        proof {
            let done = Theme::all_spec().take(i + 1);
            assert(done.drop_last() =~= Theme::all_spec().take(i as int));
            assert(done.last() == all@[i as int]);
            if i == 0 {
                assert(Theme::all_spec().take(0) =~= Seq::<Theme>::empty());
                assert(s@ =~= "["@ + theme_entries(done));
            } else {
                assert(","@ =~= seq![',']) by {
                    reveal_strlit(",");
                }
                assert(s@ =~= "["@ + theme_entries(done));
            }
        }
        i += 1;
    }
    push_str(&mut s, "]");
    proof {
        assert(Theme::all_spec().take(4) =~= Theme::all_spec());
    }
    s
}

} // verus!
