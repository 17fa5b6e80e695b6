//! Colour themes: a name, a text colour and a background colour.

use vstd::prelude::*;
use crate::color::RgbColor;
use vstd::string::StringSliceAdditionalSpecFns;

verus! {

#[derive(Clone, Copy, Debug, PartialEq, Eq)]
pub struct Theme {
    pub name: &'static str,
    pub text: RgbColor,
    pub background: RgbColor,
}

/// ASCII lower-casing of one byte (other bytes are unchanged).
pub open spec fn ascii_lower(b: u8) -> u8 {
    if 65 <= b <= 90 { (b + 32) as u8 } else { b }
}

/// Two byte strings are equal up to ASCII case.
pub open spec fn ascii_ci_eq(a: Seq<u8>, b: Seq<u8>) -> bool {
    &&& a.len() == b.len()
    &&& forall|i: int| 0 <= i < a.len() ==> ascii_lower(#[trigger] a[i]) == ascii_lower(b[i])
}

fn lower_byte(b: u8) -> (r: u8)
    ensures
        r == ascii_lower(b),
{
    if 65 <= b && b <= 90 { b + 32 } else { b }
}

/// ASCII case-insensitive comparison of the UTF-8 bytes of two strings.
pub fn eq_ignore_ascii_case(a: &str, b: &str) -> (r: bool)
    ensures
        r == ascii_ci_eq(a.spec_bytes(), b.spec_bytes()),
{
    let x = a.as_bytes();
    let y = b.as_bytes();
    if x.len() != y.len() {
        return false;
    }
    let mut i: usize = 0;
    while i < x.len()
        invariant
            x@ == a.spec_bytes(),
            y@ == b.spec_bytes(),
            x@.len() == y@.len(),
            i <= x@.len(),
            forall|j: int| 0 <= j < i ==> ascii_lower(#[trigger] x@[j]) == ascii_lower(y@[j]),
        decreases x@.len() - i,
    {
        if lower_byte(x[i]) != lower_byte(y[i]) {
            return false;
        }
        i += 1;
    }
    true
}

/// Index of the first theme in `themes` whose name matches `name` up to ASCII
/// case, searching from `from`.
pub open spec fn first_match(themes: Seq<Theme>, name: Seq<u8>, from: int) -> Option<int>
    decreases themes.len() - from,
{
    if from < 0 || from >= themes.len() {
        None
    } else if ascii_ci_eq(themes[from].name.spec_bytes(), name) {
        Some(from)
    } else {
        first_match(themes, name, from + 1)
    }
}

/// The default green-on-black palette.
pub open spec fn hacker_theme() -> Theme {
    Theme {
        name: "Hacker",
        text: RgbColor { r: 48, g: 209, b: 88 },
        background: RgbColor { r: 0, g: 0, b: 0 },
    }
}

/// Amber text on a dark brown background.
pub open spec fn amber_theme() -> Theme {
    Theme {
        name: "Amber",
        text: RgbColor { r: 255, g: 166, b: 0 },
        background: RgbColor { r: 26, g: 8, b: 0 },
    }
}

/// Cyan text on a dark blue background.
pub open spec fn ice_theme() -> Theme {
    Theme {
        name: "Ice",
        text: RgbColor { r: 0, g: 255, b: 255 },
        background: RgbColor { r: 0, g: 13, b: 26 },
    }
}

/// Near-black text on a light grey background.
pub open spec fn ghost_theme() -> Theme {
    Theme {
        name: "Ghost",
        text: RgbColor { r: 28, g: 28, b: 30 },
        background: RgbColor { r: 245, g: 245, b: 245 },
    }
}

impl Theme {
    pub fn hacker() -> (t: Theme)
        ensures
            t == hacker_theme(),
    {
        Theme {
            name: "Hacker",
            text: RgbColor { r: 48, g: 209, b: 88 },
            background: RgbColor { r: 0, g: 0, b: 0 },
        }
    }

    pub fn amber() -> (t: Theme)
        ensures
            t == amber_theme(),
    {
        Theme {
            name: "Amber",
            text: RgbColor { r: 255, g: 166, b: 0 },
            background: RgbColor { r: 26, g: 8, b: 0 },
        }
    }

    pub fn ice() -> (t: Theme)
        ensures
            t == ice_theme(),
    {
        Theme {
            name: "Ice",
            text: RgbColor { r: 0, g: 255, b: 255 },
            background: RgbColor { r: 0, g: 13, b: 26 },
        }
    }

    pub fn ghost() -> (t: Theme)
        ensures
            t == ghost_theme(),
    {
        Theme {
            name: "Ghost",
            text: RgbColor { r: 28, g: 28, b: 30 },
            background: RgbColor { r: 245, g: 245, b: 245 },
        }
    }

    /// All themes in menu order (Hacker is the first-run default).
    pub fn all() -> (a: [Theme; 4])
        ensures
            a@ == Theme::all_spec(),
    {
        let a = [Theme::hacker(), Theme::amber(), Theme::ice(), Theme::ghost()];
        assert(a@ =~= Theme::all_spec());
        a
    }

    /// The themes of [`Theme::all`] as a sequence.
    pub open spec fn all_spec() -> Seq<Theme> {
        seq![hacker_theme(), amber_theme(), ice_theme(), ghost_theme()]
    }

    /// The first theme whose name matches `name` up to ASCII case, if any.
    pub fn by_name(name: &str) -> (r: Option<Theme>)
        ensures
            r == (match first_match(Theme::all_spec(), name.spec_bytes(), 0) {
                Some(i) => Some(Theme::all_spec()[i]),
                None => None,
            }),
    {
        let all = Theme::all();
        let mut i: usize = 0;
        while i < 4
            invariant
                all@ == Theme::all_spec(),
                i <= 4,
                first_match(Theme::all_spec(), name.spec_bytes(), 0) == first_match(
                    Theme::all_spec(),
                    name.spec_bytes(),
                    i as int,
                ),
            decreases 4 - i,
        {
            if eq_ignore_ascii_case(all[i].name, name) {
                return Some(all[i]);
            }
            i += 1;
        }
        None
    }
}

impl Default for Theme {
    fn default() -> (t: Theme)
        ensures
            t == hacker_theme(),
    {
        Theme::hacker()
    }
}

/// The theme a front end uses for a requested name: the theme of that name
/// up to ASCII case, else the default (Hacker).
pub open spec fn resolve_theme_spec(name: Seq<u8>) -> Theme {
    match first_match(Theme::all_spec(), name, 0) {
        Some(i) => Theme::all_spec()[i],
        None => hacker_theme(),
    }
}

/// The theme named `name` (up to ASCII case), falling back to Hacker.
pub fn resolve_theme(name: &str) -> (t: Theme)
    ensures
        t == resolve_theme_spec(name.spec_bytes()),
{
    match Theme::by_name(name) {
        Some(t) => t,
        None => Theme::default(),
    }
}

} // verus!

verus! {

/// The names of the four themes, as bytes.
proof fn lemma_theme_name_bytes()
    ensures
        hacker_theme().name.spec_bytes() == seq![72u8, 97, 99, 107, 101, 114],
        amber_theme().name.spec_bytes() == seq![65u8, 109, 98, 101, 114],
        ice_theme().name.spec_bytes() == seq![73u8, 99, 101],
        ghost_theme().name.spec_bytes() == seq![71u8, 104, 111, 115, 116],
{
    broadcast use vstd::string::group_string_axioms;

    reveal_strlit("Hacker");
    reveal_strlit("Amber");
    reveal_strlit("Ice");
    reveal_strlit("Ghost");
    assert(vstd::string::is_ascii(hacker_theme().name));
    assert(vstd::string::is_ascii(amber_theme().name));
    assert(vstd::string::is_ascii(ice_theme().name));
    assert(vstd::string::is_ascii(ghost_theme().name));
    assert(hacker_theme().name.spec_bytes() =~= seq![72u8, 97, 99, 107, 101, 114]);
    assert(amber_theme().name.spec_bytes() =~= seq![65u8, 109, 98, 101, 114]);
    assert(ice_theme().name.spec_bytes() =~= seq![73u8, 99, 101]);
    assert(ghost_theme().name.spec_bytes() =~= seq![71u8, 104, 111, 115, 116]);
}

/// Looking a theme up by its own name finds that theme: the names in
/// [`Theme::all`] are pairwise different even up to ASCII case.
pub proof fn lemma_by_name_finds_each_theme(i: int)
    requires
        0 <= i < 4,
    ensures
        first_match(Theme::all_spec(), Theme::all_spec()[i].name.spec_bytes(), 0) == Some(i),
{
    lemma_theme_name_bytes();
    let all = Theme::all_spec();
    let n = all[i].name.spec_bytes();
    assert(ascii_ci_eq(n, n));
    reveal_with_fuel(first_match, 5);
    if i != 0 {
        assert(ascii_lower(all[0].name.spec_bytes()[0]) != ascii_lower(n[0])
            || all[0].name.spec_bytes().len() != n.len());
    }
    if i > 1 {
        assert(ascii_lower(all[1].name.spec_bytes()[0]) != ascii_lower(n[0])
            || all[1].name.spec_bytes().len() != n.len());
    }
    if i > 2 {
        assert(ascii_lower(all[2].name.spec_bytes()[0]) != ascii_lower(n[0])
            || all[2].name.spec_bytes().len() != n.len());
    }
}

} // verus!
