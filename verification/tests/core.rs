use ascii_arcade::ansi::frame_to_ansi;
use ascii_arcade::color::RgbColor;
use ascii_arcade::frame::{Cell, Frame};
use ascii_arcade::rng::SeededRng;
use ascii_arcade::engine::{frame_colors, frame_glyphs, themes_json};
use ascii_arcade::theme::{resolve_theme, Theme};

#[test]
fn blank_frame_contains_clear_and_reset() {
    let f = Frame::blank(4, 2);
    let out = frame_to_ansi(&f, &Theme::hacker());
    assert!(out.starts_with("\x1b[2J\x1b[H"));
    assert!(out.ends_with("\x1b[0m"));
}

#[test]
fn non_blank_cell_emits_truecolor_escape_and_char() {
    let mut f = Frame::blank(1, 1);
    f.set(0, 0, Cell::new('X', Some(RgbColor::new(10, 20, 30))));
    let out = frame_to_ansi(&f, &Theme::hacker());
    assert!(out.contains("\x1b[38;2;10;20;30mX"));
}

#[test]
fn consecutive_same_color_cells_share_one_escape() {
    let mut f = Frame::blank(3, 1);
    let color = RgbColor::new(0, 255, 0);
    for x in 0..3 {
        f.set(x, 0, Cell::new('A', Some(color)));
    }
    let out = frame_to_ansi(&f, &Theme::hacker());
    assert_eq!(out.matches("\x1b[38;2;").count(), 1);
}

#[test]
fn space_cell_emits_no_escape() {
    let f = Frame::blank(2, 1);
    let out = frame_to_ansi(&f, &Theme::hacker());
    assert!(!out.contains("\x1b[38;2;"));
}

#[test]
fn text_joins_rows() {
    let mut f = Frame::blank(2, 2);
    f.set_char(0, 0, 'a');
    f.set_char(1, 0, 'b');
    f.set_char(0, 1, 'c');
    f.set_char(1, 1, 'd');
    assert_eq!(f.text(), "ab\ncd");
}

#[test]
fn out_of_bounds_set_is_ignored() {
    let mut f = Frame::blank(2, 2);
    f.set_char(5, 5, 'x');
    assert_eq!(f.text(), "  \n  ");
}

#[test]
fn deterministic_for_same_seed() {
    let mut a = SeededRng::new(42);
    let mut b = SeededRng::new(42);
    for _ in 0..100 {
        assert_eq!(a.next_u64(), b.next_u64());
    }
}

#[test]
fn default_theme_is_hacker() {
    assert_eq!(Theme::default(), Theme::hacker());
}

#[test]
fn by_name_finds_all_themes_case_insensitively() {
    assert_eq!(Theme::by_name("hacker"), Some(Theme::hacker()));
    assert_eq!(Theme::by_name("HACKER"), Some(Theme::hacker()));
    assert_eq!(Theme::by_name("Hacker"), Some(Theme::hacker()));

    assert_eq!(Theme::by_name("amber"), Some(Theme::amber()));
    assert_eq!(Theme::by_name("Amber"), Some(Theme::amber()));

    assert_eq!(Theme::by_name("ice"), Some(Theme::ice()));
    assert_eq!(Theme::by_name("ICE"), Some(Theme::ice()));

    assert_eq!(Theme::by_name("ghost"), Some(Theme::ghost()));
    assert_eq!(Theme::by_name("GhOsT"), Some(Theme::ghost()));

    assert_eq!(Theme::by_name("nonexistent"), None);
    assert_eq!(Theme::by_name(""), None);
}

#[test]
fn all_contains_expected_themes_and_count() {
    assert_eq!(Theme::all().len(), 4);
    assert_eq!(Theme::all()[0], Theme::hacker());
    assert_eq!(Theme::all()[1], Theme::amber());
    assert_eq!(Theme::all()[2], Theme::ice());
    assert_eq!(Theme::all()[3], Theme::ghost());

    for theme in Theme::all() {
        assert!(!theme.name.is_empty());
        assert_eq!(Theme::by_name(theme.name), Some(theme));
    }
}

#[test]
fn to_argb_packs_opaque_channels() {
    assert_eq!(RgbColor::new(0x12, 0x34, 0x56).to_argb(), 0xFF12_3456);
    assert_eq!(RgbColor::black().to_argb(), 0xFF00_0000);
    assert_eq!(RgbColor::white().to_argb(), 0xFFFF_FFFF);
}

#[test]
fn rng_draws_match_splitmix64() {
    // SplitMix64 reference values for seed 0 (which the generator maps to the
    // golden-ratio increment) are the well-known sequence from seed 0x9E37...:
    // the first draw from state 0 is 0xE220A8397B1DCDAF.
    let mut r = SeededRng::new(0x9E37_79B9_7F4A_7C15);
    let mut z = SeededRng::new(0);
    assert_eq!(r.next_u64(), z.next_u64());
    let mut k = SeededRng::new(1);
    let v = k.next_u64();
    assert_eq!(v, 0x910A_2DEC_8902_5CC1);
}

#[test]
fn rng_ranges_stay_in_bounds() {
    let mut r = SeededRng::new(7);
    for _ in 0..1000 {
        assert!(r.next_below(13) < 13);
        let v = r.next_range_inclusive(-3, 4);
        assert!((-3..=4).contains(&v));
    }
    let items = [10, 20, 30];
    for _ in 0..50 {
        assert!(items.contains(r.choose_item(&items)));
    }
}

#[test]
fn frame_idx_is_row_major() {
    let f = Frame::blank(7, 3);
    assert_eq!(f.idx(2, 1), 9);
    assert_eq!(f.cells.len(), 21);
    assert!(f.cells.iter().all(|c| *c == Cell::blank()));
    assert_eq!(Cell::default(), Cell::blank());
}

#[test]
fn ansi_resets_colour_before_theme_cells_and_ends_rows() {
    let mut f = Frame::blank(2, 2);
    f.set(0, 0, Cell::new('A', Some(RgbColor::new(1, 2, 3))));
    f.set(1, 0, Cell::new('B', None));
    let out = frame_to_ansi(&f, &Theme::amber());
    // Theme-coloured cell uses the theme text colour.
    assert!(out.contains("\x1b[38;2;1;2;3mA\x1b[38;2;255;166;0mB"));
}

#[test]
fn resolve_theme_finds_valid_and_falls_back_for_unknown() {
    assert_eq!(resolve_theme("amber").name, "Amber");
    assert_eq!(resolve_theme("ice").name, "Ice");
    assert_eq!(resolve_theme("ghost").name, "Ghost");
    assert_eq!(resolve_theme("hacker").name, "Hacker");
    assert_eq!(resolve_theme("unknown_theme_123").name, "Hacker");
}

#[test]
fn engine_flattens_glyphs_and_colours() {
    let mut f = Frame::blank(3, 2);
    f.set(0, 0, Cell::new('A', Some(RgbColor::new(1, 2, 3))));
    f.set(2, 1, Cell::new('Z', Some(RgbColor::new(0, 0, 0))));
    f.set_char(1, 0, 'b');
    assert_eq!(frame_glyphs(&f), "Ab   Z");
    assert_eq!(frame_glyphs(&f).chars().count(), 6);
    let c = frame_colors(&f);
    assert_eq!(c, vec![0xFF01_0203, 0, 0, 0, 0, 0xFF00_0000]);
    assert!(c.iter().any(|&w| w == 0));
}

#[test]
fn themes_json_lists_all_four() {
    let json = themes_json();
    for name in ["Hacker", "Amber", "Ice", "Ghost"] {
        assert!(json.contains(name), "missing {name}");
    }
    assert!(json.starts_with(r#"[{"name":"Hacker","text":[48,209,88],"background":[0,0,0]},"#));
    assert!(json.ends_with(r#"{"name":"Ghost","text":[28,28,30],"background":[245,245,245]}]"#));
}

fn splitmix(s: u64) -> u64 {
    let mut z = s;
    z = (z ^ (z >> 30)).wrapping_mul(0xBF58_476D_1CE4_E5B9);
    z = (z ^ (z >> 27)).wrapping_mul(0x94D0_49BB_1331_11EB);
    z ^ (z >> 31)
}

#[test]
fn draw_after_k_draws_has_a_closed_form() {
    const G: u64 = 0x9E37_79B9_7F4A_7C15;
    for seed in [1u64, 42, u64::MAX] {
        let mut r = SeededRng::new(seed);
        for k in 0..20u64 {
            assert_eq!(r.next_u64(), splitmix(seed.wrapping_add((k + 1).wrapping_mul(G))));
        }
    }
    let mut zero = SeededRng::new(0);
    let mut golden = SeededRng::new(G);
    for _ in 0..10 {
        assert_eq!(zero.next_u64(), golden.next_u64());
    }
}

#[test]
fn distinct_seeds_give_distinct_first_draws() {
    let firsts: Vec<u64> = (1..200u64).map(|s| SeededRng::new(s).next_u64()).collect();
    let mut sorted = firsts.clone();
    sorted.sort();
    sorted.dedup();
    assert_eq!(sorted.len(), firsts.len());
}
