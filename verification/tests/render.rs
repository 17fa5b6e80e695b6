use ascii_arcade::color::RgbColor;
use ascii_arcade::font;
use ascii_arcade::frame::{Cell, Frame};
use ascii_arcade::render::{apply_glow, blit_glyph, glyph_bitmap, render, PixelBuffer, RenderOptions};
use ascii_arcade::theme::Theme;

/// Build a frame with `ch` (optional colour) at `(x, y)`, rest blank.
fn one_cell_frame(w: usize, h: usize, x: usize, y: usize, cell: Cell) -> Frame {
    let mut f = Frame::blank(w, h);
    f.set(x, y, cell);
    f
}

fn pixel(buf: &PixelBuffer, x: u32, y: u32) -> (u8, u8, u8, u8) {
    let off = ((y * buf.width + x) * 4) as usize;
    (
        buf.pixels[off],
        buf.pixels[off + 1],
        buf.pixels[off + 2],
        buf.pixels[off + 3],
    )
}

#[test]
fn output_dimensions_match_grid_times_cell() {
    let f = Frame::blank(10, 4);
    let opts = RenderOptions {
        cell_w: 8,
        cell_h: 16,
        ..Default::default()
    };
    let buf = render(&f, &opts);
    assert_eq!(buf.width, 80);
    assert_eq!(buf.height, 64);
    assert_eq!(buf.pixels.len(), 80 * 64 * 4);
}

#[test]
fn empty_grid_still_yields_nonzero_buffer() {
    let f = Frame::blank(0, 0);
    let buf = render(&f, &RenderOptions::default());
    assert!(buf.width >= 1 && buf.height >= 1);
    assert_eq!(buf.pixels.len() as u32, buf.width * buf.height * 4);
}

#[test]
fn all_blank_frame_is_pure_background() {
    // Disable FX so the assertion is exactly "every pixel == background".
    let opts = RenderOptions {
        theme: Theme::hacker(),
        scanlines: false,
        glow: false,
        ..Default::default()
    };
    let f = Frame::blank(6, 3);
    let buf = render(&f, &opts);
    let bg = opts.theme.background;
    for px in buf.pixels.chunks_exact(4) {
        assert_eq!((px[0], px[1], px[2], px[3]), (bg.r, bg.g, bg.b, 255));
    }
}

#[test]
fn blank_frame_with_scanlines_only_touches_background_rows() {
    // Scanlines on a blank Hacker frame: background is pure black, so
    // darkening it leaves black. Output must still be entirely background.
    let opts = RenderOptions {
        theme: Theme::hacker(),
        scanlines: true,
        glow: true,
        ..Default::default()
    };
    let buf = render(&Frame::blank(4, 4), &opts);
    let bg = opts.theme.background;
    for px in buf.pixels.chunks_exact(4) {
        assert_eq!((px[0], px[1], px[2]), (bg.r, bg.g, bg.b));
    }
}

#[test]
fn lit_cell_differs_from_background() {
    let opts = RenderOptions {
        cell_w: 8,
        cell_h: 16,
        theme: Theme::hacker(),
        scanlines: false,
        glow: false,
    };
    let red = RgbColor::new(255, 0, 0);
    let f = one_cell_frame(3, 3, 1, 1, Cell::new('A', Some(red)));
    let buf = render(&f, &opts);
    let bg = opts.theme.background;

    // Somewhere inside the lit cell there must be a pixel that isn't the
    // background colour (the glyph's strokes).
    let mut found_lit = false;
    for cy in 0..opts.cell_h {
        for cx in 0..opts.cell_w {
            let px = pixel(&buf, opts.cell_w + cx, opts.cell_h + cy);
            if (px.0, px.1, px.2) != (bg.r, bg.g, bg.b) {
                found_lit = true;
                // Lit pixels of an 'A' drawn red must be exactly red.
                assert_eq!((px.0, px.1, px.2), (255, 0, 0));
            }
        }
    }
    assert!(found_lit, "lit cell produced no non-background pixels");
}

#[test]
fn cell_without_color_uses_theme_text() {
    let opts = RenderOptions {
        cell_w: 8,
        cell_h: 16,
        theme: Theme::hacker(),
        scanlines: false,
        glow: false,
    };
    let f = one_cell_frame(1, 1, 0, 0, Cell::new('#', None));
    let buf = render(&f, &opts);
    let text = opts.theme.text;
    let lit = buf
        .pixels
        .chunks_exact(4)
        .any(|px| (px[0], px[1], px[2]) == (text.r, text.g, text.b));
    assert!(
        lit,
        "an uncoloured cell should be painted in the theme text colour"
    );
}

#[test]
fn unknown_glyph_draws_nothing() {
    let opts = RenderOptions {
        scanlines: false,
        glow: false,
        ..Default::default()
    };
    // A codepoint outside printable ASCII -> blank glyph, pure background.
    let f = one_cell_frame(2, 2, 0, 0, Cell::new('\u{2603}', Some(RgbColor::white())));
    let buf = render(&f, &opts);
    let bg = opts.theme.background;
    for px in buf.pixels.chunks_exact(4) {
        assert_eq!((px[0], px[1], px[2]), (bg.r, bg.g, bg.b));
    }
}

#[test]
fn glow_spreads_brightness_beyond_the_glyph() {
    // With glow on, a single lit cell on a dark theme should brighten some
    // background pixels around it that the bare glyph never touched.
    let no_fx = RenderOptions {
        theme: Theme::hacker(),
        scanlines: false,
        glow: false,
        ..Default::default()
    };
    let with_glow = RenderOptions {
        glow: true,
        ..no_fx
    };
    let f = one_cell_frame(5, 5, 2, 2, Cell::new('@', Some(RgbColor::new(0, 255, 0))));
    let plain = render(&f, &no_fx);
    let bloomed = render(&f, &with_glow);

    let mut spread = false;
    for (a, b) in plain
        .pixels
        .chunks_exact(4)
        .zip(bloomed.pixels.chunks_exact(4))
    {
        // A pixel that was background in `plain` but brighter in `bloomed`.
        if a[1] == Theme::hacker().background.g && b[1] > a[1] {
            spread = true;
            break;
        }
    }
    assert!(
        spread,
        "glow did not spread any brightness onto background pixels"
    );
}

#[test]
fn font_covers_all_printable_ascii() {
    for code in font::FIRST..=font::LAST {
        assert!(glyph_bitmap(code as char).is_some());
    }
    // Space exists but is entirely blank.
    assert!(glyph_bitmap(' ').unwrap().iter().all(|&b| b == 0));
    // A glyph with strokes is non-empty.
    assert!(glyph_bitmap('A').unwrap().iter().any(|&b| b != 0));
}

#[test]
fn test_render_edge_cases() {
    // Zero cell width/height should clamp to 1
    let f = one_cell_frame(1, 1, 0, 0, Cell::new('A', None));
    let opts = RenderOptions {
        cell_w: 0,
        cell_h: 0,
        theme: Theme::hacker(),
        scanlines: true,
        glow: true,
    };
    let buf = render(&f, &opts);
    assert_eq!(buf.width, 1);
    assert_eq!(buf.height, 1);

    // Empty PixelBuffer glow early return
    let mut empty_buf = PixelBuffer::new(0, 0);
    apply_glow(&mut empty_buf, Theme::hacker().background);
    assert_eq!(empty_buf.pixels.len(), 0);

    // Character outside printable ASCII in blit_glyph
    let mut buf_glyph = PixelBuffer::new(8, 16);
    blit_glyph(
        &mut buf_glyph,
        '\0',
        0,
        0,
        8,
        16,
        RgbColor::new(255, 255, 255),
    );
}

#[test]
fn blank_frame_with_glow_and_no_scanlines_is_pure_background_on_any_theme() {
    // The glow of a frame with nothing drawn adds nothing, whatever the theme.
    for theme in Theme::all() {
        let opts = RenderOptions { theme, scanlines: false, glow: true, ..Default::default() };
        let buf = render(&Frame::blank(3, 2), &opts);
        let bg = theme.background;
        for px in buf.pixels.chunks_exact(4) {
            assert_eq!((px[0], px[1], px[2], px[3]), (bg.r, bg.g, bg.b, 255));
        }
    }
}

#[test]
fn scanlines_dim_odd_rows_to_82_percent() {
    let opts = RenderOptions { theme: Theme::ghost(), scanlines: true, glow: false, ..Default::default() };
    let buf = render(&Frame::blank(1, 1), &opts);
    let bg = Theme::ghost().background; // 245, 245, 245
    let w = buf.width as usize;
    // Row 0 untouched, row 1 dimmed: 245 * 82 / 100 = 200.
    assert_eq!(buf.pixels[0], bg.r);
    let off = w * 4;
    assert_eq!(buf.pixels[off], 200);
    assert_eq!(buf.pixels[off + 3], 255);
}

#[test]
fn glyph_pixels_scale_to_the_cell() {
    // A 16 × 32 cell doubles the 8 × 16 glyph: source bit (col, row) covers
    // the 2 × 2 block at (2 col, 2 row).
    let opts = RenderOptions { cell_w: 16, cell_h: 32, theme: Theme::hacker(), scanlines: false, glow: false };
    let f = one_cell_frame(1, 1, 0, 0, Cell::new('A', Some(RgbColor::new(9, 8, 7))));
    let buf = render(&f, &opts);
    let glyph = glyph_bitmap('A').unwrap();
    for y in 0..32usize {
        for x in 0..16usize {
            let lit = glyph[y / 2] & (0x80u8 >> (x / 2)) != 0;
            let off = (y * 16 + x) * 4;
            let px = (buf.pixels[off], buf.pixels[off + 1], buf.pixels[off + 2]);
            if lit {
                assert_eq!(px, (9, 8, 7));
            } else {
                assert_eq!(px, (0, 0, 0));
            }
        }
    }
}

#[test]
fn blit_glyph_clips_at_the_buffer_edges() {
    let white = RgbColor::new(255, 255, 255);
    let mut big = PixelBuffer::new(16, 32);
    blit_glyph(&mut big, '#', 4, 8, 8, 16, white);
    let mut small = PixelBuffer::new(8, 16);
    blit_glyph(&mut small, '#', 4, 8, 8, 16, white);
    for y in 0..16 {
        for x in 0..8 {
            let s = (y * 8 + x) * 4;
            let b = (y * 16 + x) * 4;
            assert_eq!(small.pixels[s..s + 4], big.pixels[b..b + 4], "pixel ({x}, {y})");
        }
    }
    assert!(small.pixels.iter().any(|&v| v == 255), "the visible part is drawn");
    let mut off = PixelBuffer::new(8, 16);
    blit_glyph(&mut off, '#', 100, 100, 8, 16, white);
    assert!(off.pixels.iter().all(|&v| v == 0));
}

#[test]
fn glow_only_brightens_and_scanlines_dim_odd_rows() {
    let mut f = Frame::blank(4, 2);
    f.set(1, 0, Cell::new('#', Some(RgbColor::new(200, 100, 50))));
    f.set(2, 1, Cell::new('@', None));
    let plain = RenderOptions { glow: false, scanlines: false, ..Default::default() };
    let glowing = RenderOptions { glow: true, ..plain };
    let lined = RenderOptions { scanlines: true, ..plain };
    let p = render(&f, &plain);
    let g = render(&f, &glowing);
    let s = render(&f, &lined);
    assert!(p.pixels.iter().zip(g.pixels.iter()).all(|(a, b)| b >= a));
    let row = p.width as usize * 4;
    for (i, (&v, &w)) in p.pixels.iter().zip(s.pixels.iter()).enumerate() {
        let (y, c) = (i / row, i % 4);
        if c == 3 {
            assert_eq!((v, w), (255, 255));
        } else if y % 2 == 1 {
            assert_eq!(w as u32, v as u32 * 82 / 100);
        } else {
            assert_eq!(w, v);
        }
    }
}
