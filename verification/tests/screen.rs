use ascii_arcade::color::RgbColor;
use ascii_arcade::frame::Cell;
use ascii_arcade::screen::{parse_int_field, utf8_length, ScreenBuffer};

fn frame_text(buf: &ScreenBuffer) -> String {
    buf.snapshot().text()
}

#[test]
fn plain_text_fills_grid_from_home() {
    let mut buf = ScreenBuffer::new(3, 2);
    buf.feed(b"\x1b[;Hab\ncd");
    assert_eq!(frame_text(&buf), "ab \ncd ");
}

#[test]
fn cursor_position_is_one_based() {
    let mut buf = ScreenBuffer::new(4, 3);
    // Row 2, col 3 (1-based) → grid (row 1, col 2).
    buf.feed(b"\x1b[2;3HX");
    let f = buf.snapshot();
    assert_eq!(f.cells[f.idx(2, 1)].ch, 'X');
}

#[test]
fn erase_display_clears_everything() {
    let mut buf = ScreenBuffer::new(3, 2);
    buf.feed(b"\x1b[;Habcdef");
    buf.feed(b"\x1b[2J");
    assert_eq!(frame_text(&buf), "   \n   ");
}

#[test]
fn truecolor_sgr_sets_per_cell_color() {
    let mut buf = ScreenBuffer::new(2, 1);
    // Red 'X', then reset, then plain 'Y' (theme colour).
    buf.feed(b"\x1b[;H\x1b[38;2;255;0;0mX\x1b[0mY");
    let f = buf.snapshot();
    assert_eq!(f.cells[0], Cell::new('X', Some(RgbColor::new(255, 0, 0))));
    assert_eq!(f.cells[1], Cell::new('Y', None));
}

#[test]
fn sgr_39_resets_foreground() {
    let mut buf = ScreenBuffer::new(2, 1);
    buf.feed(b"\x1b[;H\x1b[38;2;1;2;3mA\x1b[39mB");
    let f = buf.snapshot();
    assert_eq!(f.cells[0].color, Some(RgbColor::new(1, 2, 3)));
    assert_eq!(f.cells[1].color, None);
}

#[test]
fn bold_and_other_sgr_are_dropped_but_keep_color() {
    let mut buf = ScreenBuffer::new(1, 1);
    // Bold flag then a colour in the same run; bold must not clobber colour.
    buf.feed(b"\x1b[;H\x1b[1m\x1b[38;2;10;20;30mZ");
    let f = buf.snapshot();
    assert_eq!(f.cells[0], Cell::new('Z', Some(RgbColor::new(10, 20, 30))));
}

#[test]
fn sgr_value_clamped_to_byte() {
    let mut buf = ScreenBuffer::new(1, 1);
    buf.feed(b"\x1b[;H\x1b[38;2;999;0;0mZ");
    let f = buf.snapshot();
    assert_eq!(f.cells[0].color, Some(RgbColor::new(255, 0, 0)));
}

#[test]
fn osc_window_title_is_skipped() {
    let mut buf = ScreenBuffer::new(5, 1);
    // OSC set-title (ESC ] 2 ; doom ESC \) then real content.
    buf.feed(b"\x1b[;H\x1b]2;doom\x1b\\hi");
    assert_eq!(frame_text(&buf), "hi   ");
}

#[test]
fn osc_terminated_by_bel_is_skipped() {
    let mut buf = ScreenBuffer::new(3, 1);
    buf.feed(b"\x1b[;H\x1b]2;t\x07ab");
    assert_eq!(frame_text(&buf), "ab ");
}

#[test]
fn split_escape_across_feeds_is_resumed() {
    let mut buf = ScreenBuffer::new(2, 2);
    // Cursor-home split mid-CSI, then content split mid-SGR.
    buf.feed(b"\x1b[");
    buf.feed(b";HA");
    buf.feed(b"\x1b[38;2;1;");
    buf.feed(b"2;3mB");
    let f = buf.snapshot();
    assert_eq!(f.cells[0], Cell::new('A', None));
    assert_eq!(f.cells[1], Cell::new('B', Some(RgbColor::new(1, 2, 3))));
}

#[test]
fn multibyte_glyph_split_across_feeds() {
    let mut buf = ScreenBuffer::new(2, 1);
    // '█' (U+2588) is 3 UTF-8 bytes: E2 96 88. Split after the first byte.
    buf.feed(b"\x1b[;H\xe2");
    buf.feed(b"\x96\x88X");
    let f = buf.snapshot();
    assert_eq!(f.cells[0].ch, '█');
    assert_eq!(f.cells[1].ch, 'X');
}

#[test]
fn out_of_bounds_cursor_does_not_panic() {
    let mut buf = ScreenBuffer::new(2, 2);
    // Write past the end of a row without a newline. We deliberately do NOT
    // auto-wrap: doom_ascii emits an explicit newline per scanline, so
    // wrapping would double-advance and drop a row. Overflow chars past the
    // row are discarded; the key assertion is simply that this never panics.
    buf.feed(b"\x1b[;HABCDEFGHIJ");
    assert_eq!(frame_text(&buf), "AB\n  ");
}

#[test]
fn show_message_centers_text() {
    let mut buf = ScreenBuffer::new(10, 3);
    buf.show_message("hi");
    let f = buf.snapshot();
    // Centered on the middle row.
    let row = 3 / 2;
    let text: String = (0..10).map(|c| f.cells[row * 10 + c].ch).collect();
    assert_eq!(text.trim(), "hi");
}

#[test]
fn erase_line_to_end_clears_tail() {
    let mut buf = ScreenBuffer::new(5, 1);
    buf.feed(b"\x1b[;HABCDE");
    // Home, move to col 3 (1-based), erase to end of line.
    buf.feed(b"\x1b[1;3H\x1b[0K");
    assert_eq!(frame_text(&buf), "AB   ");
}

#[test]
fn realistic_doom_frame_fragment() {
    // A miniature of an actual doom_ascii frame: home + clear + bold, two
    // coloured block pixels, reset.
    let mut buf = ScreenBuffer::new(4, 1);
    buf.feed(
        b"\x1b[;H\x1b[2J\x1b[1m\
          \x1b[38;2;200;0;0m\xe2\x96\x88\
          \x1b[38;2;0;0;200m\xe2\x96\x88\
          \x1b[0m",
    );
    let f = buf.snapshot();
    assert_eq!(f.cells[0], Cell::new('█', Some(RgbColor::new(200, 0, 0))));
    assert_eq!(f.cells[1], Cell::new('█', Some(RgbColor::new(0, 0, 200))));
    assert_eq!(f.cells[2], Cell::blank());
}

#[test]
fn erase_line_mode_1_and_mode_2() {
    let mut buf = ScreenBuffer::new(5, 2);
    buf.feed(b"\x1b[;HABCDE\r\nFGHIJ");
    // Mode 1: start of line to cursor (inclusive). Put cursor at col 3 (1-based), row 1.
    buf.feed(b"\x1b[1;3H\x1b[1K");
    let f = buf.snapshot();
    // Row 0 cols 0..=2 should be blank, rest untouched
    assert_eq!(
        &f.cells[0..5].iter().map(|c| c.ch).collect::<String>(),
        "   DE"
    );

    // Mode 2: entire line. Put cursor at row 2, erase entire line.
    buf.feed(b"\x1b[2;1H\x1b[2K");
    let f2 = buf.snapshot();
    assert_eq!(
        &f2.cells[5..10].iter().map(|c| c.ch).collect::<String>(),
        "     "
    );
}

#[test]
fn carriage_return_and_control_characters() {
    let mut buf = ScreenBuffer::new(5, 1);
    // CR resets cursor_col to 0
    buf.feed(b"ABC\rZ");
    assert_eq!(frame_text(&buf), "ZBC  ");

    // Other control bytes (0x00..=0x1f like 0x01, 0x08) are ignored
    buf.feed(b"\x1b[;H\x01\x02Hello");
    assert_eq!(frame_text(&buf), "Hello");
}

#[test]
fn csi_cursor_position_f_and_default_coords() {
    let mut buf = ScreenBuffer::new(4, 3);
    // Using 'f' instead of 'H'
    buf.feed(b"\x1b[2;2fQ");
    let f = buf.snapshot();
    assert_eq!(f.cells[f.idx(1, 1)].ch, 'Q');

    // Defaults to 1;1 when params are empty or missing
    buf.feed(b"\x1b[fW");
    let f2 = buf.snapshot();
    assert_eq!(f2.cells[f2.idx(0, 0)].ch, 'W');
}

#[test]
fn malformed_sgr_and_empty_sgr_resets_color() {
    let mut buf = ScreenBuffer::new(3, 1);
    // Empty SGR \x1b[m resets color
    buf.feed(b"\x1b[38;2;100;100;100mA\x1b[mB");
    let f = buf.snapshot();
    assert_eq!(f.cells[0].color, Some(RgbColor::new(100, 100, 100)));
    assert_eq!(f.cells[1].color, None);

    // Malformed 38 without enough components is ignored
    buf.feed(b"\x1b[38;5;123mC");
    let f2 = buf.snapshot();
    assert_eq!(f2.cells[2].ch, 'C');
}

#[test]
fn clear_and_show_message_with_overflow() {
    let mut buf = ScreenBuffer::new(4, 2);
    buf.feed(b"ABCD");
    buf.clear();
    assert_eq!(frame_text(&buf), "    \n    ");

    // Message longer than buffer width truncates gracefully
    buf.show_message("WAY_TOO_LONG_MESSAGE");
    let f = buf.snapshot();
    assert_eq!(f.width, 4);
    assert_eq!(f.height, 2);

    // Multiline show_message
    buf.show_message("Line 1\nLine 2\nLine 3\nLine 4");
    let f_multi = buf.snapshot();
    assert_eq!(f_multi.height, 2);
}

#[test]
fn screen_buffer_additional_edge_cases() {
    let mut buf = ScreenBuffer::new(3, 2);

    // 1. Partial ESC at end of buffer
    buf.feed(b"AB\x1b");
    assert_eq!(*buf.pending(), vec![0x1b]);
    buf.feed(b"[;HC");
    assert_eq!(frame_text(&buf), "CB \n   ");

    // 2. Partial OSC at end of buffer (missing terminator)
    let mut buf2 = ScreenBuffer::new(3, 2);
    buf2.feed(b"\x1b]2;incomplete");
    assert_eq!(*buf2.pending(), b"\x1b]2;incomplete".to_vec());
    buf2.feed(b"\x07X");
    assert_eq!(frame_text(&buf2), "X  \n   ");

    // 3. Partial ST in OSC (ending in ESC)
    let mut buf3 = ScreenBuffer::new(3, 2);
    buf3.feed(b"\x1b]2;title\x1b");
    assert_eq!(*buf3.pending(), b"\x1b]2;title\x1b".to_vec());
    buf3.feed(b"\\Y");
    assert_eq!(frame_text(&buf3), "Y  \n   ");

    // 4. Two-byte escape sequence (like ESC M or ESC \)
    let mut buf4 = ScreenBuffer::new(3, 2);
    buf4.feed(b"\x1bMhello");
    assert_eq!(frame_text(&buf4), "hel\n   ");

    // 5. Incomplete CSI terminator at end of buffer
    let mut buf5 = ScreenBuffer::new(3, 2);
    buf5.feed(b"\x1b[38;2;10;20;");
    assert_eq!(*buf5.pending(), b"\x1b[38;2;10;20;".to_vec());
    buf5.feed(b"30mZ");
    let snap = buf5.snapshot();
    assert_eq!(snap.cells[0].color, Some(RgbColor::new(10, 20, 30)));
    assert_eq!(snap.cells[0].ch, 'Z');

    // 6. Invalid UTF-8 sequence error branch
    // 0xE0 followed by invalid continuation byte 0x00
    let mut buf6 = ScreenBuffer::new(3, 2);
    buf6.feed(b"\xe0\x00\x00A");
    assert_eq!(frame_text(&buf6), "A  \n   ");

    // 7. Place when cursor_row >= height
    let mut small_buf = ScreenBuffer::new(2, 1);
    small_buf.feed(b"\n\n\nXYZ"); // cursor_row moves to 3 >= height 1

    // 8. Place when cursor_col >= width on same line (no auto-wrap)
    let mut row_buf = ScreenBuffer::new(2, 2);
    row_buf.feed(b"ABCDEF");
    assert_eq!(frame_text(&row_buf), "AB\n  ");

    // 9. Erase line (CSI K) with default mode (no param) and mode 0
    let mut erase_buf = ScreenBuffer::new(4, 2);
    erase_buf.feed(b"ABCD\nEFGH");
    erase_buf.feed(b"\x1b[1;2H\x1b[K"); // default erase to end of line
    assert_eq!(frame_text(&erase_buf), "A   \nEFGH");

    // 10. Erase line when cursor_row >= height
    erase_buf.feed(b"\x1b[10;1H\x1b[K");

    // 11. Erase line when cursor_col >= width
    let mut erase_buf2 = ScreenBuffer::new(2, 2);
    erase_buf2.feed(b"AB\nCD");
    erase_buf2.feed(b"\x1b[1;10H\x1b[K");

    // 12. CSI J default mode / any mode
    let mut clear_buf = ScreenBuffer::new(2, 2);
    clear_buf.feed(b"AB\nCD");
    clear_buf.feed(b"\x1b[J");
    assert_eq!(frame_text(&clear_buf), "  \n  ");

    // 13. Cursor position CSI H with partial numbers (e.g. \x1b[;5H, \x1b[10;H, \x1b[H)
    let mut cur_buf = ScreenBuffer::new(5, 5);
    cur_buf.feed(b"\x1b[;3HA"); // row 1, col 3
    assert_eq!(
        cur_buf.snapshot().cells[cur_buf.snapshot().idx(2, 0)].ch,
        'A'
    );
    cur_buf.feed(b"\x1b[3;HB"); // row 3, col 1
    assert_eq!(
        cur_buf.snapshot().cells[cur_buf.snapshot().idx(0, 2)].ch,
        'B'
    );
    cur_buf.feed(b"\x1b[HC"); // row 1, col 1
    assert_eq!(
        cur_buf.snapshot().cells[cur_buf.snapshot().idx(0, 0)].ch,
        'C'
    );

    // 14. Unknown CSI command
    cur_buf.feed(b"\x1b[?25h"); // cursor visible sequence, unhandled CSI
}

#[test]
fn parse_int_field_and_utf8_length_unit_tests() {
    // parse_int_field with non-digit
    assert_eq!(parse_int_field(b"12a3"), None);
    assert_eq!(parse_int_field(b""), None);
    assert_eq!(parse_int_field(b"123"), Some(123));

    // utf8_length for 2, 3, 4 bytes and 1 byte fallback
    assert_eq!(utf8_length(0b1100_0000), 2);
    assert_eq!(utf8_length(0b1110_0000), 3);
    assert_eq!(utf8_length(0b1111_0000), 4);
    assert_eq!(utf8_length(0b1111_1000), 1);
    assert_eq!(utf8_length(0x41), 1);
}
