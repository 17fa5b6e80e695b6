//! An embedded 8×16 bitmap font covering printable ASCII (`' '..='~'`),
//! rasterised from DejaVu Sans Mono. Each glyph is 16 rows; bit 7 of a row
//! byte is the leftmost column.

use vstd::prelude::*;

verus! {

/// Width of a glyph in pixels.
pub const GLYPH_W: usize = 8;

/// Height of a glyph in pixels.
pub const GLYPH_H: usize = 16;

/// The first code point with a glyph.
pub const FIRST: u8 = 32;

/// The last code point with a glyph.
pub const LAST: u8 = 126;

/// Glyph bitmaps for code points `FIRST..=LAST`, in order.
pub const GLYPHS: [[u8; 16]; 95] = [
    // ' '
    [0x00, 0x00, 0x00, 0x00, 0x00, 0x00, 0x00, 0x00, 0x00, 0x00, 0x00, 0x00, 0x00, 0x00, 0x00, 0x00],
    // '!'
    [0x00, 0x00, 0x00, 0x18, 0x18, 0x18, 0x18, 0x18, 0x10, 0x00, 0x00, 0x18, 0x00, 0x00, 0x00, 0x00],
    // '"'
    [0x00, 0x00, 0x00, 0x24, 0x24, 0x24, 0x00, 0x00, 0x00, 0x00, 0x00, 0x00, 0x00, 0x00, 0x00, 0x00],
    // '#'
    [0x00, 0x00, 0x00, 0x12, 0x12, 0x14, 0x7F, 0x24, 0x24, 0xFE, 0x48, 0x48, 0x00, 0x00, 0x00, 0x00],
    // '$'
    [0x00, 0x00, 0x00, 0x00, 0x3C, 0x60, 0x40, 0x38, 0x0E, 0x02, 0x02, 0x3C, 0x00, 0x00, 0x00, 0x00],
    // '%'
    [0x00, 0x00, 0x00, 0x60, 0x90, 0x90, 0x66, 0x18, 0x4E, 0x08, 0x09, 0x0E, 0x00, 0x00, 0x00, 0x00],
    // '&'
    [0x00, 0x00, 0x00, 0x38, 0x20, 0x20, 0x20, 0x50, 0xC8, 0xCE, 0x46, 0x3E, 0x00, 0x00, 0x00, 0x00],
    // "'"
    [0x00, 0x00, 0x00, 0x10, 0x10, 0x10, 0x00, 0x00, 0x00, 0x00, 0x00, 0x00, 0x00, 0x00, 0x00, 0x00],
    // '('
    [0x00, 0x00, 0x08, 0x08, 0x10, 0x10, 0x10, 0x10, 0x10, 0x10, 0x10, 0x08, 0x08, 0x00, 0x00, 0x00],
    // ')'
    [0x00, 0x00, 0x30, 0x10, 0x18, 0x08, 0x08, 0x08, 0x08, 0x08, 0x18, 0x10, 0x30, 0x00, 0x00, 0x00],
    // '*'
    [0x00, 0x00, 0x00, 0x00, 0x40, 0x18, 0x3C, 0x00, 0x00, 0x00, 0x00, 0x00, 0x00, 0x00, 0x00, 0x00],
    // '+'
    [0x00, 0x00, 0x00, 0x00, 0x00, 0x10, 0x10, 0x7E, 0x10, 0x10, 0x10, 0x00, 0x00, 0x00, 0x00, 0x00],
    // ','
    [0x00, 0x00, 0x00, 0x00, 0x00, 0x00, 0x00, 0x00, 0x00, 0x00, 0x00, 0x18, 0x10, 0x10, 0x00, 0x00],
    // '-'
    [0x00, 0x00, 0x00, 0x00, 0x00, 0x00, 0x00, 0x00, 0x3C, 0x00, 0x00, 0x00, 0x00, 0x00, 0x00, 0x00],
    // '.'
    [0x00, 0x00, 0x00, 0x00, 0x00, 0x00, 0x00, 0x00, 0x00, 0x00, 0x18, 0x18, 0x00, 0x00, 0x00, 0x00],
    // '/'
    [0x00, 0x00, 0x00, 0x06, 0x04, 0x0C, 0x08, 0x18, 0x10, 0x10, 0x20, 0x20, 0x40, 0x00, 0x00, 0x00],
    // '0'
    [0x00, 0x00, 0x00, 0x3C, 0x64, 0x46, 0x42, 0x5A, 0x42, 0x46, 0x64, 0x3C, 0x00, 0x00, 0x00, 0x00],
    // '1'
    [0x00, 0x00, 0x00, 0x38, 0x08, 0x08, 0x08, 0x08, 0x08, 0x08, 0x08, 0x3E, 0x00, 0x00, 0x00, 0x00],
    // '2'
    [0x00, 0x00, 0x00, 0x78, 0x44, 0x06, 0x04, 0x0C, 0x18, 0x30, 0x60, 0x7E, 0x00, 0x00, 0x00, 0x00],
    // '3'
    [0x00, 0x00, 0x00, 0x78, 0x04, 0x06, 0x1C, 0x04, 0x06, 0x06, 0x06, 0x7C, 0x00, 0x00, 0x00, 0x00],
    // '4'
    [0x00, 0x00, 0x00, 0x0C, 0x1C, 0x14, 0x24, 0x24, 0x44, 0x7E, 0x04, 0x04, 0x00, 0x00, 0x00, 0x00],
    // '5'
    [0x00, 0x00, 0x00, 0x7C, 0x60, 0x40, 0x78, 0x04, 0x06, 0x06, 0x04, 0x78, 0x00, 0x00, 0x00, 0x00],
    // '6'
    [0x00, 0x00, 0x00, 0x1C, 0x20, 0x40, 0x5C, 0x66, 0x42, 0x42, 0x66, 0x3C, 0x00, 0x00, 0x00, 0x00],
    // '7'
    [0x00, 0x00, 0x00, 0x7E, 0x04, 0x04, 0x0C, 0x08, 0x08, 0x10, 0x10, 0x30, 0x00, 0x00, 0x00, 0x00],
    // '8'
    [0x00, 0x00, 0x00, 0x3C, 0x66, 0x46, 0x24, 0x3C, 0x66, 0x42, 0x66, 0x3C, 0x00, 0x00, 0x00, 0x00],
    // '9'
    [0x00, 0x00, 0x00, 0x3C, 0x64, 0x46, 0x46, 0x66, 0x3E, 0x06, 0x04, 0x38, 0x00, 0x00, 0x00, 0x00],
    // ':'
    [0x00, 0x00, 0x00, 0x00, 0x00, 0x18, 0x18, 0x00, 0x00, 0x00, 0x18, 0x18, 0x00, 0x00, 0x00, 0x00],
    // ';'
    [0x00, 0x00, 0x00, 0x00, 0x00, 0x00, 0x18, 0x18, 0x00, 0x00, 0x00, 0x18, 0x10, 0x10, 0x00, 0x00],
    // '<'
    [0x00, 0x00, 0x00, 0x00, 0x00, 0x02, 0x1C, 0x70, 0x60, 0x1C, 0x02, 0x00, 0x00, 0x00, 0x00, 0x00],
    // '='
    [0x00, 0x00, 0x00, 0x00, 0x00, 0x00, 0x00, 0x7E, 0x00, 0x7E, 0x00, 0x00, 0x00, 0x00, 0x00, 0x00],
    // '>'
    [0x00, 0x00, 0x00, 0x00, 0x00, 0x40, 0x30, 0x0E, 0x06, 0x38, 0x40, 0x00, 0x00, 0x00, 0x00, 0x00],
    // '?'
    [0x00, 0x00, 0x00, 0x3C, 0x04, 0x04, 0x0C, 0x08, 0x10, 0x00, 0x00, 0x10, 0x00, 0x00, 0x00, 0x00],
    // '@'
    [0x00, 0x00, 0x00, 0x1C, 0x62, 0x42, 0x8E, 0x92, 0x90, 0x92, 0x8E, 0x40, 0x20, 0x1C, 0x00, 0x00],
    // 'A'
    [0x00, 0x00, 0x00, 0x18, 0x18, 0x38, 0x24, 0x24, 0x64, 0x7E, 0x42, 0xC2, 0x00, 0x00, 0x00, 0x00],
    // 'B'
    [0x00, 0x00, 0x00, 0x7C, 0x46, 0x42, 0x46, 0x7C, 0x46, 0x42, 0x46, 0x7C, 0x00, 0x00, 0x00, 0x00],
    // 'C'
    [0x00, 0x00, 0x00, 0x1E, 0x20, 0x60, 0x40, 0x40, 0x40, 0x60, 0x20, 0x1E, 0x00, 0x00, 0x00, 0x00],
    // 'D'
    [0x00, 0x00, 0x00, 0x78, 0x44, 0x46, 0x42, 0x42, 0x42, 0x46, 0x44, 0x78, 0x00, 0x00, 0x00, 0x00],
    // 'E'
    [0x00, 0x00, 0x00, 0x7E, 0x60, 0x60, 0x60, 0x7E, 0x60, 0x60, 0x60, 0x7E, 0x00, 0x00, 0x00, 0x00],
    // 'F'
    [0x00, 0x00, 0x00, 0x7E, 0x60, 0x60, 0x60, 0x7E, 0x60, 0x60, 0x60, 0x60, 0x00, 0x00, 0x00, 0x00],
    // 'G'
    [0x00, 0x00, 0x00, 0x1C, 0x60, 0x40, 0x40, 0x4E, 0x42, 0x42, 0x62, 0x3C, 0x00, 0x00, 0x00, 0x00],
    // 'H'
    [0x00, 0x00, 0x00, 0x42, 0x42, 0x42, 0x42, 0x7E, 0x42, 0x42, 0x42, 0x42, 0x00, 0x00, 0x00, 0x00],
    // 'I'
    [0x00, 0x00, 0x00, 0x7E, 0x18, 0x18, 0x18, 0x18, 0x18, 0x18, 0x18, 0x7E, 0x00, 0x00, 0x00, 0x00],
    // 'J'
    [0x00, 0x00, 0x00, 0x3C, 0x04, 0x04, 0x04, 0x04, 0x04, 0x04, 0x0C, 0x78, 0x00, 0x00, 0x00, 0x00],
    // 'K'
    [0x00, 0x00, 0x00, 0x42, 0x44, 0x48, 0x70, 0x78, 0x48, 0x44, 0x46, 0x42, 0x00, 0x00, 0x00, 0x00],
    // 'L'
    [0x00, 0x00, 0x00, 0x60, 0x60, 0x60, 0x60, 0x60, 0x60, 0x60, 0x60, 0x7E, 0x00, 0x00, 0x00, 0x00],
    // 'M'
    [0x00, 0x00, 0x00, 0x46, 0x66, 0x66, 0x5A, 0x5A, 0x52, 0x42, 0x42, 0x42, 0x00, 0x00, 0x00, 0x00],
    // 'N'
    [0x00, 0x00, 0x00, 0x62, 0x62, 0x72, 0x52, 0x52, 0x4A, 0x4E, 0x46, 0x46, 0x00, 0x00, 0x00, 0x00],
    // 'O'
    [0x00, 0x00, 0x00, 0x3C, 0x64, 0x42, 0x42, 0x42, 0x42, 0x42, 0x64, 0x3C, 0x00, 0x00, 0x00, 0x00],
    // 'P'
    [0x00, 0x00, 0x00, 0x7C, 0x66, 0x62, 0x66, 0x7C, 0x60, 0x60, 0x60, 0x60, 0x00, 0x00, 0x00, 0x00],
    // 'Q'
    [0x00, 0x00, 0x00, 0x3C, 0x64, 0x42, 0x42, 0x42, 0x42, 0x42, 0x64, 0x3C, 0x04, 0x00, 0x00, 0x00],
    // 'R'
    [0x00, 0x00, 0x00, 0x7C, 0x44, 0x46, 0x46, 0x7C, 0x4C, 0x44, 0x42, 0x43, 0x00, 0x00, 0x00, 0x00],
    // 'S'
    [0x00, 0x00, 0x00, 0x3C, 0x60, 0x40, 0x60, 0x3C, 0x06, 0x02, 0x46, 0x7C, 0x00, 0x00, 0x00, 0x00],
    // 'T'
    [0x00, 0x00, 0x00, 0xFF, 0x18, 0x18, 0x18, 0x18, 0x18, 0x18, 0x18, 0x18, 0x00, 0x00, 0x00, 0x00],
    // 'U'
    [0x00, 0x00, 0x00, 0x42, 0x42, 0x42, 0x42, 0x42, 0x42, 0x42, 0x66, 0x3C, 0x00, 0x00, 0x00, 0x00],
    // 'V'
    [0x00, 0x00, 0x00, 0x42, 0x42, 0x46, 0x64, 0x24, 0x24, 0x28, 0x18, 0x18, 0x00, 0x00, 0x00, 0x00],
    // 'W'
    [0x00, 0x00, 0x00, 0x81, 0x83, 0xDA, 0x5A, 0x5A, 0x4A, 0x66, 0x66, 0x64, 0x00, 0x00, 0x00, 0x00],
    // 'X'
    [0x00, 0x00, 0x00, 0x42, 0x24, 0x24, 0x18, 0x18, 0x38, 0x24, 0x46, 0xC2, 0x00, 0x00, 0x00, 0x00],
    // 'Y'
    [0x00, 0x00, 0x00, 0x42, 0x46, 0x24, 0x38, 0x18, 0x18, 0x18, 0x18, 0x18, 0x00, 0x00, 0x00, 0x00],
    // 'Z'
    [0x00, 0x00, 0x00, 0x7E, 0x06, 0x04, 0x08, 0x18, 0x10, 0x20, 0x60, 0x7E, 0x00, 0x00, 0x00, 0x00],
    // '['
    [0x00, 0x00, 0x1C, 0x10, 0x10, 0x10, 0x10, 0x10, 0x10, 0x10, 0x10, 0x10, 0x1C, 0x00, 0x00, 0x00],
    // backslash
    [0x00, 0x00, 0x00, 0x40, 0x60, 0x20, 0x30, 0x10, 0x10, 0x08, 0x08, 0x04, 0x04, 0x00, 0x00, 0x00],
    // ']'
    [0x00, 0x00, 0x38, 0x08, 0x08, 0x08, 0x08, 0x08, 0x08, 0x08, 0x08, 0x08, 0x38, 0x00, 0x00, 0x00],
    // '^'
    [0x00, 0x00, 0x00, 0x18, 0x24, 0x42, 0x00, 0x00, 0x00, 0x00, 0x00, 0x00, 0x00, 0x00, 0x00, 0x00],
    // '_'
    [0x00, 0x00, 0x00, 0x00, 0x00, 0x00, 0x00, 0x00, 0x00, 0x00, 0x00, 0x00, 0x00, 0x00, 0xFE, 0x00],
    // '`'
    [0x00, 0x00, 0x10, 0x10, 0x00, 0x00, 0x00, 0x00, 0x00, 0x00, 0x00, 0x00, 0x00, 0x00, 0x00, 0x00],
    // 'a'
    [0x00, 0x00, 0x00, 0x00, 0x00, 0x3C, 0x04, 0x06, 0x3E, 0x46, 0x46, 0x3E, 0x00, 0x00, 0x00, 0x00],
    // 'b'
    [0x00, 0x00, 0x40, 0x40, 0x40, 0x7C, 0x66, 0x62, 0x42, 0x62, 0x66, 0x7C, 0x00, 0x00, 0x00, 0x00],
    // 'c'
    [0x00, 0x00, 0x00, 0x00, 0x00, 0x1C, 0x20, 0x60, 0x60, 0x60, 0x20, 0x1C, 0x00, 0x00, 0x00, 0x00],
    // 'd'
    [0x00, 0x00, 0x06, 0x06, 0x06, 0x3E, 0x66, 0x46, 0x46, 0x46, 0x46, 0x3E, 0x00, 0x00, 0x00, 0x00],
    // 'e'
    [0x00, 0x00, 0x00, 0x00, 0x00, 0x3C, 0x66, 0x42, 0x7E, 0x40, 0x60, 0x3C, 0x00, 0x00, 0x00, 0x00],
    // 'f'
    [0x00, 0x00, 0x0E, 0x10, 0x10, 0x7E, 0x10, 0x10, 0x10, 0x10, 0x10, 0x10, 0x00, 0x00, 0x00, 0x00],
    // 'g'
    [0x00, 0x00, 0x00, 0x00, 0x00, 0x3E, 0x66, 0x46, 0x46, 0x46, 0x66, 0x3E, 0x06, 0x04, 0x38, 0x00],
    // 'h'
    [0x00, 0x00, 0x40, 0x40, 0x40, 0x7C, 0x64, 0x46, 0x46, 0x46, 0x46, 0x46, 0x00, 0x00, 0x00, 0x00],
    // 'i'
    [0x00, 0x00, 0x18, 0x00, 0x00, 0x38, 0x18, 0x18, 0x18, 0x18, 0x18, 0x7E, 0x00, 0x00, 0x00, 0x00],
    // 'j'
    [0x00, 0x00, 0x08, 0x00, 0x00, 0x38, 0x08, 0x08, 0x08, 0x08, 0x08, 0x08, 0x08, 0x08, 0x70, 0x00],
    // 'k'
    [0x00, 0x00, 0x60, 0x60, 0x60, 0x66, 0x6C, 0x78, 0x78, 0x6C, 0x66, 0x62, 0x00, 0x00, 0x00, 0x00],
    // 'l'
    [0x00, 0x00, 0x70, 0x10, 0x10, 0x10, 0x10, 0x10, 0x10, 0x10, 0x10, 0x0E, 0x00, 0x00, 0x00, 0x00],
    // 'm'
    [0x00, 0x00, 0x00, 0x00, 0x00, 0x76, 0x5A, 0x52, 0x52, 0x52, 0x52, 0x52, 0x00, 0x00, 0x00, 0x00],
    // 'n'
    [0x00, 0x00, 0x00, 0x00, 0x00, 0x7C, 0x64, 0x46, 0x46, 0x46, 0x46, 0x46, 0x00, 0x00, 0x00, 0x00],
    // 'o'
    [0x00, 0x00, 0x00, 0x00, 0x00, 0x3C, 0x64, 0x42, 0x42, 0x42, 0x64, 0x3C, 0x00, 0x00, 0x00, 0x00],
    // 'p'
    [0x00, 0x00, 0x00, 0x00, 0x00, 0x7C, 0x66, 0x42, 0x42, 0x62, 0x66, 0x7C, 0x40, 0x40, 0x40, 0x00],
    // 'q'
    [0x00, 0x00, 0x00, 0x00, 0x00, 0x3E, 0x66, 0x46, 0x46, 0x46, 0x66, 0x3E, 0x02, 0x02, 0x02, 0x00],
    // 'r'
    [0x00, 0x00, 0x00, 0x00, 0x00, 0x3E, 0x30, 0x30, 0x20, 0x20, 0x20, 0x20, 0x00, 0x00, 0x00, 0x00],
    // 's'
    [0x00, 0x00, 0x00, 0x00, 0x00, 0x3C, 0x60, 0x60, 0x3C, 0x04, 0x04, 0x3C, 0x00, 0x00, 0x00, 0x00],
    // 't'
    [0x00, 0x00, 0x00, 0x10, 0x10, 0x7C, 0x10, 0x10, 0x10, 0x10, 0x10, 0x1C, 0x00, 0x00, 0x00, 0x00],
    // 'u'
    [0x00, 0x00, 0x00, 0x00, 0x00, 0x46, 0x46, 0x46, 0x46, 0x46, 0x66, 0x3E, 0x00, 0x00, 0x00, 0x00],
    // 'v'
    [0x00, 0x00, 0x00, 0x00, 0x00, 0x42, 0x46, 0x24, 0x24, 0x2C, 0x18, 0x18, 0x00, 0x00, 0x00, 0x00],
    // 'w'
    [0x00, 0x00, 0x00, 0x00, 0x00, 0x81, 0x82, 0x5A, 0x5A, 0x5A, 0x66, 0x24, 0x00, 0x00, 0x00, 0x00],
    // 'x'
    [0x00, 0x00, 0x00, 0x00, 0x00, 0x46, 0x24, 0x18, 0x18, 0x38, 0x24, 0x42, 0x00, 0x00, 0x00, 0x00],
    // 'y'
    [0x00, 0x00, 0x00, 0x00, 0x00, 0x42, 0x42, 0x24, 0x24, 0x3C, 0x18, 0x18, 0x10, 0x10, 0x60, 0x00],
    // 'z'
    [0x00, 0x00, 0x00, 0x00, 0x00, 0x7E, 0x04, 0x08, 0x18, 0x30, 0x20, 0x7E, 0x00, 0x00, 0x00, 0x00],
    // '{'
    [0x00, 0x00, 0x0C, 0x18, 0x18, 0x18, 0x10, 0x70, 0x10, 0x18, 0x18, 0x18, 0x18, 0x0C, 0x00, 0x00],
    // '|'
    [0x00, 0x00, 0x10, 0x10, 0x10, 0x10, 0x10, 0x10, 0x10, 0x10, 0x10, 0x10, 0x10, 0x10, 0x00, 0x00],
    // '}'
    [0x00, 0x00, 0x70, 0x10, 0x10, 0x10, 0x18, 0x0C, 0x18, 0x10, 0x10, 0x10, 0x10, 0x70, 0x00, 0x00],
    // '~'
    [0x00, 0x00, 0x00, 0x00, 0x00, 0x00, 0x00, 0x70, 0x0E, 0x00, 0x00, 0x00, 0x00, 0x00, 0x00, 0x00],
];

} // verus!
