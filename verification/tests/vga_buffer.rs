use kernel::framebuffer::{FrameInfo, PixelFormat};
use kernel::vga_buffer::{Cursor, DrawAction, Writer, GLYPH_HEIGHT, GLYPH_WIDTH, UNPRINTABLE};

fn screen(width: usize, height: usize) -> FrameInfo {
    FrameInfo { width, height, stride: width, bytes_per_pixel: 4, pixel_format: PixelFormat::Rgb }
}

fn at(x_pos: usize, y_pos: usize) -> Cursor {
    Cursor { x_pos, y_pos }
}

#[test]
fn a_cell_is_nine_by_fifteen() {
    assert_eq!(GLYPH_WIDTH, 9);
    assert_eq!(GLYPH_HEIGHT, 15);
    assert_eq!(UNPRINTABLE, 0xfe);
}

#[test]
fn characters_go_from_left_to_right() {
    let mut writer = Writer::new(screen(100, 100));
    assert_eq!(writer.position(), at(0, 0));
    let drawn = writer.write_string(b"ab");
    assert_eq!(
        drawn,
        vec![
            DrawAction::Glyph { byte: b'a', at: at(0, 0) },
            DrawAction::Glyph { byte: b'b', at: at(9, 0) },
        ]
    );
    assert_eq!(writer.position(), at(18, 0));
}

#[test]
fn a_line_feed_moves_to_the_start_of_the_next_line() {
    let mut writer = Writer::new(screen(100, 100));
    let drawn = writer.write_string(b"a\nb");
    assert_eq!(
        drawn,
        vec![
            DrawAction::Glyph { byte: b'a', at: at(0, 0) },
            DrawAction::Glyph { byte: b'b', at: at(0, 15) },
        ]
    );
    assert_eq!(writer.position(), at(9, 15));
    writer.new_line();
    assert_eq!(writer.position(), at(0, 30));
}

#[test]
fn the_line_breaks_before_the_right_edge() {
    // room for two cells: a third character would reach the edge at 27
    let mut writer = Writer::new(screen(27, 100));
    let drawn = writer.write_string(b"abc");
    assert_eq!(
        drawn,
        vec![
            DrawAction::Glyph { byte: b'a', at: at(0, 0) },
            DrawAction::Glyph { byte: b'b', at: at(9, 0) },
            DrawAction::Glyph { byte: b'c', at: at(0, 15) },
        ]
    );
    assert_eq!(writer.position(), at(9, 15));
}

#[test]
fn the_screen_is_wiped_at_the_bottom_edge() {
    // two lines fit: a character on the third starts over at the top
    let mut writer = Writer::new(screen(100, 31));
    let mut out = Vec::new();
    writer.write_byte(b'a', &mut out);
    writer.write_byte(b'\n', &mut out);
    writer.write_byte(b'b', &mut out);
    writer.write_byte(b'\n', &mut out);
    writer.write_byte(b'c', &mut out);
    assert_eq!(
        out,
        vec![
            DrawAction::Glyph { byte: b'a', at: at(0, 0) },
            DrawAction::Glyph { byte: b'b', at: at(0, 15) },
            DrawAction::Clear,
            DrawAction::Glyph { byte: b'c', at: at(0, 0) },
        ]
    );
    assert_eq!(writer.position(), at(9, 0));
}

#[test]
fn a_backspace_wipes_the_cell_to_the_left() {
    let mut writer = Writer::new(screen(100, 100));
    let drawn = writer.write_string(b"ab\x08");
    assert_eq!(drawn[2], DrawAction::Erase { at: at(9, 0) });
    assert_eq!(writer.position(), at(9, 0));
}

#[test]
fn a_backspace_at_the_start_of_a_line_goes_to_the_end_of_the_line_above() {
    let mut writer = Writer::new(screen(100, 100));
    let mut out = Vec::new();
    writer.write_byte(b'\n', &mut out);
    writer.backspace(&mut out);
    // eleven whole cells in a line of 100 pixels; the last starts at 90
    assert_eq!(out, vec![DrawAction::Erase { at: at(90, 0) }]);
    assert_eq!(writer.position(), at(90, 0));
}

#[test]
fn bytes_that_cannot_be_printed_are_marked() {
    let mut writer = Writer::new(screen(100, 100));
    let drawn = writer.write_string(&[0x07, b'~', 0x7f, 0xc3, b' ']);
    assert_eq!(
        drawn,
        vec![
            DrawAction::Glyph { byte: 0xfe, at: at(0, 0) },
            DrawAction::Glyph { byte: b'~', at: at(9, 0) },
            DrawAction::Glyph { byte: 0xfe, at: at(18, 0) },
            DrawAction::Glyph { byte: 0xfe, at: at(27, 0) },
            DrawAction::Glyph { byte: b' ', at: at(36, 0) },
        ]
    );
}

#[test]
fn an_empty_string_draws_nothing() {
    let mut writer = Writer::new(screen(100, 100));
    assert_eq!(writer.write_string(b""), vec![]);
    assert_eq!(writer.position(), at(0, 0));
}
