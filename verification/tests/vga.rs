use rustos::vga_buffer::{Color, ColorCode, Writer, BUFFER_HEIGHT, BUFFER_WIDTH};

fn writer() -> Writer {
    Writer::new(ColorCode::new(Color::Yellow, Color::Black))
}

fn row_text(w: &Writer, row: usize, len: usize) -> String {
    (0..len).map(|col| char::from(w.read_char(row, col).ascii_character)).collect()
}

#[test]
fn color_code_packs_background_high() {
    assert_eq!(ColorCode::new(Color::Yellow, Color::Black).0, 0x0e);
    assert_eq!(ColorCode::new(Color::Black, Color::White).0, 0xf0);
    assert_eq!(ColorCode::new(Color::LightCyan, Color::Blue).0, 0x1c);
    assert_eq!(Color::Pink.as_u8(), 13);
}

#[test]
fn new_writer_shows_blank_screen() {
    let w = writer();
    assert_eq!(w.column_position(), 0);
    let c = w.read_char(0, 0);
    assert_eq!(c.ascii_character, b' ');
    assert_eq!(c.color_code, ColorCode::new(Color::Yellow, Color::Black));
}

#[test]
fn test_println_output() {
    let s = "Some test string that fits on a single line";
    let mut w = writer();
    w.write_string("\n");
    w.write_string(s);
    w.write_string("\n");
    for (i, c) in s.chars().enumerate() {
        let screen_char = w.read_char(BUFFER_HEIGHT - 2, i);
        assert_eq!(char::from(screen_char.ascii_character), c);
    }
}

#[test]
fn write_byte_goes_to_bottom_row() {
    let mut w = writer();
    w.write_byte(b'H');
    w.write_byte(b'i');
    assert_eq!(w.column_position(), 2);
    assert_eq!(row_text(&w, BUFFER_HEIGHT - 1, 2), "Hi");
    assert_eq!(w.read_char(BUFFER_HEIGHT - 1, 0).color_code, ColorCode::new(Color::Yellow, Color::Black));
}

#[test]
fn unprintable_bytes_become_block() {
    let mut w = writer();
    w.write_string("a\u{e9}b");
    // the two bytes of the accented letter each become 0xfe
    assert_eq!(w.read_char(BUFFER_HEIGHT - 1, 0).ascii_character, b'a');
    assert_eq!(w.read_char(BUFFER_HEIGHT - 1, 1).ascii_character, 0xfe);
    assert_eq!(w.read_char(BUFFER_HEIGHT - 1, 2).ascii_character, 0xfe);
    assert_eq!(w.read_char(BUFFER_HEIGHT - 1, 3).ascii_character, b'b');
    assert_eq!(w.column_position(), 4);
}

#[test]
fn full_line_wraps_and_scrolls() {
    let mut w = writer();
    let line: String = std::iter::repeat('x').take(BUFFER_WIDTH).collect();
    w.write_string(&line);
    assert_eq!(w.column_position(), BUFFER_WIDTH);
    w.write_byte(b'y');
    assert_eq!(w.column_position(), 1);
    assert_eq!(row_text(&w, BUFFER_HEIGHT - 2, BUFFER_WIDTH), line);
    assert_eq!(w.read_char(BUFFER_HEIGHT - 1, 0).ascii_character, b'y');
    assert_eq!(w.read_char(BUFFER_HEIGHT - 1, 1).ascii_character, b' ');
}

#[test]
fn newlines_scroll_text_up() {
    let mut w = writer();
    w.write_string("first\nsecond\n");
    assert_eq!(row_text(&w, BUFFER_HEIGHT - 3, 5), "first");
    assert_eq!(row_text(&w, BUFFER_HEIGHT - 2, 6), "second");
    assert_eq!(row_text(&w, BUFFER_HEIGHT - 1, 6), "      ");
    assert_eq!(w.column_position(), 0);
    for _ in 0..BUFFER_HEIGHT {
        w.write_byte(b'\n');
    }
    assert_eq!(row_text(&w, 0, 6), "      ");
}

#[test]
fn writing_in_pieces_is_writing_joined() {
    let mut w1 = writer();
    let mut w2 = writer();
    w1.write_string("hello\nworld");
    w2.write_string("hel");
    w2.write_string("lo\nworld");
    for row in 0..BUFFER_HEIGHT {
        assert_eq!(row_text(&w1, row, BUFFER_WIDTH), row_text(&w2, row, BUFFER_WIDTH));
    }
    assert_eq!(w1.column_position(), w2.column_position());
}
