use mios::font_render::{print_font_debug, FramebufferWriter, DEFAULT_COLOR};
use mios::psf2::Psf2Font;

fn header(num_glyphs: u32, bytes_per_glyph: u32, height: u32, width: u32) -> Vec<u8> {
    let mut h = vec![0x72, 0xb5, 0x4a, 0x86];
    for v in [0u32, 32, 1, num_glyphs, bytes_per_glyph, height, width] {
        h.extend_from_slice(&v.to_le_bytes());
    }
    h
}

/// Glyph 0 blank ('?'), glyph 1 ('A') with the four corners of its 8x16 box lit.
fn font() -> Psf2Font {
    let mut f = header(2, 16, 16, 8);
    f.extend_from_slice(&[0u8; 16]);
    let mut a = [0u8; 16];
    a[0] = 0b1000_0001;
    a[15] = 0b1000_0001;
    f.extend_from_slice(&a);
    f.extend_from_slice(&[b'?', 0xFF, b'A', 0xFF]);
    Psf2Font::from_bytes(f).unwrap()
}

const STRIDE: usize = 32;
const HEIGHT: usize = 40;

fn writer() -> FramebufferWriter {
    FramebufferWriter::new(vec![0u32; STRIDE * HEIGHT], STRIDE, 0, 0, font())
}

fn lit(w: &FramebufferWriter) -> Vec<usize> {
    (0..w.pixels.len()).filter(|&p| w.pixels[p] != 0).collect()
}

#[test]
fn new_writer_starts_white_at_the_given_cursor() {
    let w = FramebufferWriter::new(vec![7u32; 4], 2, 3, 5, font());
    assert_eq!(w.pixels, vec![7u32; 4]);
    assert_eq!(w.stride, 2);
    assert_eq!((w.cursor_x, w.cursor_y), (3, 5));
    assert_eq!(w.color, DEFAULT_COLOR);
    assert_eq!(w.color, 0x00FF_FFFF);
}

#[test]
fn char_size_comes_from_the_header() {
    assert_eq!(writer().psf2_char_size(), (8, 16));
}

#[test]
fn set_color_changes_only_the_color() {
    let mut w = writer();
    w.set_color(0x0000_FFFF);
    assert_eq!(w.color, 0x0000_FFFF);
    assert_eq!((w.cursor_x, w.cursor_y), (0, 0));
    assert!(lit(&w).is_empty());
}

#[test]
fn print_draws_the_glyph_and_advances() {
    let mut w = writer();
    w.set_color(5);
    w.print("A");
    assert_eq!(lit(&w), vec![0, 7, 15 * STRIDE, 15 * STRIDE + 7]);
    assert!(lit(&w).iter().all(|&p| w.pixels[p] == 5));
    assert_eq!((w.cursor_x, w.cursor_y), (8, 0));
}

#[test]
fn unknown_characters_use_glyph_zero() {
    let mut w = writer();
    w.print("Z");
    assert!(lit(&w).is_empty());
    assert_eq!((w.cursor_x, w.cursor_y), (8, 0));
}

#[test]
fn newline_returns_to_column_zero_one_glyph_lower() {
    let mut w = writer();
    w.print("A\nA");
    assert_eq!((w.cursor_x, w.cursor_y), (8, 16));
    assert!(lit(&w).contains(&(16 * STRIDE)));
}

#[test]
fn cursor_wraps_when_the_next_cell_would_not_fit() {
    let mut w = writer();
    w.print("AA");
    assert_eq!((w.cursor_x, w.cursor_y), (16, 0));
    w.print("A");
    // 24 + 8 > 32 is false: no wrap yet
    assert_eq!((w.cursor_x, w.cursor_y), (24, 0));
    w.print("A");
    // 32 + 8 > 32: wrap
    assert_eq!((w.cursor_x, w.cursor_y), (0, 16));
}

#[test]
fn pixels_outside_the_buffer_are_not_drawn() {
    let mut w = FramebufferWriter::new(vec![0u32; STRIDE * 10], STRIDE, 0, 0, font());
    w.print("A");
    assert_eq!(lit(&w), vec![0, 7]);
}

#[test]
fn println_appends_a_newline() {
    let mut w = writer();
    w.println("A");
    assert_eq!((w.cursor_x, w.cursor_y), (0, 16));
    let mut v = writer();
    v.print("A\n");
    assert_eq!(v.pixels, w.pixels);
}

#[test]
fn print_num_writes_zero() {
    let mut w = writer();
    w.print_num(0);
    assert_eq!((w.cursor_x, w.cursor_y), (8, 0));
}

#[test]
fn print_char_writes_the_low_byte_when_ascii() {
    let mut w = writer();
    w.print_char('A');
    assert_eq!((w.cursor_x, w.cursor_y), (8, 0));
    assert_eq!(lit(&w).len(), 4);
    // U+0141 has low byte 0x41, 'A'
    let mut v = writer();
    v.print_char('\u{141}');
    assert_eq!(v.pixels, w.pixels);
    // 'é' has low byte 0xE9, no text on its own
    let mut u = writer();
    u.print_char('é');
    assert_eq!((u.cursor_x, u.cursor_y), (0, 0));
}

#[test]
fn print_in_pieces_equals_print_at_once() {
    let mut a = writer();
    a.print("AZ\nA");
    let mut b = writer();
    b.print("AZ");
    b.print("\nA");
    assert_eq!(a.pixels, b.pixels);
    assert_eq!((a.cursor_x, a.cursor_y), (b.cursor_x, b.cursor_y));
}

#[test]
fn backspace_undoes_a_typed_character() {
    let mut w = writer();
    w.print("A");
    w.print("A");
    let before = w.pixels.clone();
    w.print("A");
    w.backspace();
    assert_eq!(w.pixels, before);
    assert_eq!((w.cursor_x, w.cursor_y), (16, 0));
}

#[test]
fn backspace_at_line_start_does_nothing() {
    let mut w = writer();
    w.print("A\n");
    let before = w.pixels.clone();
    w.backspace();
    assert_eq!(w.pixels, before);
    assert_eq!((w.cursor_x, w.cursor_y), (0, 16));
}

#[test]
fn clear_screen_blanks_the_prefix_and_homes_the_cursor() {
    let mut w = FramebufferWriter::new(vec![9u32; 100], 10, 4, 4, font());
    w.clear_screen(10, 3);
    assert!(w.pixels[..30].iter().all(|&p| p == 0));
    assert!(w.pixels[30..].iter().all(|&p| p == 9));
    assert_eq!((w.cursor_x, w.cursor_y), (0, 0));
}

#[test]
fn overflow_checks_report_what_would_not_fit() {
    let mut w = writer();
    assert!(w.can_print("AAA\nA"));
    assert!(w.can_println("A"));
    w.cursor_y = usize::MAX - 10;
    assert!(w.can_print("AA"));
    assert!(!w.can_print("A\n"));
    assert!(!w.can_println(""));
    w.cursor_y = 0;
    w.cursor_x = usize::MAX - 16;
    assert!(w.can_print("A"));
    w.cursor_x = usize::MAX - 15;
    assert!(!w.can_print("A"));
}

#[test]
fn font_debug_report() {
    let mut f = header(145, 16, 16, 8);
    for g in 0..145u32 {
        for i in 0..16u32 {
            f.push(((g * 16 + i) % 251) as u8);
        }
    }
    f.extend_from_slice(&[b'?', 0xFF]);
    let font = Psf2Font::from_bytes(f.clone()).unwrap();
    let out = print_font_debug(&font);
    let mut expected = String::from("magic: 114 181 74 134\nbpg: 16\nh: 16\nw: 8\nflags: 1\nW glyph bytes:\n");
    for i in 0..26 {
        expected.push_str(&format!("{} ", f[2294 + i]));
    }
    expected.push('\n');
    assert_eq!(String::from_utf8(out).unwrap(), expected);
}

#[test]
fn cursor_leaves_room_for_another_cell() {
    for text in ["A", "AAAA", "A\nAA", "AAAAAAAAA", "\n"] {
        let mut w = writer();
        w.print(text);
        assert!(w.cursor_x + 8 <= w.stride);
    }
}

#[test]
fn cursor_row_moves_down_by_whole_glyph_heights() {
    let mut w = writer();
    w.print("A\n\nAAAAA");
    // two newlines and one wrap
    assert_eq!(w.cursor_y, 3 * 16);
    let mut v = writer();
    v.print("");
    assert_eq!((v.cursor_x, v.cursor_y), (0, 0));
}
