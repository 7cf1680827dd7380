use mios::psf2::{decode_utf8, glyph_index, read_le_u32, utf8_len, Psf2Font};

fn header(num_glyphs: u32, bytes_per_glyph: u32, height: u32, width: u32) -> Vec<u8> {
    let mut h = vec![0x72, 0xb5, 0x4a, 0x86];
    for v in [0u32, 32, 1, num_glyphs, bytes_per_glyph, height, width] {
        h.extend_from_slice(&v.to_le_bytes());
    }
    h
}

/// Three 8x16 glyphs: 0 blank ('?'), 1 with its corners lit ('A'), 2 a full
/// first row ('é' and '€').
fn small_font() -> Vec<u8> {
    let mut f = header(3, 16, 16, 8);
    f.extend_from_slice(&[0u8; 16]);
    let mut a = [0u8; 16];
    a[0] = 0b1000_0001;
    a[15] = 0b1000_0001;
    f.extend_from_slice(&a);
    let mut e = [0u8; 16];
    e[0] = 0xFF;
    f.extend_from_slice(&e);
    f.extend_from_slice(&[b'?', 0xFF, b'A', 0xFF, 0xC3, 0xA9, 0xE2, 0x82, 0xAC, 0xFF]);
    f
}

#[test]
fn header_fields_are_little_endian() {
    let f = small_font();
    assert_eq!(read_le_u32(&f, 0), 0x864a_b572);
    assert_eq!(read_le_u32(&f, 16), 3);
    assert_eq!(read_le_u32(&f, 28), 8);
}

#[test]
fn utf8_lengths_by_lead_byte() {
    assert_eq!(utf8_len(b'a'), 1);
    assert_eq!(utf8_len(0xC3), 2);
    assert_eq!(utf8_len(0xE2), 3);
    assert_eq!(utf8_len(0xF0), 1);
    assert_eq!(utf8_len(0x80), 1);
}

#[test]
fn decode_one_two_and_three_byte_sequences() {
    let b = [b'A', 0xC3, 0xA9, 0xE2, 0x82, 0xAC, 0xF0, 0x9F, 0x98, 0x80, 0x85];
    assert_eq!(decode_utf8(&b, 0), (0x41, 1));
    assert_eq!(decode_utf8(&b, 1), (0xE9, 2));
    assert_eq!(decode_utf8(&b, 3), (0x20AC, 3));
    // four-byte lead bytes and stray continuation bytes stand alone as 0
    assert_eq!(decode_utf8(&b, 6), (0, 1));
    assert_eq!(decode_utf8(&b, 10), (0, 1));
}

#[test]
fn decode_agrees_with_std_encoding_below_u10000() {
    for c in ['a', '~', 'é', 'ß', 'Ω', '€', '中', '\u{FFFF}'] {
        let mut buf = [0u8; 4];
        let s = c.encode_utf8(&mut buf);
        let bytes = s.as_bytes();
        assert_eq!(decode_utf8(bytes, 0), (c as u32, bytes.len()));
    }
    let mut buf = [0u8; 4];
    let s = '😀'.encode_utf8(&mut buf);
    assert_eq!(decode_utf8(s.as_bytes(), 0), (0, 1));
}

#[test]
fn well_formed_font_is_accepted() {
    let f = small_font();
    let font = Psf2Font::from_bytes(f.clone()).unwrap();
    assert_eq!(font.len(), f.len());
    assert_eq!(font.byte(33), f[33]);
    assert_eq!(font.header_u32(24), 16);
}

#[test]
fn glyph_lookup_follows_the_unicode_table() {
    let font = Psf2Font::from_bytes(small_font()).unwrap();
    assert_eq!(glyph_index(&font, '?'), 0);
    assert_eq!(glyph_index(&font, 'A'), 1);
    assert_eq!(glyph_index(&font, 'é'), 2);
    assert_eq!(glyph_index(&font, '€'), 2);
    assert_eq!(glyph_index(&font, 'Z'), 0);
}

#[test]
fn first_listing_wins() {
    let mut f = header(2, 16, 16, 8);
    f.extend_from_slice(&[0u8; 32]);
    f.extend_from_slice(&[b'x', 0xFF, b'x', b'y', 0xFF]);
    let font = Psf2Font::from_bytes(f).unwrap();
    assert_eq!(glyph_index(&font, 'x'), 0);
    assert_eq!(glyph_index(&font, 'y'), 1);
}

#[test]
fn short_header_is_rejected() {
    assert!(Psf2Font::from_bytes(vec![0u8; 31]).is_none());
}

#[test]
fn table_start_beyond_data_is_rejected() {
    let mut f = header(100, 16, 16, 8);
    f.extend_from_slice(&[0u8; 16]);
    assert!(Psf2Font::from_bytes(f).is_none());
}

#[test]
fn truncated_sequence_is_rejected() {
    let mut f = small_font();
    f.push(0xE2);
    f.push(0x82);
    assert!(Psf2Font::from_bytes(f).is_none());
}

#[test]
fn missing_bitmaps_are_rejected() {
    // the table names four glyphs but only three bitmaps are stored
    let mut f = header(3, 16, 16, 8);
    f.extend_from_slice(&[0u8; 48]);
    f.extend_from_slice(&[b'a', 0xFF, b'b', 0xFF, b'c', 0xFF, b'd', 0xFF]);
    assert!(Psf2Font::from_bytes(f).is_none());
}

#[test]
fn empty_table_needs_one_bitmap() {
    let f = header(0, 16, 16, 8);
    assert!(Psf2Font::from_bytes(f).is_none());
    let mut g = header(1, 16, 16, 8);
    g.extend_from_slice(&[0u8; 16]);
    let font = Psf2Font::from_bytes(g).unwrap();
    assert_eq!(glyph_index(&font, 'q'), 0);
}
