use vstd::prelude::*;
use vstd::utf8::encode_scalar;

verus! {

/// Size in bytes of the fixed PSF2 header; glyph bitmaps start right after it.
pub const PSF2_HEADER_SIZE: usize = 32;

/// The little-endian 32-bit value stored at `off..off + 4`.
pub open spec fn le_u32(b: Seq<u8>, off: int) -> int {
    b[off] + b[off + 1] * 256 + b[off + 2] * 65536 + b[off + 3] * 16777216
}

/// Header field at offset 16: number of glyphs.
pub open spec fn num_glyphs(b: Seq<u8>) -> int {
    le_u32(b, 16)
}

/// Header field at offset 20: bytes per glyph, as the header records it.
pub open spec fn header_glyph_size(b: Seq<u8>) -> int {
    le_u32(b, 20)
}

/// Header field at offset 24: glyph height in pixels.
pub open spec fn glyph_height(b: Seq<u8>) -> int {
    le_u32(b, 24)
}

/// Header field at offset 28: glyph width in pixels.
pub open spec fn glyph_width(b: Seq<u8>) -> int {
    le_u32(b, 28)
}

/// Bytes per bitmap row: the width rounded up to whole bytes.
pub open spec fn row_bytes(b: Seq<u8>) -> int {
    (glyph_width(b) + 7) / 8
}

/// Size of one glyph bitmap as the renderer computes it from width and height.
pub open spec fn glyph_bytes(b: Seq<u8>) -> int {
    row_bytes(b) * glyph_height(b)
}

/// Offset of the unicode table, which follows the glyph bitmaps.
pub open spec fn unicode_table_start(b: Seq<u8>) -> int {
    32 + num_glyphs(b) * header_glyph_size(b)
}

/// Number of bytes of the UTF-8 sequence introduced by `lead`, as the decoder
/// understands it (one, two or three; any other lead byte stands alone).
pub open spec fn utf8_seq_len(lead: u8) -> int {
    if lead < 0x80 {
        1
    } else if 0xC0 <= lead < 0xE0 {
        2
    } else if 0xE0 <= lead < 0xF0 {
        3
    } else {
        1
    }
}

/// Code point of the UTF-8 sequence starting at `i`. A lead byte that begins
/// no one-, two- or three-byte sequence decodes to 0. Continuation bytes
/// contribute their low six bits.
pub open spec fn utf8_decode(b: Seq<u8>, i: int) -> int {
    let lead = b[i];
    if lead < 0x80 {
        lead as int
    } else if 0xC0 <= lead < 0xE0 {
        (lead % 32) * 64 + b[i + 1] % 64
    } else if 0xE0 <= lead < 0xF0 {
        (lead % 16) * 4096 + (b[i + 1] % 64) * 64 + b[i + 2] % 64
    } else {
        0
    }
}

/// Walking the unicode table from `i` (0xFF ends a glyph's entry, anything
/// else is a UTF-8 sequence) never runs past the end of the data.
pub open spec fn table_walk_ok(b: Seq<u8>, i: int) -> bool
    decreases b.len() - i,
{
    if i < 0 || i >= b.len() {
        true
    } else if b[i] == 0xFF {
        table_walk_ok(b, i + 1)
    } else if i + utf8_seq_len(b[i]) > b.len() {
        false
    } else {
        table_walk_ok(b, i + utf8_seq_len(b[i]))
    }
}

/// How many glyph indices the lookup can produce from a walk that starts at
/// `i` in entry 0: one per entry terminator (0xFF) met, plus one for
/// sequences that follow the last terminator.
pub open spec fn glyph_slots(b: Seq<u8>, i: int) -> int
    decreases b.len() - i,
{
    if i < 0 || i >= b.len() {
        0
    } else if b[i] == 0xFF {
        1 + glyph_slots(b, i + 1)
    } else if i + utf8_seq_len(b[i]) > b.len() {
        0
    } else {
        let rest = glyph_slots(b, i + utf8_seq_len(b[i]));
        if rest == 0 {
            1
        } else {
            rest
        }
    }
}

/// Number of glyph bitmaps the renderer may read: every index the lookup can
/// produce, and at least glyph 0, the fallback.
pub open spec fn glyphs_needed(b: Seq<u8>) -> int {
    let n = glyph_slots(b, unicode_table_start(b));
    if n == 0 {
        1
    } else {
        n
    }
}

/// The glyph that the table walk from `i`, currently in entry `glyph`, assigns
/// to the code point `target`: the entry of the first sequence that decodes
/// to it, or 0 when none does.
pub open spec fn glyph_scan(b: Seq<u8>, i: int, glyph: int, target: int) -> int
    decreases b.len() - i,
{
    if i < 0 || i >= b.len() {
        0
    } else if b[i] == 0xFF {
        glyph_scan(b, i + 1, glyph + 1, target)
    } else if i + utf8_seq_len(b[i]) > b.len() {
        0
    } else if utf8_decode(b, i) == target {
        glyph
    } else {
        glyph_scan(b, i + utf8_seq_len(b[i]), glyph, target)
    }
}

/// The glyph used to draw `c`.
pub open spec fn glyph_for(b: Seq<u8>, c: char) -> int {
    glyph_scan(b, unicode_table_start(b), 0, c as int)
}

/// What the renderer needs of a PSF2 file: a whole header, a unicode table
/// inside the data that can be walked to its end, and a bitmap for every glyph
/// index the lookup can produce.
pub open spec fn psf2_well_formed(b: Seq<u8>) -> bool {
    &&& b.len() >= 32
    &&& b.len() <= usize::MAX
    &&& unicode_table_start(b) <= b.len()
    &&& glyph_width(b) + 7 <= usize::MAX
    &&& table_walk_ok(b, unicode_table_start(b))
    &&& 32 + glyphs_needed(b) * glyph_bytes(b) <= b.len()
}

/// A PSF2 bitmap font held in memory.
pub struct Psf2Font {
    bytes: Vec<u8>,
}

impl View for Psf2Font {
    type V = Seq<u8>;

    closed spec fn view(&self) -> Seq<u8> {
        self.bytes@
    }
}

impl Psf2Font {
    #[verifier::type_invariant]
    closed spec fn inv(&self) -> bool {
        psf2_well_formed(self.bytes@)
    }

    /// Accepts `bytes` as a font exactly when it is well formed.
    pub fn from_bytes(bytes: Vec<u8>) -> (r: Option<Psf2Font>)
        ensures
            r is Some <==> psf2_well_formed(bytes@),
            r matches Some(f) ==> f@ == bytes@,
    {
        if bytes.len() < 32 {
            return None;
        }
        let ng = read_le_u32(&bytes, 16) as usize;
        let hbpg = read_le_u32(&bytes, 20) as usize;
        let h = read_le_u32(&bytes, 24) as usize;
        let w = read_le_u32(&bytes, 28) as usize;
        let start = match ng.checked_mul(hbpg) {
            Some(m) => match m.checked_add(32) {
                Some(s) => s,
                None => return None,
            },
            None => return None,
        };
        assert(start == unicode_table_start(bytes@));
        if start > bytes.len() {
            return None;
        }
        if w > usize::MAX - 7 {
            return None;
        }
        let mut i = start;
        let mut entries: usize = 0;
        let mut pending = false;
        proof {
            if table_walk_ok(bytes@, i as int) {
                lemma_glyph_scan_bound(bytes@, i as int, 0, 0);
            }
        }
        while i < bytes.len()
            invariant
                start <= i <= bytes@.len(),
                start == unicode_table_start(bytes@),
                entries <= i - start,
                table_walk_ok(bytes@, start as int) == table_walk_ok(bytes@, i as int),
                table_walk_ok(bytes@, i as int) ==> 0 <= glyph_slots(bytes@, i as int),
                table_walk_ok(bytes@, i as int) ==> glyph_slots(bytes@, start as int) == entries + (
                if pending && glyph_slots(bytes@, i as int) == 0 {
                    1
                } else {
                    glyph_slots(bytes@, i as int)
                }),
            decreases bytes@.len() - i,
        {
            if bytes[i] == 0xFF {
                proof {
                    if table_walk_ok(bytes@, i as int) {
                        lemma_glyph_scan_bound(bytes@, i + 1, 0, 0);
                    }
                }
                entries = entries + 1;
                pending = false;
                i = i + 1;
            } else {
                let l = utf8_len(bytes[i]);
                if l > bytes.len() - i {
                    assert(!table_walk_ok(bytes@, i as int));
                    return None;
                }
                proof {
                    if table_walk_ok(bytes@, i as int) {
                        lemma_glyph_scan_bound(bytes@, i + l, 0, 0);
                    }
                }
                pending = true;
                i = i + l;
            }
        }
        let slots = if pending {
            entries + 1
        } else {
            entries
        };
        let needed = if slots == 0 {
            1
        } else {
            slots
        };
        assert(needed == glyphs_needed(bytes@));
        let row = (w + 7) / 8;
        assert(row == row_bytes(bytes@));
        let bpg = match row.checked_mul(h) {
            Some(v) => v,
            None => {
                proof {
                    assert(needed * (row * h) >= row * h) by (nonlinear_arith)
                        requires
                            needed >= 1,
                            row * h >= 0,
                    ;
                }
                return None;
            },
        };
        let need = match needed.checked_mul(bpg) {
            Some(v) => v,
            None => return None,
        };
        if need > bytes.len() - 32 {
            return None;
        }
        Some(Psf2Font { bytes })
    }

    /// Number of bytes in the font file.
    pub fn len(&self) -> (n: usize)
        ensures
            n == self@.len(),
    {
        self.bytes.len()
    }

    /// The byte at `i`.
    pub fn byte(&self, i: usize) -> (v: u8)
        requires
            i < self@.len(),
        ensures
            v == self@[i as int],
    {
        self.bytes[i]
    }

    /// The little-endian 32-bit header field at `off`.
    pub fn header_u32(&self, off: usize) -> (v: u32)
        requires
            off + 4 <= 32,
        ensures
            v == le_u32(self@, off as int),
    {
        proof {
            use_type_invariant(self);
        }
        read_le_u32(&self.bytes, off)
    }

    /// The font is well formed.
    pub fn well_formed(&self)
        ensures
            psf2_well_formed(self@),
    {
        proof {
            use_type_invariant(self);
        }
    }
}

/// The glyph lookup from any point of a walkable table yields 0 or an index
/// below the current entry plus the glyph slots still ahead.
pub proof fn lemma_glyph_scan_bound(b: Seq<u8>, i: int, glyph: int, target: int)
    requires
        0 <= i,
        0 <= glyph,
        table_walk_ok(b, i),
    ensures
        0 <= glyph_slots(b, i),
        i <= b.len() ==> glyph_slots(b, i) <= b.len() - i,
        0 <= glyph_scan(b, i, glyph, target),
        glyph_scan(b, i, glyph, target) == 0 || glyph_scan(b, i, glyph, target) < glyph
            + glyph_slots(b, i),
        0 <= i < b.len() && b[i] != 0xFF ==> glyph_slots(b, i) >= 1,
    decreases b.len() - i,
{
    if i < b.len() {
        if b[i] == 0xFF {
            lemma_glyph_scan_bound(b, i + 1, glyph + 1, target);
        } else {
            lemma_glyph_scan_bound(b, i + utf8_seq_len(b[i]), glyph, target);
        }
    }
}

/// The index of the glyph that draws `c`: the entry of the unicode table in
/// which a sequence decoding to `c` first appears, or 0 when none does.
pub fn glyph_index(font: &Psf2Font, c: char) -> (g: usize)
    ensures
        g == glyph_for(font@, c),
        g < glyphs_needed(font@),
{
    proof {
        use_type_invariant(font);
    }
    let b = &font.bytes;
    let num_glyphs = read_le_u32(b, 16) as usize;
    let bytes_per_glyph = read_le_u32(b, 20) as usize;
    let header_size: usize = 32;
    let table_start = header_size + num_glyphs * bytes_per_glyph;
    let target = c as u32;
    let mut glyph: usize = 0;
    let mut i = table_start;
    proof {
        lemma_glyph_scan_bound(b@, i as int, 0, target as int);
    }
    while i < b.len()
        invariant
            table_start == unicode_table_start(b@),
            table_start <= i <= b@.len(),
            b@ == font@,
            table_walk_ok(b@, i as int),
            0 <= glyph_slots(b@, i as int),
            glyph + glyph_slots(b@, i as int) <= glyph_slots(b@, table_start as int),
            glyph_slots(b@, table_start as int) <= b@.len(),
            i < b@.len() && b@[i as int] != 0xFF ==> glyph_slots(b@, i as int) >= 1,
            glyph_scan(b@, i as int, glyph as int, target as int) == glyph_for(b@, c),
        decreases b@.len() - i,
    {
        if b[i] == 0xFF {
            proof {
                lemma_glyph_scan_bound(b@, i + 1, glyph + 1, target as int);
            }
            glyph = glyph + 1;
            i = i + 1;
            continue;
        }
        let (codepoint, len) = decode_utf8(b.as_slice(), i);
        if codepoint == target {
            return glyph;
        }
        proof {
            lemma_glyph_scan_bound(b@, i + len, glyph as int, target as int);
        }
        i = i + len;
    }
    0
}


/// The decoder agrees with UTF-8 on the Basic Multilingual Plane: for every
/// character below U+10000, the standard encoding is read back as one
/// sequence of its full length with that character's code point. A character
/// above it has a four-byte encoding, whose lead byte the decoder takes as a
/// one-byte sequence for code point 0.
pub proof fn lemma_decode_utf8_encoding(c: char)
    ensures
        (c as u32) < 0x10000 ==> ({
            let e = encode_scalar(c as u32);
            &&& utf8_seq_len(e[0]) == e.len()
            &&& utf8_decode(e, 0) == c as u32
        }),
        (c as u32) >= 0x10000 ==> ({
            let e = encode_scalar(c as u32);
            &&& utf8_seq_len(e[0]) == 1
            &&& utf8_decode(e, 0) == 0
        }),
{
    let v = c as u32;
    assert(v <= 0x10FFFF && !(0xD800 <= v <= 0xDFFF));
    let e = encode_scalar(v);
    if v <= 0x7F {
        assert((v & 0x7F) as u8 == v) by (bit_vector)
            requires
                v <= 0x7F,
        ;
    } else if v <= 0x7FF {
        let lead = 0xC0 | ((v >> 6) & 0x1F) as u8;
        let last = 0x80 | (v & 0x3F) as u8;
        assert(0xC0 <= lead < 0xE0 && (lead % 32) as u32 * 64 + (last % 64) as u32 == v)
            by (bit_vector)
            requires
                0x80 <= v <= 0x7FF,
                lead == 0xC0 | ((v >> 6) & 0x1F) as u8,
                last == 0x80 | (v & 0x3F) as u8,
        ;
    } else if v <= 0xFFFF {
        let lead = 0xE0 | ((v >> 12) & 0x0F) as u8;
        let mid = 0x80 | ((v >> 6) & 0x3F) as u8;
        let last = 0x80 | (v & 0x3F) as u8;
        assert(0xE0 <= lead < 0xF0 && (lead % 16) as u32 * 4096 + (mid % 64) as u32 * 64 + (last
            % 64) as u32 == v) by (bit_vector)
            requires
                0x800 <= v <= 0xFFFF,
                lead == 0xE0 | ((v >> 12) & 0x0F) as u8,
                mid == 0x80 | ((v >> 6) & 0x3F) as u8,
                last == 0x80 | (v & 0x3F) as u8,
        ;
    } else {
        let lead = 0xF0 | ((v >> 18) & 0x7) as u8;
        assert(0xF0 <= lead) by (bit_vector)
            requires
                lead == 0xF0 | ((v >> 18) & 0x7) as u8,
        ;
    }
}

/// Number of 0xFF bytes among `b[lo..hi]`.
pub open spec fn ff_count(b: Seq<u8>, lo: int, hi: int) -> int
    decreases hi - lo,
{
    if lo >= hi {
        0
    } else {
        (if b[lo] == 0xFF {
            1int
        } else {
            0int
        }) + ff_count(b, lo + 1, hi)
    }
}

/// No 0xFF byte at or after `lo` lies inside the span that a two- or
/// three-byte lead byte before it claims; true of every table whose entries
/// are valid UTF-8.
pub open spec fn no_swallowed_ff(b: Seq<u8>, lo: int) -> bool {
    forall|k: int|
        lo <= k < b.len() && #[trigger] b[k] == 0xFF ==> !(k - 1 >= lo && 0xC0 <= b[k - 1] < 0xF0)
            && !(k - 2 >= lo && 0xE0 <= b[k - 2] < 0xF0)
}

/// Whether every byte of `b` from `lo` on is an entry terminator or ASCII.
pub open spec fn ascii_table(b: Seq<u8>, lo: int) -> bool {
    forall|k: int| lo <= k < b.len() ==> #[trigger] b[k] == 0xFF || b[k] < 0x80
}

proof fn lemma_scan_counts_terminators(b: Seq<u8>, i: int, glyph: int, target: int)
    requires
        0 <= i,
        table_walk_ok(b, i),
        no_swallowed_ff(b, i),
    ensures
        glyph_scan(b, i, glyph, target) == 0 || exists|j: int|
            i <= j < b.len() && b[j] != 0xFF && utf8_decode(b, j) == target && glyph + ff_count(
                b,
                i,
                j,
            ) == glyph_scan(b, i, glyph, target),
    decreases b.len() - i,
{
    if i < b.len() {
        let r = glyph_scan(b, i, glyph, target);
        if b[i] == 0xFF {
            assert(no_swallowed_ff(b, i + 1));
            lemma_scan_counts_terminators(b, i + 1, glyph + 1, target);
            if r != 0 {
                let j = choose|j: int|
                    i + 1 <= j < b.len() && b[j] != 0xFF && utf8_decode(b, j) == target && glyph + 1
                        + ff_count(b, i + 1, j) == r;
                assert(ff_count(b, i, j) == 1 + ff_count(b, i + 1, j));
                assert(i <= j < b.len() && b[j] != 0xFF && utf8_decode(b, j) == target && glyph
                    + ff_count(b, i, j) == r);
            }
        } else if utf8_decode(b, i) == target {
            assert(ff_count(b, i, i) == 0);
            assert(i <= i < b.len() && b[i] != 0xFF && utf8_decode(b, i) == target && glyph
                + ff_count(b, i, i) == r);
        } else {
            let l = utf8_seq_len(b[i]);
            assert(no_swallowed_ff(b, i + l));
            lemma_scan_counts_terminators(b, i + l, glyph, target);
            if r != 0 {
                let j = choose|j: int|
                    i + l <= j < b.len() && b[j] != 0xFF && utf8_decode(b, j) == target && glyph
                        + ff_count(b, i + l, j) == r;
                assert(ff_count(b, i, j) == ff_count(b, i + 1, j));
                if l >= 2 {
                    assert(b[i + 1] != 0xFF);
                    assert(ff_count(b, i + 1, j) == ff_count(b, i + 2, j));
                }
                if l == 3 {
                    assert(b[i + 2] != 0xFF);
                    assert(ff_count(b, i + 2, j) == ff_count(b, i + 3, j));
                }
                assert(ff_count(b, i, j) == ff_count(b, i + l, j));
                assert(i <= j < b.len() && b[j] != 0xFF && utf8_decode(b, j) == target && glyph
                    + ff_count(b, i, j) == r);
            }
        }
    }
}

/// Each 0xFF terminator counts one glyph: in a table whose entries do not
/// swallow a terminator, a nonzero glyph index for `c` is the number of 0xFF
/// bytes in the table before some sequence there that decodes to `c`.
pub proof fn lemma_glyph_is_terminators_before(b: Seq<u8>, c: char)
    requires
        psf2_well_formed(b),
        no_swallowed_ff(b, unicode_table_start(b)),
    ensures
        glyph_for(b, c) == 0 || exists|j: int|
            unicode_table_start(b) <= j < b.len() && b[j] != 0xFF && utf8_decode(b, j) == c as int
                && ff_count(b, unicode_table_start(b), j) == glyph_for(b, c),
{
    lemma_scan_counts_terminators(b, unicode_table_start(b), 0, c as int);
}

proof fn lemma_ascii_scan(b: Seq<u8>, i: int, glyph: int, target: int, j: int)
    requires
        0 <= i <= j <= b.len(),
        ascii_table(b, i),
        0 <= target < 0x80,
        forall|k: int| i <= k < j ==> #[trigger] b[k] != target,
        j < b.len() ==> b[j] == target,
    ensures
        glyph_scan(b, i, glyph, target) == if j < b.len() {
            glyph + ff_count(b, i, j)
        } else {
            0
        },
    decreases b.len() - i,
{
    if i < b.len() {
        if i < j {
            assert(b[i] != target);
            assert(b[i] == 0xFF || b[i] < 0x80);
            if b[i] == 0xFF {
                lemma_ascii_scan(b, i + 1, glyph + 1, target, j);
            } else {
                lemma_ascii_scan(b, i + 1, glyph, target, j);
            }
        } else {
            assert(b[i] == target);
            assert(ff_count(b, i, i) == 0);
        }
    }
}

/// In a table of ASCII entries, the glyph of an ASCII character is the number
/// of 0xFF terminators before its first occurrence, and 0 when it does not
/// occur.
pub proof fn lemma_glyph_lookup_ascii(b: Seq<u8>, c: char, j: int)
    requires
        psf2_well_formed(b),
        ascii_table(b, unicode_table_start(b)),
        (c as int) < 0x80,
        unicode_table_start(b) <= j <= b.len(),
        forall|k: int| unicode_table_start(b) <= k < j ==> #[trigger] b[k] != c as int,
        j < b.len() ==> b[j] == c as int,
    ensures
        j < b.len() ==> glyph_for(b, c) == ff_count(b, unicode_table_start(b), j),
        j == b.len() ==> glyph_for(b, c) == 0,
{
    lemma_ascii_scan(b, unicode_table_start(b), 0, c as int, j);
}

/// Glyph width does not matter to validity: a file with a whole header, a
/// unicode table inside the data that can be walked to its end, and a bitmap
/// of `((width + 7) / 8) * height` bytes for every glyph the lookup can name is
/// a font, however wide its glyphs.
pub proof fn lemma_font_accepted_any_width(b: Seq<u8>)
    requires
        b.len() >= 32,
        b.len() <= usize::MAX,
        glyph_width(b) + 7 <= usize::MAX,
        unicode_table_start(b) <= b.len(),
        table_walk_ok(b, unicode_table_start(b)),
        32 + glyphs_needed(b) * (((glyph_width(b) + 7) / 8) * glyph_height(b)) <= b.len(),
    ensures
        psf2_well_formed(b),
{
}

proof fn lemma_le_u32_bits(a: u32, b: u32, c: u32, d: u32)
    requires
        a < 256,
        b < 256,
        c < 256,
        d < 256,
    ensures
        a | (b << 8) | (c << 16) | (d << 24) == a + b * 256 + c * 65536 + d * 16777216,
{
    assert(a | (b << 8) | (c << 16) | (d << 24) == a + b * 256 + c * 65536 + d * 16777216)
        by (bit_vector)
        requires
            a < 256,
            b < 256,
            c < 256,
            d < 256,
    ;
}

/// The little-endian 32-bit value at `off`.
pub fn read_le_u32(b: &Vec<u8>, off: usize) -> (v: u32)
    requires
        off + 4 <= b@.len(),
    ensures
        v == le_u32(b@, off as int),
{
    let _n = b.len();
    let a = b[off] as u32;
    let b1 = b[off + 1] as u32;
    let c = b[off + 2] as u32;
    let d = b[off + 3] as u32;
    proof {
        lemma_le_u32_bits(a, b1, c, d);
    }
    a | (b1 << 8) | (c << 16) | (d << 24)
}

/// Length of the UTF-8 sequence that `lead` introduces.
pub fn utf8_len(lead: u8) -> (l: usize)
    ensures
        l == utf8_seq_len(lead),
{
    if lead & 0x80 == 0 {
        assert(lead & 0x80 == 0 ==> lead < 0x80) by (bit_vector);
        1
    } else if lead & 0xE0 == 0xC0 {
        assert(lead & 0x80 != 0 ==> lead >= 0x80) by (bit_vector);
        assert(lead & 0xE0 == 0xC0 ==> 0xC0 <= lead < 0xE0) by (bit_vector);
        2
    } else if lead & 0xF0 == 0xE0 {
        assert(lead & 0x80 != 0 ==> lead >= 0x80) by (bit_vector);
        assert(lead & 0xE0 != 0xC0 ==> !(0xC0 <= lead < 0xE0)) by (bit_vector);
        assert(lead & 0xF0 == 0xE0 ==> 0xE0 <= lead < 0xF0) by (bit_vector);
        3
    } else {
        assert(lead & 0x80 != 0 ==> lead >= 0x80) by (bit_vector);
        assert(lead & 0xE0 != 0xC0 ==> !(0xC0 <= lead < 0xE0)) by (bit_vector);
        assert(lead & 0xF0 != 0xE0 ==> !(0xE0 <= lead < 0xF0)) by (bit_vector);
        1
    }
}

/// Decodes the one-, two- or three-byte UTF-8 sequence at `i`, returning the
/// code point and the number of bytes it occupies. Any other lead byte gives
/// `(0, 1)`.
pub fn decode_utf8(bytes: &[u8], i: usize) -> (r: (u32, usize))
    requires
        i < bytes@.len(),
        i + utf8_seq_len(bytes@[i as int]) <= bytes@.len(),
    ensures
        r.0 == utf8_decode(bytes@, i as int),
        r.1 == utf8_seq_len(bytes@[i as int]),
{
    let b = bytes[i];
    let l = utf8_len(b);
    if l == 1 {
        if b & 0x80 == 0 {
            assert(b & 0x80 == 0 ==> b < 0x80) by (bit_vector);
            (b as u32, 1)
        } else {
            assert(b & 0x80 != 0 ==> b >= 0x80) by (bit_vector);
            (0, 1)
        }
    } else if l == 2 {
        let b1 = bytes[i + 1];
        let cp = ((b & 0x1F) as u32) << 6 | (b1 & 0x3F) as u32;
        assert(((b & 0x1F) as u32) << 6 | (b1 & 0x3F) as u32 == (b % 32) as u32 * 64 + (b1
            % 64) as u32) by (bit_vector);
        (cp, 2)
    } else {
        let b1 = bytes[i + 1];
        let b2 = bytes[i + 2];
        let cp = ((b & 0x0F) as u32) << 12 | ((b1 & 0x3F) as u32) << 6 | (b2 & 0x3F) as u32;
        assert(((b & 0x0F) as u32) << 12 | ((b1 & 0x3F) as u32) << 6 | (b2 & 0x3F) as u32 == (b
            % 16) as u32 * 4096 + (b1 % 64) as u32 * 64 + (b2 % 64) as u32) by (bit_vector);
        (cp, 3)
    }
}

} // verus!
