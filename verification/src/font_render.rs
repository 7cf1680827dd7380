use vstd::prelude::*;
use vstd::string::StringSliceAdditionalSpecFns;
use crate::serial_io::{decimal_digits, serial_print, serial_print_num};
use crate::psf2::{
    glyph_bytes, glyph_for, header_glyph_size, glyph_height, glyph_index, glyph_width, psf2_well_formed, row_bytes,
    glyphs_needed, unicode_table_start, Psf2Font, PSF2_HEADER_SIZE,
};

verus! {

/// Horizontal advance of the text cursor per character, in pixels.
pub const CHAR_W: usize = 8;

/// Height of the cell that `backspace` erases, in pixels.
pub const CHAR_H: usize = 16;

/// Colour a new writer draws with (white).
pub const DEFAULT_COLOR: u32 = 0x00FFFFFF;

/// Framebuffer position of pixel (`row`, `col`) of a glyph drawn at (`x`, `y`)
/// on a surface whose rows are `stride` pixels apart.
pub open spec fn pixel_index(stride: int, x: int, y: int, row: int, col: int) -> int {
    (y + row) * stride + (x + col)
}

/// Whether bit `k` of `byte`, counted from the most significant, is set.
pub open spec fn bit_of(byte: u8, k: int) -> bool {
    (byte >> ((7 - k) as u8)) & 1u8 == 1u8
}

/// Whether pixel (`row`, `col`) of the bitmap of glyph `g` is set.
pub open spec fn glyph_pixel(font: Seq<u8>, g: int, row: int, col: int) -> bool {
    bit_of(font[32 + g * glyph_bytes(font) + row * row_bytes(font) + col / 8], col % 8)
}

/// Whether some set pixel of glyph `g` drawn at (`x`, `y`) lands on framebuffer
/// position `p`, counting only the bitmap pixels that come before
/// (`before_row`, `before_col`) in row-major order.
pub open spec fn covers_before(
    font: Seq<u8>,
    g: int,
    stride: int,
    x: int,
    y: int,
    before_row: int,
    before_col: int,
    p: int,
) -> bool {
    exists|r: int, c: int|
        #![trigger glyph_pixel(font, g, r, c), pixel_index(stride, x, y, r, c)]
        0 <= r < glyph_height(font) && 0 <= c < glyph_width(font) && (r < before_row || (r
            == before_row && c < before_col)) && glyph_pixel(font, g, r, c) && pixel_index(
            stride,
            x,
            y,
            r,
            c,
        ) == p
}

/// Whether some set pixel of glyph `g` drawn at (`x`, `y`) lands on `p`.
pub open spec fn glyph_covers(font: Seq<u8>, g: int, stride: int, x: int, y: int, p: int) -> bool {
    covers_before(font, g, stride, x, y, glyph_height(font), 0, p)
}

/// The framebuffer after drawing `c` at (`x`, `y`) in `color`: every position
/// that a set pixel of its glyph lands on takes the colour, all others keep
/// theirs. Positions outside the buffer are not drawn.
pub open spec fn draw_glyph(
    font: Seq<u8>,
    pixels: Seq<u32>,
    stride: int,
    x: int,
    y: int,
    c: char,
    color: u32,
) -> Seq<u32> {
    Seq::new(
        pixels.len(),
        |p: int|
            if glyph_covers(font, glyph_for(font, c), stride, x, y, p) {
                color
            } else {
                pixels[p]
            },
    )
}

/// The text state (framebuffer contents, cursor column, cursor row) after
/// writing `c` from state `st`: a newline moves to column 0 one glyph height
/// lower; any other character is drawn at the cursor, which then advances by
/// `CHAR_W` and wraps to the next line when a further cell would not fit in the
/// row.
pub open spec fn text_step(
    font: Seq<u8>,
    stride: int,
    color: u32,
    st: (Seq<u32>, int, int),
    c: char,
) -> (Seq<u32>, int, int) {
    let h = glyph_height(font);
    if c == '\n' {
        (st.0, 0, st.2 + h)
    } else {
        let drawn = draw_glyph(font, st.0, stride, st.1, st.2, c, color);
        if st.1 + 8 + 8 > stride {
            (drawn, 0, st.2 + h)
        } else {
            (drawn, st.1 + 8, st.2)
        }
    }
}

/// Writing `c` from state `st` keeps the cursor arithmetic within `usize`.
pub open spec fn step_fits(font: Seq<u8>, stride: int, st: (Seq<u32>, int, int), c: char) -> bool {
    let h = glyph_height(font);
    if c == '\n' {
        st.2 + h <= usize::MAX
    } else {
        st.1 + 8 + 8 <= usize::MAX && (st.1 + 8 + 8 > stride ==> st.2 + h <= usize::MAX)
    }
}

/// The text state after writing the characters of `s` one after another.
pub open spec fn text_run(
    font: Seq<u8>,
    stride: int,
    color: u32,
    st: (Seq<u32>, int, int),
    s: Seq<char>,
) -> (Seq<u32>, int, int)
    decreases s.len(),
{
    if s.len() == 0 {
        st
    } else {
        text_step(font, stride, color, text_run(font, stride, color, st, s.drop_last()), s.last())
    }
}

/// Writing all of `s` from state `st` keeps the cursor arithmetic within `usize`.
pub open spec fn run_fits(
    font: Seq<u8>,
    stride: int,
    color: u32,
    st: (Seq<u32>, int, int),
    s: Seq<char>,
) -> bool
    decreases s.len(),
{
    if s.len() == 0 {
        true
    } else {
        run_fits(font, stride, color, st, s.drop_last()) && step_fits(
            font,
            stride,
            text_run(font, stride, color, st, s.drop_last()),
            s.last(),
        )
    }
}

/// Draws text with a PSF2 font into a framebuffer held as rows of `stride`
/// 32-bit pixels.
pub struct FramebufferWriter {
    pub pixels: Vec<u32>,
    pub stride: usize,
    pub cursor_x: usize,
    pub cursor_y: usize,
    pub color: u32,
    pub font: Psf2Font,
}

proof fn lemma_covers_step(
    font: Seq<u8>,
    g: int,
    stride: int,
    x: int,
    y: int,
    row: int,
    col: int,
    p: int,
)
    requires
        0 <= row < glyph_height(font),
        0 <= col < glyph_width(font),
    ensures
        covers_before(font, g, stride, x, y, row, col + 1, p) == (covers_before(
            font,
            g,
            stride,
            x,
            y,
            row,
            col,
            p,
        ) || (glyph_pixel(font, g, row, col) && pixel_index(stride, x, y, row, col) == p)),
{
    if covers_before(font, g, stride, x, y, row, col + 1, p) {
        let (r, c) = choose|r: int, c: int|
            #![trigger glyph_pixel(font, g, r, c), pixel_index(stride, x, y, r, c)]
            0 <= r < glyph_height(font) && 0 <= c < glyph_width(font) && (r < row || (r == row
                && c < col + 1)) && glyph_pixel(font, g, r, c) && pixel_index(stride, x, y, r, c)
                == p;
        if !(r == row && c == col) {
            assert(glyph_pixel(font, g, r, c) && pixel_index(stride, x, y, r, c) == p);
        }
    }
    if covers_before(font, g, stride, x, y, row, col, p) {
        let (r, c) = choose|r: int, c: int|
            #![trigger glyph_pixel(font, g, r, c), pixel_index(stride, x, y, r, c)]
            0 <= r < glyph_height(font) && 0 <= c < glyph_width(font) && (r < row || (r == row
                && c < col)) && glyph_pixel(font, g, r, c) && pixel_index(stride, x, y, r, c) == p;
        assert(glyph_pixel(font, g, r, c) && pixel_index(stride, x, y, r, c) == p);
    }
}

proof fn lemma_covers_row(font: Seq<u8>, g: int, stride: int, x: int, y: int, row: int, p: int)
    ensures
        covers_before(font, g, stride, x, y, row, glyph_width(font), p) == covers_before(
            font,
            g,
            stride,
            x,
            y,
            row + 1,
            0,
            p,
        ),
{
    if covers_before(font, g, stride, x, y, row, glyph_width(font), p) {
        let (r, c) = choose|r: int, c: int|
            #![trigger glyph_pixel(font, g, r, c), pixel_index(stride, x, y, r, c)]
            0 <= r < glyph_height(font) && 0 <= c < glyph_width(font) && (r < row || (r == row
                && c < glyph_width(font))) && glyph_pixel(font, g, r, c) && pixel_index(
                stride,
                x,
                y,
                r,
                c,
            ) == p;
        assert(glyph_pixel(font, g, r, c) && pixel_index(stride, x, y, r, c) == p);
    }
    if covers_before(font, g, stride, x, y, row + 1, 0, p) {
        let (r, c) = choose|r: int, c: int|
            #![trigger glyph_pixel(font, g, r, c), pixel_index(stride, x, y, r, c)]
            0 <= r < glyph_height(font) && 0 <= c < glyph_width(font) && (r < row + 1 || (r
                == row + 1 && c < 0)) && glyph_pixel(font, g, r, c) && pixel_index(
                stride,
                x,
                y,
                r,
                c,
            ) == p;
        assert(glyph_pixel(font, g, r, c) && pixel_index(stride, x, y, r, c) == p);
    }
}

proof fn lemma_glyph_byte_in_range(bpr: int, h: int, w: int, g: int, row: int, col: int)
    requires
        bpr == (w + 7) / 8,
        0 <= row < h,
        0 <= col < w,
        0 <= g,
    ensures
        0 <= row * bpr + col / 8 < bpr * h,
        g * (bpr * h) + row * bpr + col / 8 < (g + 1) * (bpr * h),
        0 <= g * (bpr * h),
{
    assert(col / 8 < bpr);
    assert(row * bpr + col / 8 < (row + 1) * bpr) by (nonlinear_arith)
        requires
            col / 8 < bpr,
    ;
    assert((row + 1) * bpr <= h * bpr) by (nonlinear_arith)
        requires
            row + 1 <= h,
            bpr >= 0,
    ;
    assert(0 <= row * bpr) by (nonlinear_arith)
        requires
            row >= 0,
            bpr >= 0,
    ;
    assert(bpr * h == h * bpr) by (nonlinear_arith);
    assert((g + 1) * (bpr * h) == g * (bpr * h) + bpr * h) by (nonlinear_arith);
    assert(0 <= g * (bpr * h)) by (nonlinear_arith)
        requires
            g >= 0,
            bpr * h >= 0,
    ;
}

/// Framebuffer position of pixel (`row`, `col`) of a glyph drawn at (`x`, `y`),
/// or `None` when that position lies beyond `usize`.
fn pixel_offset(stride: usize, x: usize, y: usize, row: usize, col: usize) -> (r: Option<usize>)
    ensures
        r matches Some(p) ==> p == pixel_index(stride as int, x as int, y as int, row as int, col as int),
        r is None ==> pixel_index(stride as int, x as int, y as int, row as int, col as int) > usize::MAX,
{
    let ghost idx = pixel_index(stride as int, x as int, y as int, row as int, col as int);
    let xc = match x.checked_add(col) {
        Some(v) => v,
        None => {
            assert((y + row) * stride >= 0) by (nonlinear_arith)
                requires
                    y + row >= 0,
                    stride >= 0,
            ;
            return None;
        },
    };
    if stride == 0 {
        assert((y + row) * stride == 0) by (nonlinear_arith)
            requires
                stride == 0,
        ;
        return Some(xc);
    }
    let yr = match y.checked_add(row) {
        Some(v) => v,
        None => {
            assert((y + row) * stride >= y + row) by (nonlinear_arith)
                requires
                    y + row >= 0,
                    stride >= 1,
            ;
            return None;
        },
    };
    let m = match yr.checked_mul(stride) {
        Some(v) => v,
        None => return None,
    };
    m.checked_add(xc)
}


/// A prefix of a run that fits also fits.
proof fn lemma_run_fits_prefix(
    font: Seq<u8>,
    stride: int,
    color: u32,
    st: (Seq<u32>, int, int),
    s: Seq<char>,
    k: int,
)
    requires
        0 <= k <= s.len(),
        run_fits(font, stride, color, st, s),
    ensures
        run_fits(font, stride, color, st, s.take(k)),
    decreases s.len() - k,
{
    if k < s.len() {
        assert(s.drop_last().take(k) =~= s.take(k));
        lemma_run_fits_prefix(font, stride, color, st, s.drop_last(), k);
    } else {
        assert(s.take(k) =~= s);
    }
}

/// One more character of a run.
proof fn lemma_run_extend(
    font: Seq<u8>,
    stride: int,
    color: u32,
    st: (Seq<u32>, int, int),
    s: Seq<char>,
    k: int,
)
    requires
        0 <= k < s.len(),
    ensures
        text_run(font, stride, color, st, s.take(k + 1)) == text_step(
            font,
            stride,
            color,
            text_run(font, stride, color, st, s.take(k)),
            s[k],
        ),
        run_fits(font, stride, color, st, s.take(k + 1)) == (run_fits(
            font,
            stride,
            color,
            st,
            s.take(k),
        ) && step_fits(font, stride, text_run(font, stride, color, st, s.take(k)), s[k])),
{
    assert(s.take(k + 1).drop_last() =~= s.take(k));
}

/// Whether a run fits depends only on the cursor it starts from.
proof fn lemma_run_fits_cursor_only(
    font: Seq<u8>,
    stride: int,
    color: u32,
    st1: (Seq<u32>, int, int),
    st2: (Seq<u32>, int, int),
    s: Seq<char>,
)
    requires
        st1.1 == st2.1,
        st1.2 == st2.2,
    ensures
        run_fits(font, stride, color, st1, s) == run_fits(font, stride, color, st2, s),
        text_run(font, stride, color, st1, s).1 == text_run(font, stride, color, st2, s).1,
        text_run(font, stride, color, st1, s).2 == text_run(font, stride, color, st2, s).2,
    decreases s.len(),
{
    if s.len() > 0 {
        lemma_run_fits_cursor_only(font, stride, color, st1, st2, s.drop_last());
    }
}

/// Writing `s1` and then `s2` is writing `s1 + s2`, and the arithmetic fits for
/// the whole exactly when it fits for both parts in turn.
pub proof fn lemma_text_run_concat(
    font: Seq<u8>,
    stride: int,
    color: u32,
    st: (Seq<u32>, int, int),
    s1: Seq<char>,
    s2: Seq<char>,
)
    ensures
        text_run(font, stride, color, st, s1 + s2) == text_run(
            font,
            stride,
            color,
            text_run(font, stride, color, st, s1),
            s2,
        ),
        run_fits(font, stride, color, st, s1 + s2) == (run_fits(font, stride, color, st, s1)
            && run_fits(font, stride, color, text_run(font, stride, color, st, s1), s2)),
    decreases s2.len(),
{
    if s2.len() == 0 {
        assert(s1 + s2 =~= s1);
    } else {
        assert((s1 + s2).drop_last() =~= s1 + s2.drop_last());
        assert((s1 + s2).last() == s2.last());
        lemma_text_run_concat(font, stride, color, st, s1, s2.drop_last());
    }
}

/// Number of newline characters in `s`.
pub open spec fn newline_count(s: Seq<char>) -> nat
    decreases s.len(),
{
    if s.len() == 0 {
        0
    } else {
        newline_count(s.drop_last()) + if s.last() == '\n' {
            1nat
        } else {
            0nat
        }
    }
}

/// After writing at least one character on rows at least one cell wide, the
/// cursor leaves room for one more cell on its row.
pub proof fn lemma_cursor_leaves_room(
    font: Seq<u8>,
    stride: int,
    color: u32,
    st: (Seq<u32>, int, int),
    s: Seq<char>,
)
    requires
        s.len() > 0,
        stride >= 8,
    ensures
        text_run(font, stride, color, st, s).1 + 8 <= stride,
{
}

/// Writing `s` moves the cursor row down by a whole number of glyph heights,
/// at least one for each newline in `s` (more where the line wraps); the row
/// never moves up.
pub proof fn lemma_cursor_row_advances(
    font: Seq<u8>,
    stride: int,
    color: u32,
    st: (Seq<u32>, int, int),
    s: Seq<char>,
) -> (k: nat)
    ensures
        k >= newline_count(s),
        text_run(font, stride, color, st, s).2 == st.2 + k * glyph_height(font),
        text_run(font, stride, color, st, s).2 >= st.2,
    decreases s.len(),
{
    let h = glyph_height(font);
    assert(h >= 0);
    if s.len() == 0 {
        assert(0 * h == 0);
        0
    } else {
        let k0 = lemma_cursor_row_advances(font, stride, color, st, s.drop_last());
        let prev = text_run(font, stride, color, st, s.drop_last());
        if s.last() == '\n' || prev.1 + 8 + 8 > stride {
            assert((k0 + 1) * h == k0 * h + h) by (nonlinear_arith);
            assert((k0 + 1) * h >= 0) by (nonlinear_arith)
                requires
                    h >= 0,
            ;
            k0 + 1
        } else {
            assert(k0 * h >= 0) by (nonlinear_arith)
                requires
                    h >= 0,
            ;
            k0
        }
    }
}

/// The characters that `print_char` writes for `c`: its low byte, when that
/// byte is ASCII; nothing otherwise.
pub open spec fn char_as_text(c: char) -> Seq<char> {
    let b = (c as int) % 256;
    if b < 128 {
        seq![b as char]
    } else {
        Seq::empty()
    }
}


/// Whether a pixel of the `CHAR_W` by `CHAR_H` cell at (`x`, `y`) that comes
/// before (`before_row`, `before_col`) in row-major order lands on `p`.
pub open spec fn cell_covers_before(
    stride: int,
    x: int,
    y: int,
    before_row: int,
    before_col: int,
    p: int,
) -> bool {
    exists|r: int, c: int|
        #![trigger pixel_index(stride, x, y, r, c)]
        0 <= r < 16 && 0 <= c < 8 && (r < before_row || (r == before_row && c < before_col))
            && pixel_index(stride, x, y, r, c) == p
}

/// Whether a pixel of the character cell at (`x`, `y`) lands on `p`.
pub open spec fn cell_covers(stride: int, x: int, y: int, p: int) -> bool {
    cell_covers_before(stride, x, y, 16, 0, p)
}

/// The framebuffer with the character cell at (`x`, `y`) painted black.
pub open spec fn erase_cell(pixels: Seq<u32>, stride: int, x: int, y: int) -> Seq<u32> {
    Seq::new(pixels.len(), |p: int| if cell_covers(stride, x, y, p) { 0 } else { pixels[p] })
}

/// The text state after a backspace: unless the cursor is at the start of the
/// line, it moves back one cell and that cell is erased.
pub open spec fn backspace_step(stride: int, st: (Seq<u32>, int, int)) -> (Seq<u32>, int, int) {
    if st.1 >= 8 {
        (erase_cell(st.0, stride, st.1 - 8, st.2), st.1 - 8, st.2)
    } else {
        st
    }
}

/// The framebuffer after clearing its first `n` pixels to black.
pub open spec fn clear_prefix(pixels: Seq<u32>, n: int) -> Seq<u32> {
    Seq::new(pixels.len(), |p: int| if p < n { 0 } else { pixels[p] })
}

proof fn lemma_cell_step(stride: int, x: int, y: int, row: int, col: int, p: int)
    requires
        0 <= row < 16,
        0 <= col < 8,
    ensures
        cell_covers_before(stride, x, y, row, col + 1, p) == (cell_covers_before(
            stride,
            x,
            y,
            row,
            col,
            p,
        ) || pixel_index(stride, x, y, row, col) == p),
{
    if cell_covers_before(stride, x, y, row, col + 1, p) {
        let (r, c) = choose|r: int, c: int|
            #![trigger pixel_index(stride, x, y, r, c)]
            0 <= r < 16 && 0 <= c < 8 && (r < row || (r == row && c < col + 1)) && pixel_index(
                stride,
                x,
                y,
                r,
                c,
            ) == p;
        assert(pixel_index(stride, x, y, r, c) == p);
    }
    if cell_covers_before(stride, x, y, row, col, p) {
        let (r, c) = choose|r: int, c: int|
            #![trigger pixel_index(stride, x, y, r, c)]
            0 <= r < 16 && 0 <= c < 8 && (r < row || (r == row && c < col)) && pixel_index(
                stride,
                x,
                y,
                r,
                c,
            ) == p;
        assert(pixel_index(stride, x, y, r, c) == p);
    }
}

proof fn lemma_cell_row(stride: int, x: int, y: int, row: int, p: int)
    ensures
        cell_covers_before(stride, x, y, row, 8, p) == cell_covers_before(stride, x, y, row + 1, 0, p),
{
    if cell_covers_before(stride, x, y, row, 8, p) {
        let (r, c) = choose|r: int, c: int|
            #![trigger pixel_index(stride, x, y, r, c)]
            0 <= r < 16 && 0 <= c < 8 && (r < row || (r == row && c < 8)) && pixel_index(
                stride,
                x,
                y,
                r,
                c,
            ) == p;
        assert(pixel_index(stride, x, y, r, c) == p);
    }
    if cell_covers_before(stride, x, y, row + 1, 0, p) {
        let (r, c) = choose|r: int, c: int|
            #![trigger pixel_index(stride, x, y, r, c)]
            0 <= r < 16 && 0 <= c < 8 && (r < row + 1 || (r == row + 1 && c < 0)) && pixel_index(
                stride,
                x,
                y,
                r,
                c,
            ) == p;
        assert(pixel_index(stride, x, y, r, c) == p);
    }
}

/// Bitmap rows are read most significant bit first: column `col` of a glyph
/// row is lit exactly when bit `0x80 >> (col % 8)` of byte `col / 8` of that
/// row is set, so a row byte 0x80 lights column 0 and 0x01 lights column 7.
pub proof fn lemma_glyph_pixel_msb_first(font: Seq<u8>, g: int, row: int, col: int)
    requires
        0 <= col,
    ensures
        glyph_pixel(font, g, row, col) <==> (font[32 + g * glyph_bytes(font) + row * row_bytes(
            font,
        ) + col / 8] & (0x80u8 >> ((col % 8) as u8))) != 0,
{
    let byte = font[32 + g * glyph_bytes(font) + row * row_bytes(font) + col / 8];
    let k = (col % 8) as u8;
    assert(k < 8);
    let sh = (7 - col % 8) as u8;
    assert(sh == 7 - k);
    assert(((byte >> sh) & 1u8 == 1u8) == ((byte & (0x80u8 >> k)) != 0)) by (bit_vector)
        requires
            k < 8,
            sh == 7 - k,
    ;
}

/// Drawing `c` at (`x`, `y`) lights, in `color`, the framebuffer position of
/// every bitmap pixel (`row`, `col`) whose bit, read most significant first,
/// is set, provided that position lies in the buffer.
pub proof fn lemma_draw_lights_set_bits(
    font: Seq<u8>,
    pixels: Seq<u32>,
    stride: int,
    x: int,
    y: int,
    c: char,
    color: u32,
    row: int,
    col: int,
)
    requires
        0 <= row < glyph_height(font),
        0 <= col < glyph_width(font),
        (font[32 + glyph_for(font, c) * glyph_bytes(font) + row * row_bytes(font) + col / 8] & (
        0x80u8 >> ((col % 8) as u8))) != 0,
        0 <= (y + row) * stride + (x + col) < pixels.len(),
    ensures
        draw_glyph(font, pixels, stride, x, y, c, color)[(y + row) * stride + (x + col)] == color,
{
    let g = glyph_for(font, c);
    lemma_glyph_pixel_msb_first(font, g, row, col);
    let p = (y + row) * stride + (x + col);
    assert(glyph_pixel(font, g, row, col) && pixel_index(stride, x, y, row, col) == p);
    assert(glyph_covers(font, g, stride, x, y, p));
}

/// Drawing `c` at (`x`, `y`) leaves a framebuffer position alone when no
/// bitmap pixel with a set bit, read most significant first, lands on it.
pub proof fn lemma_draw_keeps_unlit(
    font: Seq<u8>,
    pixels: Seq<u32>,
    stride: int,
    x: int,
    y: int,
    c: char,
    color: u32,
    p: int,
)
    requires
        0 <= p < pixels.len(),
        forall|row: int, col: int|
            0 <= row < glyph_height(font) && 0 <= col < glyph_width(font) && (y + row) * stride + (
            x + col) == p ==> (#[trigger] font[32 + glyph_for(font, c) * glyph_bytes(font) + row
                * row_bytes(font) + col / 8] & (0x80u8 >> ((col % 8) as u8))) == 0,
    ensures
        draw_glyph(font, pixels, stride, x, y, c, color)[p] == pixels[p],
{
    let g = glyph_for(font, c);
    if glyph_covers(font, g, stride, x, y, p) {
        let (r, cc) = choose|r: int, cc: int|
            #![trigger glyph_pixel(font, g, r, cc), pixel_index(stride, x, y, r, cc)]
            0 <= r < glyph_height(font) && 0 <= cc < glyph_width(font) && (r < glyph_height(font)
                || (r == glyph_height(font) && cc < 0)) && glyph_pixel(font, g, r, cc)
                && pixel_index(stride, x, y, r, cc) == p;
        lemma_glyph_pixel_msb_first(font, g, r, cc);
        assert((font[32 + g * glyph_bytes(font) + r * row_bytes(font) + cc / 8] & (0x80u8 >> ((cc
            % 8) as u8))) == 0);
        assert(false);
    }
}

/// Backspace undoes a character typed onto a blank cell: when the glyphs fit
/// the `CHAR_W` by `CHAR_H` cell, the character does not wrap the line and the
/// cell under the cursor is black, writing the character and then erasing it
/// gives back the framebuffer and the cursor exactly.
pub proof fn lemma_backspace_undoes_char(
    font: Seq<u8>,
    stride: int,
    color: u32,
    st: (Seq<u32>, int, int),
    c: char,
)
    requires
        c != '\n',
        0 <= st.1,
        st.1 + 16 <= stride,
        glyph_width(font) <= 8,
        glyph_height(font) <= 16,
        forall|p: int|
            0 <= p < st.0.len() && #[trigger] cell_covers(stride, st.1, st.2, p) ==> st.0[p] == 0,
    ensures
        backspace_step(stride, text_step(font, stride, color, st, c)) == st,
{
    let g = glyph_for(font, c);
    let drawn = draw_glyph(font, st.0, stride, st.1, st.2, c, color);
    let back = erase_cell(drawn, stride, st.1, st.2);
    assert forall|p: int| 0 <= p < st.0.len() implies back[p] == st.0[p] by {
        if glyph_covers(font, g, stride, st.1, st.2, p) {
            let (r, cc) = choose|r: int, cc: int|
                #![trigger glyph_pixel(font, g, r, cc), pixel_index(stride, st.1, st.2, r, cc)]
                0 <= r < glyph_height(font) && 0 <= cc < glyph_width(font) && (r < glyph_height(
                    font,
                ) || (r == glyph_height(font) && cc < 0)) && glyph_pixel(font, g, r, cc)
                    && pixel_index(stride, st.1, st.2, r, cc) == p;
            assert(pixel_index(stride, st.1, st.2, r, cc) == p);
            assert(cell_covers(stride, st.1, st.2, p));
        }
    }
    assert(back =~= st.0);
}

impl FramebufferWriter {
    /// The framebuffer contents and the cursor position.
    pub open spec fn text_state(&self) -> (Seq<u32>, int, int) {
        (self.pixels@, self.cursor_x as int, self.cursor_y as int)
    }

    /// A writer drawing into `pixels` (rows of `stride` pixels) with `font`,
    /// its cursor at (`start_x`, `start_y`), in white.
    pub fn new(
        pixels: Vec<u32>,
        stride: usize,
        start_x: usize,
        start_y: usize,
        font: Psf2Font,
    ) -> (w: Self)
        ensures
            w.pixels@ == pixels@,
            w.stride == stride,
            w.cursor_x == start_x,
            w.cursor_y == start_y,
            w.color == DEFAULT_COLOR,
            w.font@ == font@,
    {
        FramebufferWriter {
            pixels,
            stride,
            cursor_x: start_x,
            cursor_y: start_y,
            color: DEFAULT_COLOR,
            font,
        }
    }

    /// Selects the colour of the text drawn from now on.
    pub fn set_color(&mut self, color: u32)
        ensures
            final(self).color == color,
            final(self).text_state() == old(self).text_state(),
            final(self).stride == old(self).stride,
            final(self).font@ == old(self).font@,
    {
        self.color = color;
    }

    /// Glyph width and height in pixels, from the font header.
    pub fn psf2_char_size(&self) -> (r: (usize, usize))
        ensures
            r.0 == glyph_width(self.font@),
            r.1 == glyph_height(self.font@),
    {
        let width = self.font.header_u32(28) as usize;
        let height = self.font.header_u32(24) as usize;
        (width, height)
    }

    /// Writes one character at the cursor: a newline moves to the start of the
    /// next text line; anything else is drawn and advances the cursor, which
    /// wraps to the next line when another character would not fit.
    fn write_char(&mut self, c: char, char_h: usize)
        requires
            char_h == glyph_height(old(self).font@),
            step_fits(old(self).font@, old(self).stride as int, old(self).text_state(), c),
        ensures
            final(self).text_state() == text_step(
                old(self).font@,
                old(self).stride as int,
                old(self).color,
                old(self).text_state(),
                c,
            ),
            final(self).stride == old(self).stride,
            final(self).color == old(self).color,
            final(self).font@ == old(self).font@,
    {
        if c == '\n' {
            self.cursor_x = 0;
            self.cursor_y = self.cursor_y + char_h;
        } else {
            self.putchar(self.cursor_x, self.cursor_y, c);
            self.cursor_x = self.cursor_x + CHAR_W;
            if self.cursor_x + CHAR_W > self.stride {
                self.cursor_x = 0;
                self.cursor_y = self.cursor_y + char_h;
            }
        }
    }

    /// Writes the characters of `s` in turn at the cursor.
    pub fn print(&mut self, s: &str)
        requires
            run_fits(old(self).font@, old(self).stride as int, old(self).color, old(self).text_state(), s@),
        ensures
            final(self).text_state() == text_run(
                old(self).font@,
                old(self).stride as int,
                old(self).color,
                old(self).text_state(),
                s@,
            ),
            final(self).stride == old(self).stride,
            final(self).color == old(self).color,
            final(self).font@ == old(self).font@,
    {
        let (_char_w, char_h) = self.psf2_char_size();
        let ghost font = self.font@;
        let ghost stride = self.stride as int;
        let ghost color = self.color;
        let ghost st0 = self.text_state();
        proof {
            assert(s@.take(0) =~= Seq::<char>::empty());
        }
        for c in it: s.chars()
            invariant
                it.seq() == s@,
                font == self.font@,
                stride == self.stride,
                color == self.color,
                char_h == glyph_height(font),
                run_fits(font, stride, color, st0, s@),
                self.text_state() == text_run(font, stride, color, st0, s@.take(it.index() as int)),
        {
            proof {
                lemma_run_fits_prefix(font, stride, color, st0, s@, it.index() + 1);
                lemma_run_extend(font, stride, color, st0, s@, it.index() as int);
            }
            self.write_char(c, char_h);
        }
        proof {
            assert(s@.take(s@.len() as int) =~= s@);
        }
    }

    /// The cursor after writing `s` from (`x`, `y`), or `None` when the
    /// cursor arithmetic would leave `usize` on the way.
    fn cursor_after(&self, s: &str, x: usize, y: usize) -> (r: Option<(usize, usize)>)
        ensures
            r is Some <==> run_fits(
                self.font@,
                self.stride as int,
                self.color,
                (self.pixels@, x as int, y as int),
                s@,
            ),
            r matches Some(xy) ==> xy.0 == text_run(
                self.font@,
                self.stride as int,
                self.color,
                (self.pixels@, x as int, y as int),
                s@,
            ).1 && xy.1 == text_run(
                self.font@,
                self.stride as int,
                self.color,
                (self.pixels@, x as int, y as int),
                s@,
            ).2,
    {
        let (_char_w, char_h) = self.psf2_char_size();
        let ghost font = self.font@;
        let ghost stride = self.stride as int;
        let ghost color = self.color;
        let ghost st0 = (self.pixels@, x as int, y as int);
        let mut cx = x;
        let mut cy = y;
        proof {
            assert(s@.take(0) =~= Seq::<char>::empty());
        }
        for c in it: s.chars()
            invariant
                it.seq() == s@,
                font == self.font@,
                stride == self.stride,
                color == self.color,
                char_h == glyph_height(font),
                st0 == (self.pixels@, x as int, y as int),
                run_fits(font, stride, color, st0, s@.take(it.index() as int)),
                cx == text_run(font, stride, color, st0, s@.take(it.index() as int)).1,
                cy == text_run(font, stride, color, st0, s@.take(it.index() as int)).2,
        {
            proof {
                lemma_run_extend(font, stride, color, st0, s@, it.index() as int);
            }
            if c == '\n' {
                match cy.checked_add(char_h) {
                    Some(v) => {
                        cy = v;
                        cx = 0;
                    },
                    None => {
                        proof {
                            if run_fits(font, stride, color, st0, s@) {
                                lemma_run_fits_prefix(font, stride, color, st0, s@, it.index() + 1);
                            }
                        }
                        return None;
                    },
                }
            } else {
                match cx.checked_add(CHAR_W + CHAR_W) {
                    Some(v) => {
                        if v > self.stride {
                            match cy.checked_add(char_h) {
                                Some(w) => {
                                    cy = w;
                                    cx = 0;
                                },
                                None => {
                                    proof {
                                        if run_fits(font, stride, color, st0, s@) {
                                            lemma_run_fits_prefix(
                                                font,
                                                stride,
                                                color,
                                                st0,
                                                s@,
                                                it.index() + 1,
                                            );
                                        }
                                    }
                                    return None;
                                },
                            }
                        } else {
                            cx = cx + CHAR_W;
                        }
                    },
                    None => {
                        proof {
                            if run_fits(font, stride, color, st0, s@) {
                                lemma_run_fits_prefix(font, stride, color, st0, s@, it.index() + 1);
                            }
                        }
                        return None;
                    },
                }
            }
        }
        proof {
            assert(s@.take(s@.len() as int) =~= s@);
        }
        Some((cx, cy))
    }

    /// Whether `print(s)` keeps the cursor arithmetic within `usize`.
    pub fn can_print(&self, s: &str) -> (ok: bool)
        ensures
            ok == run_fits(self.font@, self.stride as int, self.color, self.text_state(), s@),
    {
        self.cursor_after(s, self.cursor_x, self.cursor_y).is_some()
    }

    /// Whether `println(s)` keeps the cursor arithmetic within `usize`.
    pub fn can_println(&self, s: &str) -> (ok: bool)
        ensures
            ok == run_fits(
                self.font@,
                self.stride as int,
                self.color,
                self.text_state(),
                s@.push('\n'),
            ),
    {
        let ghost font = self.font@;
        let ghost stride = self.stride as int;
        let ghost color = self.color;
        let ghost st0 = self.text_state();
        proof {
            reveal_strlit("\n");
            assert(s@.push('\n') =~= s@ + "\n"@);
            lemma_text_run_concat(font, stride, color, st0, s@, "\n"@);
        }
        match self.cursor_after(s, self.cursor_x, self.cursor_y) {
            Some((x, y)) => {
                let r = self.cursor_after("\n", x, y);
                proof {
                    let mid = text_run(font, stride, color, st0, s@);
                    lemma_run_fits_cursor_only(font, stride, color, mid, (self.pixels@, x as int, y as int), "\n"@);
                }
                r.is_some()
            },
            None => false,
        }
    }

    /// Writes `s` followed by a newline.
    pub fn println(&mut self, s: &str)
        requires
            run_fits(
                old(self).font@,
                old(self).stride as int,
                old(self).color,
                old(self).text_state(),
                s@.push('\n'),
            ),
        ensures
            final(self).text_state() == text_run(
                old(self).font@,
                old(self).stride as int,
                old(self).color,
                old(self).text_state(),
                s@.push('\n'),
            ),
            final(self).cursor_x == 0,
            final(self).stride == old(self).stride,
            final(self).color == old(self).color,
            final(self).font@ == old(self).font@,
    {
        let ghost font = self.font@;
        let ghost stride = self.stride as int;
        let ghost color = self.color;
        let ghost st0 = self.text_state();
        proof {
            reveal_strlit("\n");
            assert(s@.push('\n') =~= s@ + "\n"@);
            lemma_text_run_concat(font, stride, color, st0, s@, "\n"@);
        }
        self.print(s);
        self.print("\n");
        proof {
            assert(s@.push('\n').drop_last() =~= s@);
        }
    }

    /// Writes the number `n`, whose domain is zero alone: it writes the
    /// single digit `'0'` through `print`.
    pub fn print_num(&mut self, n: usize)
        requires
            n == 0,
            run_fits(old(self).font@, old(self).stride as int, old(self).color, old(self).text_state(), seq!['0']),
        ensures
            final(self).text_state() == text_run(
                old(self).font@,
                old(self).stride as int,
                old(self).color,
                old(self).text_state(),
                seq!['0'],
            ),
            final(self).stride == old(self).stride,
            final(self).color == old(self).color,
            final(self).font@ == old(self).font@,
    {
        proof {
            reveal_strlit("0");
            assert("0"@ =~= seq!['0']);
        }
        self.print("0");
    }

    /// Writes the character whose code is the low byte of `c`, when that byte
    /// is ASCII; a byte of 0x80 or above is no UTF-8 text on its own and
    /// nothing is written.
    pub fn print_char(&mut self, c: char)
        requires
            run_fits(old(self).font@, old(self).stride as int, old(self).color, old(self).text_state(), char_as_text(c)),
        ensures
            final(self).text_state() == text_run(
                old(self).font@,
                old(self).stride as int,
                old(self).color,
                old(self).text_state(),
                char_as_text(c),
            ),
            final(self).stride == old(self).stride,
            final(self).color == old(self).color,
            final(self).font@ == old(self).font@,
    {
        let b = (c as u32 % 256) as u8;
        if b < 0x80 {
            let ch = b as char;
            let (_char_w, char_h) = self.psf2_char_size();
            proof {
                assert(char_as_text(c) =~= seq![ch]);
                assert(seq![ch].drop_last() =~= Seq::<char>::empty());
            }
            self.write_char(ch, char_h);
        }
    }

    /// Paints the first `stride * height` pixels black and moves the cursor to
    /// the top left corner.
    pub fn clear_screen(&mut self, _width: usize, height: usize)
        requires
            old(self).stride * height <= usize::MAX,
        ensures
            final(self).pixels@ == clear_prefix(old(self).pixels@, old(self).stride * height),
            final(self).cursor_x == 0,
            final(self).cursor_y == 0,
            final(self).stride == old(self).stride,
            final(self).color == old(self).color,
            final(self).font@ == old(self).font@,
    {
        let n = self.stride * height;
        let ghost old_px = self.pixels@;
        let ghost old_w = *self;
        let mut i: usize = 0;
        while i < n
            invariant
                i <= n,
                self.stride == old_w.stride,
                self.color == old_w.color,
                self.font@ == old_w.font@,
                self.pixels@.len() == old_px.len(),
                forall|p: int|
                    0 <= p < old_px.len() ==> #[trigger] self.pixels@[p] == if p < i {
                        0
                    } else {
                        old_px[p]
                    },
            decreases n - i,
        {
            if i < self.pixels.len() {
                self.pixels.set(i, 0);
            }
            i = i + 1;
        }
        assert(self.pixels@ =~= clear_prefix(old_px, n as int));
        self.cursor_x = 0;
        self.cursor_y = 0;
    }

    /// Moves the cursor back one cell and erases that cell; does nothing at
    /// the start of a line.
    pub fn backspace(&mut self)
        ensures
            final(self).text_state() == backspace_step(old(self).stride as int, old(self).text_state()),
            final(self).stride == old(self).stride,
            final(self).color == old(self).color,
            final(self).font@ == old(self).font@,
    {
        if self.cursor_x >= CHAR_W {
            self.cursor_x = self.cursor_x - CHAR_W;
        } else {
            return;
        }
        let ghost old_px = self.pixels@;
        let ghost old_w = *self;
        let ghost stride = self.stride as int;
        let x = self.cursor_x;
        let y = self.cursor_y;
        let mut row: usize = 0;
        while row < CHAR_H
            invariant
                row <= CHAR_H,
                stride == self.stride,
                self.color == old_w.color,
                self.font@ == old_w.font@,
                x == self.cursor_x,
                y == self.cursor_y,
                self.pixels@.len() == old_px.len(),
                forall|p: int|
                    0 <= p < old_px.len() ==> #[trigger] self.pixels@[p] == if cell_covers_before(
                        stride,
                        x as int,
                        y as int,
                        row as int,
                        0,
                        p,
                    ) {
                        0
                    } else {
                        old_px[p]
                    },
            decreases CHAR_H - row,
        {
            let mut col: usize = 0;
            while col < CHAR_W
                invariant
                    row < CHAR_H,
                    col <= CHAR_W,
                    stride == self.stride,
                    self.color == old_w.color,
                    self.font@ == old_w.font@,
                    x == self.cursor_x,
                    y == self.cursor_y,
                    self.pixels@.len() == old_px.len(),
                    forall|p: int|
                        0 <= p < old_px.len() ==> #[trigger] self.pixels@[p]
                            == if cell_covers_before(
                            stride,
                            x as int,
                            y as int,
                            row as int,
                            col as int,
                            p,
                        ) {
                            0
                        } else {
                            old_px[p]
                        },
                decreases CHAR_W - col,
            {
                let ghost before = self.pixels@;
                let _plen = self.pixels.len();
                match pixel_offset(self.stride, x, y, row, col) {
                    Some(p) => {
                        if p < self.pixels.len() {
                            self.pixels.set(p, 0);
                        }
                    },
                    None => {},
                }
                proof {
                    let idx = pixel_index(stride, x as int, y as int, row as int, col as int);
                    assert(self.pixels@ == if 0 <= idx < old_px.len() {
                        before.update(idx, 0)
                    } else {
                        before
                    });
                    assert forall|p: int| 0 <= p < old_px.len() implies #[trigger] self.pixels@[p]
                        == if cell_covers_before(
                        stride,
                        x as int,
                        y as int,
                        row as int,
                        col + 1,
                        p,
                    ) {
                        0
                    } else {
                        old_px[p]
                    } by {
                        lemma_cell_step(stride, x as int, y as int, row as int, col as int, p);
                        assert(before[p] == if cell_covers_before(
                            stride,
                            x as int,
                            y as int,
                            row as int,
                            col as int,
                            p,
                        ) {
                            0
                        } else {
                            old_px[p]
                        });
                    }
                }
                col = col + 1;
            }
            proof {
                assert forall|p: int| 0 <= p < old_px.len() implies #[trigger] self.pixels@[p]
                    == if cell_covers_before(stride, x as int, y as int, row + 1, 0, p) {
                    0
                } else {
                    old_px[p]
                } by {
                    lemma_cell_row(stride, x as int, y as int, row as int, p);
                }
            }
            row = row + 1;
        }
        assert(self.pixels@ =~= erase_cell(old_px, stride, x as int, y as int));
    }

    /// Draws the glyph of `c` with its top left corner at (`x`, `y`).
    fn putchar(&mut self, x: usize, y: usize, c: char)
        ensures
            final(self).pixels@ == draw_glyph(
                old(self).font@,
                old(self).pixels@,
                old(self).stride as int,
                x as int,
                y as int,
                c,
                old(self).color,
            ),
            final(self).stride == old(self).stride,
            final(self).cursor_x == old(self).cursor_x,
            final(self).cursor_y == old(self).cursor_y,
            final(self).color == old(self).color,
            final(self).font@ == old(self).font@,
    {
        let code = glyph_index(&self.font, c);
        let (char_w, char_h) = self.psf2_char_size();
        self.font.well_formed();
        let ghost font = self.font@;
        let ghost needed = glyphs_needed(font);
        let bytes_per_row = (char_w + 7) / 8;
        proof {
            assert(needed * glyph_bytes(font) >= (code + 1) * glyph_bytes(font))
                by (nonlinear_arith)
                requires
                    code + 1 <= needed,
                    glyph_bytes(font) >= 0,
            ;
            assert((code + 1) * glyph_bytes(font) >= glyph_bytes(font)) by (nonlinear_arith)
                requires
                    code >= 0,
                    glyph_bytes(font) >= 0,
            ;
            assert((code + 1) * glyph_bytes(font) == code * glyph_bytes(font) + glyph_bytes(font))
                by (nonlinear_arith);
            assert(bytes_per_row * char_h >= 0) by (nonlinear_arith)
                requires
                    bytes_per_row >= 0,
                    char_h >= 0,
            ;
        }
        let bytes_per_glyph = bytes_per_row * char_h;
        let glyph_offset = PSF2_HEADER_SIZE + code * bytes_per_glyph;
        let ghost old_px = self.pixels@;
        let ghost old_x = self.cursor_x;
        let ghost old_y = self.cursor_y;
        let ghost old_color = self.color;
        let ghost stride = self.stride as int;
        let mut row: usize = 0;
        while row < char_h
            invariant
                font == self.font@,
                psf2_well_formed(font),
                code == glyph_for(font, c),
                char_w == glyph_width(font),
                char_h == glyph_height(font),
                bytes_per_row == row_bytes(font),
                bytes_per_glyph == glyph_bytes(font),
                glyph_offset == 32 + code * glyph_bytes(font),
                32 + (code + 1) * glyph_bytes(font) <= font.len(),
                code >= 0,
                row <= char_h,
                stride == self.stride,
                old_x == self.cursor_x,
                old_y == self.cursor_y,
                old_color == self.color,
                self.pixels@.len() == old_px.len(),
                forall|p: int|
                    0 <= p < old_px.len() ==> #[trigger] self.pixels@[p] == if covers_before(
                        font,
                        code as int,
                        stride,
                        x as int,
                        y as int,
                        row as int,
                        0,
                        p,
                    ) {
                        self.color
                    } else {
                        old_px[p]
                    },
            decreases char_h - row,
        {
            let mut col: usize = 0;
            while col < char_w
                invariant
                    font == self.font@,
                    psf2_well_formed(font),
                    code == glyph_for(font, c),
                    char_w == glyph_width(font),
                    char_h == glyph_height(font),
                    bytes_per_row == row_bytes(font),
                    bytes_per_glyph == glyph_bytes(font),
                    glyph_offset == 32 + code * glyph_bytes(font),
                    32 + (code + 1) * glyph_bytes(font) <= font.len(),
                    code >= 0,
                    row < char_h,
                    col <= char_w,
                    stride == self.stride,
                    old_x == self.cursor_x,
                    old_y == self.cursor_y,
                    old_color == self.color,
                    self.pixels@.len() == old_px.len(),
                    forall|p: int|
                        0 <= p < old_px.len() ==> #[trigger] self.pixels@[p] == if covers_before(
                            font,
                            code as int,
                            stride,
                            x as int,
                            y as int,
                            row as int,
                            col as int,
                            p,
                        ) {
                            self.color
                        } else {
                            old_px[p]
                        },
                decreases char_w - col,
            {
                proof {
                    lemma_glyph_byte_in_range(
                        bytes_per_row as int,
                        char_h as int,
                        char_w as int,
                        code as int,
                        row as int,
                        col as int,
                    );
                }
                let byte = self.font.byte(glyph_offset + row * bytes_per_row + col / 8);
                let ghost before = self.pixels@;
                let _plen = self.pixels.len();
                let lit = (byte >> (7 - (col % 8) as u8)) & 1 == 1;
                assert(lit == glyph_pixel(font, code as int, row as int, col as int));
                if lit {
                    match pixel_offset(self.stride, x, y, row, col) {
                        Some(p) => {
                            if p < self.pixels.len() {
                                self.pixels.set(p, self.color);
                            }
                        },
                        None => {},
                    }
                }
                proof {
                    let idx = pixel_index(stride, x as int, y as int, row as int, col as int);
                    assert(self.pixels@ == if lit && 0 <= idx < old_px.len() {
                        before.update(idx, self.color)
                    } else {
                        before
                    });

                    assert forall|p: int| 0 <= p < old_px.len() implies #[trigger] self.pixels@[p]
                        == if covers_before(
                        font,
                        code as int,
                        stride,
                        x as int,
                        y as int,
                        row as int,
                        col + 1,
                        p,
                    ) {
                        self.color
                    } else {
                        old_px[p]
                    } by {
                        lemma_covers_step(
                            font,
                            code as int,
                            stride,
                            x as int,
                            y as int,
                            row as int,
                            col as int,
                            p,
                        );
                        assert(before[p] == if covers_before(
                            font,
                            code as int,
                            stride,
                            x as int,
                            y as int,
                            row as int,
                            col as int,
                            p,
                        ) {
                            self.color
                        } else {
                            old_px[p]
                        });
                    }
                }
                col = col + 1;
            }
            proof {
                assert forall|p: int| 0 <= p < old_px.len() implies #[trigger] self.pixels@[p]
                    == if covers_before(
                    font,
                    code as int,
                    stride,
                    x as int,
                    y as int,
                    row + 1,
                    0,
                    p,
                ) {
                    self.color
                } else {
                    old_px[p]
                } by {
                    lemma_covers_row(font, code as int, stride, x as int, y as int, row as int, p);
                }
            }
            row = row + 1;
        }
        assert(self.pixels@ =~= draw_glyph(font, old_px, stride, x as int, y as int, c, self.color));
    }
}

/// Offset of the bitmap that `print_font_debug` dumps: glyph 87 at 26 bytes
/// per glyph.
pub const DEBUG_GLYPH_OFFSET: usize = 2294;

/// Number of bitmap bytes that `print_font_debug` dumps.
pub const DEBUG_GLYPH_BYTES: usize = 26;

/// The decimal values of `f[start..start + n]`, each followed by a space.
pub open spec fn debug_byte_list(f: Seq<u8>, start: int, n: nat) -> Seq<u8>
    decreases n,
{
    if n == 0 {
        Seq::empty()
    } else {
        debug_byte_list(f, start, (n - 1) as nat) + decimal_digits(f[start + n - 1] as nat)
            + " ".spec_bytes()
    }
}

/// The report that `print_font_debug` sends over the serial line: the magic
/// bytes, the header's glyph size, height, width and flags, and the bitmap
/// bytes at `DEBUG_GLYPH_OFFSET`.
pub open spec fn font_debug_text(f: Seq<u8>) -> Seq<u8> {
    "magic: ".spec_bytes() + decimal_digits(f[0] as nat) + " ".spec_bytes() + decimal_digits(
        f[1] as nat,
    ) + " ".spec_bytes() + decimal_digits(f[2] as nat) + " ".spec_bytes() + decimal_digits(
        f[3] as nat,
    ) + "\n".spec_bytes() + "bpg: ".spec_bytes() + decimal_digits(header_glyph_size(f) as nat)
        + "\n".spec_bytes() + "h: ".spec_bytes() + decimal_digits(glyph_height(f) as nat)
        + "\n".spec_bytes() + "w: ".spec_bytes() + decimal_digits(glyph_width(f) as nat)
        + "\n".spec_bytes() + "flags: ".spec_bytes() + decimal_digits((f[12] + f[13] * 256) as nat)
        + "\n".spec_bytes() + "W glyph bytes:\n".spec_bytes() + debug_byte_list(
        f,
        DEBUG_GLYPH_OFFSET as int,
        DEBUG_GLYPH_BYTES as nat,
    ) + "\n".spec_bytes()
}

/// Appends `piece` to `out`.
fn emit(out: &mut Vec<u8>, piece: Vec<u8>)
    ensures
        final(out)@ == old(out)@ + piece@,
{
    let mut piece = piece;
    out.append(&mut piece);
}

/// The serial report on the font's header and on one glyph bitmap.
pub fn print_font_debug(font: &Psf2Font) -> (out: Vec<u8>)
    requires
        font@.len() >= DEBUG_GLYPH_OFFSET + DEBUG_GLYPH_BYTES,
    ensures
        out@ == font_debug_text(font@),
{
    font.well_formed();
    let mut out: Vec<u8> = Vec::new();
    emit(&mut out, serial_print("magic: "));
    emit(&mut out, serial_print_num(font.byte(0) as usize));
    emit(&mut out, serial_print(" "));
    emit(&mut out, serial_print_num(font.byte(1) as usize));
    emit(&mut out, serial_print(" "));
    emit(&mut out, serial_print_num(font.byte(2) as usize));
    emit(&mut out, serial_print(" "));
    emit(&mut out, serial_print_num(font.byte(3) as usize));
    emit(&mut out, serial_print("\n"));

    let bpg = font.header_u32(20) as usize;
    let h = font.header_u32(24) as usize;
    let w = font.header_u32(28) as usize;

    emit(&mut out, serial_print("bpg: "));
    emit(&mut out, serial_print_num(bpg));
    emit(&mut out, serial_print("\n"));
    emit(&mut out, serial_print("h: "));
    emit(&mut out, serial_print_num(h));
    emit(&mut out, serial_print("\n"));
    emit(&mut out, serial_print("w: "));
    emit(&mut out, serial_print_num(w));
    emit(&mut out, serial_print("\n"));
    let lo = font.byte(12) as usize;
    let hi = font.byte(13) as usize;
    let flags = lo | hi << 8;
    assert(lo | hi << 8 == lo + hi * 256) by (bit_vector)
        requires
            lo < 256,
            hi < 256,
    ;
    emit(&mut out, serial_print("flags: "));
    emit(&mut out, serial_print_num(flags));
    emit(&mut out, serial_print("\n"));

    let bpg = DEBUG_GLYPH_BYTES;
    let glyph_offset = DEBUG_GLYPH_OFFSET;
    emit(&mut out, serial_print("W glyph bytes:\n"));
    let ghost head = out@;
    let mut i: usize = 0;
    while i < bpg
        invariant
            i <= bpg,
            bpg == DEBUG_GLYPH_BYTES,
            glyph_offset == DEBUG_GLYPH_OFFSET,
            font@.len() >= DEBUG_GLYPH_OFFSET + DEBUG_GLYPH_BYTES,
            out@ == head + debug_byte_list(font@, glyph_offset as int, i as nat),
        decreases bpg - i,
    {
        emit(&mut out, serial_print_num(font.byte(glyph_offset + i) as usize));
        emit(&mut out, serial_print(" "));
        i = i + 1;
        assert(out@ =~= head + debug_byte_list(font@, glyph_offset as int, i as nat));
    }
    emit(&mut out, serial_print("\n"));
    assert(out@ =~= font_debug_text(font@));
    out
}

} // verus!
