use vstd::prelude::*;
use crate::font_render::char_as_text;

verus! {

/// Number of scancodes that the layouts cover.
pub const SCANCODE_COUNT: usize = 58;

/// Scancode of the backspace key.
pub const BACKSPACE: u8 = 14;

/// Scancode of the left shift key.
pub const LEFT_SHIFT: u8 = 42;

/// Scancode of the right shift key.
pub const RIGHT_SHIFT: u8 = 54;

/// ASCII character of each scancode of the unshifted layout (0: none).
pub open spec fn scancode_map() -> Seq<u8> {
    seq![
        0u8, 0, 49, 50, 51, 52, 53, 54, 55, 56, 57, 48, 45, 61, 0, 9, 113, 119, 101, 114, 116,
        121, 117, 105, 111, 112, 91, 93, 10, 0, 97, 115, 100, 102, 103, 104, 106, 107, 108, 59,
        39, 96, 0, 35, 122, 120, 99, 118, 98, 110, 109, 44, 46, 47, 0, 42, 0, 32,
    ]
}

/// ASCII character of each scancode with shift held (0: none).
pub open spec fn scancode_map_shift() -> Seq<u8> {
    seq![
        0u8, 0, 33, 34, 35, 36, 37, 94, 38, 42, 40, 41, 95, 43, 0, 9, 81, 87, 69, 82, 84, 89,
        85, 73, 79, 80, 123, 125, 10, 0, 65, 83, 68, 70, 71, 72, 74, 75, 76, 58, 64, 126, 0,
        124, 90, 88, 67, 86, 66, 78, 77, 60, 62, 63, 0, 42, 0, 32,
    ]
}

const SCANCODE_MAP: [u8; 58] = [
    0, 0, 49, 50, 51, 52, 53, 54, 55, 56, 57, 48, 45, 61, 0, 9, 113, 119, 101, 114, 116, 121,
    117, 105, 111, 112, 91, 93, 10, 0, 97, 115, 100, 102, 103, 104, 106, 107, 108, 59, 39, 96,
    0, 35, 122, 120, 99, 118, 98, 110, 109, 44, 46, 47, 0, 42, 0, 32,
];

const SCANCODE_MAP_SHIFT: [u8; 58] = [
    0, 0, 33, 34, 35, 36, 37, 94, 38, 42, 40, 41, 95, 43, 0, 9, 81, 87, 69, 82, 84, 89, 85,
    73, 79, 80, 123, 125, 10, 0, 65, 83, 68, 70, 71, 72, 74, 75, 76, 58, 64, 126, 0, 124, 90,
    88, 67, 86, 66, 78, 77, 60, 62, 63, 0, 42, 0, 32,
];

/// What the keyboard interrupt asks of the text writer.
#[derive(Clone, Copy, Debug, PartialEq, Eq, Structural)]
pub enum KeyAction {
    /// Nothing to draw.
    Nothing,
    /// Erase the character before the cursor.
    Backspace,
    /// Write the character with this ASCII code.
    Print(u8),
}

/// The register frame the CPU pushes when it enters an interrupt handler.
pub struct InterruptFrame {
    pub ip: u64,
    pub cs: u64,
    pub flags: u64,
    pub sp: u64,
    pub ss: u64,
}

/// The character of the layout in use for a scancode it covers.
pub open spec fn key_char(shift_held: bool, scancode: u8) -> u8 {
    if shift_held {
        scancode_map_shift()[scancode as int]
    } else {
        scancode_map()[scancode as int]
    }
}

/// Whether `scancode` (without the release bit) is a shift key.
pub open spec fn is_shift(scancode: int) -> bool {
    scancode == 42 || scancode == 54
}

/// The decision of the keyboard interrupt for `scancode` read from the
/// controller while the shift state is `shift_held`: the new shift state and
/// what the writer is to do. A code with the high bit set reports a key
/// release, which matters only for the shift keys; a shift press sets the
/// state; backspace erases; a covered key with a character writes it; any
/// other key does nothing.
pub open spec fn key_event(shift_held: bool, scancode: u8) -> (bool, KeyAction) {
    if scancode >= 128 {
        (if is_shift(scancode - 128) { false } else { shift_held }, KeyAction::Nothing)
    } else if is_shift(scancode as int) {
        (true, KeyAction::Nothing)
    } else if scancode == 14 {
        (shift_held, KeyAction::Backspace)
    } else if scancode < 58 && key_char(shift_held, scancode) != 0 {
        (shift_held, KeyAction::Print(key_char(shift_held, scancode)))
    } else {
        (shift_held, KeyAction::Nothing)
    }
}

/// The character that `scancode` gives in the layout selected by `shift_held`.
pub fn translate(shift_held: bool, scancode: u8) -> (c: u8)
    requires
        scancode < 58,
    ensures
        c == key_char(shift_held, scancode),
{
    let code = scancode as usize;
    if shift_held {
        let m = SCANCODE_MAP_SHIFT;
        assert(m@ == scancode_map_shift());
        m[code]
    } else {
        let m = SCANCODE_MAP;
        assert(m@ == scancode_map());
        m[code]
    }
}

/// Decides what a keyboard interrupt does with the scancode it read: returns
/// the new shift state and the action for the writer. The interrupt is
/// acknowledged in every case.
pub fn handle_scancode(shift_held: bool, scancode: u8) -> (r: (bool, KeyAction))
    ensures
        r == key_event(shift_held, scancode),
{
    if scancode & 0x80 != 0 {
        // key release
        let released = scancode & 0x7F;
        assert(scancode & 0x80 != 0 ==> scancode >= 128 && scancode & 0x7F == scancode - 128)
            by (bit_vector);
        if released == LEFT_SHIFT || released == RIGHT_SHIFT {
            return (false, KeyAction::Nothing);
        }
        return (shift_held, KeyAction::Nothing);
    }
    assert(scancode & 0x80 == 0 ==> scancode < 128) by (bit_vector);
    // key press
    if scancode == LEFT_SHIFT || scancode == RIGHT_SHIFT {
        return (true, KeyAction::Nothing);
    }
    if scancode == BACKSPACE {
        return (shift_held, KeyAction::Backspace);
    }
    if (scancode as usize) < SCANCODE_COUNT {
        let c = translate(shift_held, scancode);
        if c != 0 {
            return (shift_held, KeyAction::Print(c));
        }
    }
    (shift_held, KeyAction::Nothing)
}

/// Both layouts hold only ASCII codes.
proof fn lemma_layouts_ascii(i: int)
    requires
        0 <= i < 58,
    ensures
        scancode_map()[i] < 128,
        scancode_map_shift()[i] < 128,
{
}

/// Every character that a key press asks the writer to print is ASCII, so
/// `print_char` draws exactly that character.
pub proof fn lemma_key_output_is_ascii(shift_held: bool, scancode: u8)
    ensures
        key_event(shift_held, scancode).1 matches KeyAction::Print(c) ==> c < 128
            && char_as_text(c as char) == seq![c as char],
{
    if scancode < 58 {
        lemma_layouts_ascii(scancode as int);
    }
    if let KeyAction::Print(c) = key_event(shift_held, scancode).1 {
        assert(char_as_text(c as char) =~= seq![c as char]);
    }
}

/// Every key of the layouts that has a character types it: for each scancode
/// below 58 other than backspace and the shift keys, a press prints the
/// layout's character whenever that character is not 0, and keeps the shift
/// state (`handle_scancode` returns `key_event`). In particular the space bar (57) types a space in both layouts.
pub proof fn lemma_every_mapped_key_prints(shift_held: bool, scancode: u8)
    requires
        scancode < 58,
        scancode != 14,
        scancode != 42,
        scancode != 54,
        (if shift_held {
            scancode_map_shift()[scancode as int]
        } else {
            scancode_map()[scancode as int]
        }) != 0,
    ensures
        key_event(shift_held, scancode) == (
            shift_held,
            KeyAction::Print(
                if shift_held {
                    scancode_map_shift()[scancode as int]
                } else {
                    scancode_map()[scancode as int]
                },
            ),
        ),
        scancode_map()[57] == 32 && scancode_map_shift()[57] == 32,
{
}

} // verus!
