use vstd::prelude::*;

verus! {

/// Command port of the primary 8259 interrupt controller.
pub const PIC1_COMMAND: u16 = 0x20;

/// Data port of the primary controller.
pub const PIC1_DATA: u16 = 0x21;

/// Command port of the secondary controller.
pub const PIC2_COMMAND: u16 = 0xA0;

/// Data port of the secondary controller.
pub const PIC2_DATA: u16 = 0xA1;

/// An unused port whose write gives the controllers time to settle.
pub const WAIT_PORT: u16 = 0x80;

/// A byte written to an I/O port: `(port, value)`.
pub type PortWrite = (u16, u8);

/// The settling write.
pub open spec fn wait_write() -> PortWrite {
    (0x80, 0)
}

/// The writes that program both controllers: initialisation (ICW1 0x11),
/// vector offsets 0x20 and 0x28 (ICW2), cascade wiring (ICW3), 8086 mode
/// (ICW4), each followed by a settling write; then the saved masks
/// `mask1`/`mask2` are written back, and finally every line is masked except
/// line 1, the keyboard.
pub open spec fn pic_init_writes(mask1: u8, mask2: u8) -> Seq<PortWrite> {
    seq![
        (0x20u16, 0x11u8), wait_write(), (0xA0u16, 0x11u8), wait_write(),
        (0x21u16, 0x20u8), wait_write(), (0xA1u16, 0x28u8), wait_write(),
        (0x21u16, 0x04u8), wait_write(), (0xA1u16, 0x02u8), wait_write(),
        (0x21u16, 0x01u8), wait_write(), (0xA1u16, 0x01u8), wait_write(),
        (0x21u16, mask1), (0xA1u16, mask2),
        (0x21u16, 0xFDu8), (0xA1u16, 0xFFu8),
    ]
}

/// The write that lets the controllers settle between commands.
pub fn io_wait() -> (w: PortWrite)
    ensures
        w == wait_write(),
{
    (WAIT_PORT, 0)
}

fn outb(out: &mut Vec<PortWrite>, port: u16, val: u8)
    ensures
        final(out)@ == old(out)@.push((port, val)),
{
    out.push((port, val));
}

/// The port writes that remap and program the two interrupt controllers,
/// given the masks `mask1` and `mask2` read from their data ports beforehand.
pub fn init(mask1: u8, mask2: u8) -> (writes: Vec<PortWrite>)
    ensures
        writes@ == pic_init_writes(mask1, mask2),
{
    let mut out: Vec<PortWrite> = Vec::new();
    outb(&mut out, PIC1_COMMAND, 0x11);
    out.push(io_wait());
    outb(&mut out, PIC2_COMMAND, 0x11);
    out.push(io_wait());

    outb(&mut out, PIC1_DATA, 0x20);
    out.push(io_wait());
    outb(&mut out, PIC2_DATA, 0x28);
    out.push(io_wait());

    outb(&mut out, PIC1_DATA, 0x04);
    out.push(io_wait());
    outb(&mut out, PIC2_DATA, 0x02);
    out.push(io_wait());

    outb(&mut out, PIC1_DATA, 0x01);
    out.push(io_wait());
    outb(&mut out, PIC2_DATA, 0x01);
    out.push(io_wait());

    outb(&mut out, PIC1_DATA, mask1);
    outb(&mut out, PIC2_DATA, mask2);

    outb(&mut out, PIC1_DATA, 0b11111101);
    outb(&mut out, PIC2_DATA, 0xFF);
    assert(out@ =~= pic_init_writes(mask1, mask2));
    out
}

/// The end-of-interrupt command to the primary controller.
pub fn eoi() -> (w: PortWrite)
    ensures
        w == (PIC1_COMMAND, 0x20u8),
{
    (PIC1_COMMAND, 0x20)
}

/// The last value written to `port` in `writes`, if any.
pub open spec fn last_write_to(writes: Seq<PortWrite>, port: u16) -> Option<u8>
    decreases writes.len(),
{
    if writes.len() == 0 {
        None
    } else if writes.last().0 == port {
        Some(writes.last().1)
    } else {
        last_write_to(writes.drop_last(), port)
    }
}

/// Whatever masks were saved, initialisation leaves every interrupt line
/// masked except line 1 of the primary controller (the keyboard).
pub proof fn lemma_init_unmasks_only_keyboard(mask1: u8, mask2: u8)
    ensures
        last_write_to(pic_init_writes(mask1, mask2), PIC1_DATA) == Some(0xFDu8),
        last_write_to(pic_init_writes(mask1, mask2), PIC2_DATA) == Some(0xFFu8),
{
    let w = pic_init_writes(mask1, mask2);
    assert(w.last() == (0xA1u16, 0xFFu8));
    assert(w.drop_last().last() == (0x21u16, 0xFDu8));
    assert(last_write_to(w.drop_last(), PIC1_DATA) == Some(0xFDu8));
}

} // verus!
