use vstd::prelude::*;

verus! {

/// Number of gates in the interrupt descriptor table.
pub const IDT_ENTRIES: usize = 256;

/// Interrupt vector of the keyboard once the interrupt controllers are remapped.
pub const KEYBOARD_VECTOR: usize = 33;

/// Code segment selector that the keyboard gate uses.
pub const KERNEL_CODE_SELECTOR: u16 = 40;

/// Gate attributes: present, ring 0, 64-bit interrupt gate.
pub const INTERRUPT_GATE: u8 = 0x8E;

/// One gate of the x86_64 interrupt descriptor table, field by field.
#[derive(Clone, Copy)]
pub struct IdtEntry {
    pub offset_low: u16,
    pub selector: u16,
    pub ist: u8,
    pub flags: u8,
    pub offset_mid: u16,
    pub offset_high: u32,
    pub zero: u32,
}

impl IdtEntry {
    /// Entry point of the handler, from the three offset fields.
    pub open spec fn handler_address(self) -> int {
        self.offset_low + self.offset_mid * 0x10000 + self.offset_high * 0x1_0000_0000
    }

    /// A gate for the handler at `handler`: its address split into the low 16,
    /// middle 16 and high 32 bits, with `selector` and `flags`, no interrupt
    /// stack and the reserved field zero.
    pub fn new(handler: u64, selector: u16, flags: u8) -> (e: Self)
        ensures
            e.offset_low == handler % 0x10000,
            e.offset_mid == (handler / 0x10000) % 0x10000,
            e.offset_high == handler / 0x1_0000_0000,
            e.selector == selector,
            e.flags == flags,
            e.ist == 0,
            e.zero == 0,
    {
        assert(handler as u16 == handler % 0x10000) by (bit_vector);
        assert((handler >> 16) as u16 == (handler / 0x10000) % 0x10000) by (bit_vector);
        assert((handler >> 32) as u32 == handler / 0x1_0000_0000) by (bit_vector);
        Self {
            offset_low: handler as u16,
            selector,
            ist: 0,
            flags,
            offset_mid: (handler >> 16) as u16,
            offset_high: (handler >> 32) as u32,
            zero: 0,
        }
    }
}

/// The three offset fields of a gate made for `handler` give back exactly
/// `handler`.
pub proof fn lemma_gate_encodes_handler(handler: u64, e: IdtEntry)
    requires
        e.offset_low == handler % 0x10000,
        e.offset_mid == (handler / 0x10000) % 0x10000,
        e.offset_high == handler / 0x1_0000_0000,
    ensures
        e.handler_address() == handler,
{
    let lo = handler % 0x10000;
    let mid = (handler / 0x10000) % 0x10000;
    let hi = handler / 0x1_0000_0000;
    assert(lo + mid * 0x10000 + hi * 0x1_0000_0000 == handler) by (nonlinear_arith)
        requires
            lo == handler % 0x10000,
            mid == (handler / 0x10000) % 0x10000,
            hi == handler / 0x1_0000_0000,
            handler >= 0,
    ;
}

} // verus!
