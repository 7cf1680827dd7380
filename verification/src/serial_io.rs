use vstd::prelude::*;
use vstd::string::StringSliceAdditionalSpecFns;

verus! {

/// The ASCII decimal representation of `n`, most significant digit first,
/// without leading zeros (zero is written as a single `'0'`).
pub open spec fn decimal_digits(n: nat) -> Seq<u8>
    decreases n,
{
    if n < 10 {
        seq![(48 + n) as u8]
    } else {
        decimal_digits(n / 10).push((48 + n % 10) as u8)
    }
}

/// The number that a sequence of ASCII decimal digits denotes.
pub open spec fn decimal_value(s: Seq<u8>) -> int
    decreases s.len(),
{
    if s.len() == 0 {
        0
    } else {
        decimal_value(s.drop_last()) * 10 + (s.last() - 48)
    }
}

/// Whether every byte of `s` is an ASCII decimal digit.
pub open spec fn all_digits(s: Seq<u8>) -> bool {
    forall|i: int| 0 <= i < s.len() ==> 48 <= #[trigger] s[i] <= 57
}

/// Decimal rendering is faithful: the digits are ASCII digits, there is at least
/// one, the first is not `'0'` unless `n` is zero, and they denote `n` again.
pub proof fn lemma_decimal_roundtrip(n: nat)
    ensures
        decimal_digits(n).len() >= 1,
        all_digits(decimal_digits(n)),
        decimal_value(decimal_digits(n)) == n,
        n > 0 ==> decimal_digits(n)[0] != 48,
    decreases n,
{
    if n >= 10 {
        lemma_decimal_roundtrip(n / 10);
        let d = decimal_digits(n);
        assert(d.drop_last() =~= decimal_digits(n / 10));
        assert(d[0] == decimal_digits(n / 10)[0]);
        assert(n == (n / 10) * 10 + n % 10) by (nonlinear_arith);
        assert(d.last() == 48 + n % 10);
    } else {
        let d = decimal_digits(n);
        assert(d.drop_last().len() == 0);
        assert(decimal_value(d.drop_last()) == 0);
    }
}

/// The bytes that `serial_print` sends to the serial port: the UTF-8 encoding
/// of `s`, in order.
pub fn serial_print(s: &str) -> (out: Vec<u8>)
    ensures
        out@ == s.spec_bytes(),
{
    let bytes = s.as_bytes();
    let mut out: Vec<u8> = Vec::new();
    let mut i: usize = 0;
    while i < bytes.len()
        invariant
            i <= bytes@.len(),
            bytes@ == s.spec_bytes(),
            out@ == bytes@.subrange(0, i as int),
        decreases bytes@.len() - i,
    {
        out.push(bytes[i]);
        i = i + 1;
        assert(out@ =~= bytes@.subrange(0, i as int));
    }
    assert(out@ =~= bytes@);
    out
}

/// The bytes that `serial_print_num` sends to the serial port: the decimal
/// representation of `n`.
pub fn serial_print_num(n: usize) -> (out: Vec<u8>)
    ensures
        out@ == decimal_digits(n as nat),
    decreases n,
{
    if n < 10 {
        let mut out: Vec<u8> = Vec::new();
        out.push(48u8 + (n as u8));
        out
    } else {
        let mut out = serial_print_num(n / 10);
        out.push(48u8 + ((n % 10) as u8));
        out
    }
}

/// The decimal representation of the 64-bit value `n`, as `serial_print_num`
/// sends it for a machine word.
pub fn serial_print_u64(n: u64) -> (out: Vec<u8>)
    ensures
        out@ == decimal_digits(n as nat),
    decreases n,
{
    if n < 10 {
        let mut out: Vec<u8> = Vec::new();
        out.push(48u8 + (n as u8));
        out
    } else {
        let mut out = serial_print_u64(n / 10);
        out.push(48u8 + ((n % 10) as u8));
        out
    }
}

/// Base I/O port of the first serial line (COM1).
pub const COM1: u16 = 0x3F8;

/// The register writes that set up the first serial line: interrupts off,
/// divisor latch on, divisor 3 (38400 baud), 8 data bits with no parity and
/// one stop bit, FIFOs enabled and cleared.
pub open spec fn serial_init_writes() -> Seq<(u16, u8)> {
    seq![
        (0x3F9u16, 0u8), (0x3FBu16, 0x80u8), (0x3F8u16, 3u8), (0x3F9u16, 0u8),
        (0x3FBu16, 0x03u8), (0x3FAu16, 0xC7u8),
    ]
}

/// The port writes that initialise the first serial line.
pub fn serial_init() -> (writes: Vec<(u16, u8)>)
    ensures
        writes@ == serial_init_writes(),
{
    let mut w: Vec<(u16, u8)> = Vec::new();
    // disable interrupts
    w.push((COM1 + 1, 0));
    // enable DLAB to set baud rate
    w.push((COM1 + 3, 0x80));
    // set baud rate to 38400 (divisor 3)
    w.push((COM1, 3));
    w.push((COM1 + 1, 0));
    // 8 bits, no parity, one stop bit
    w.push((COM1 + 3, 0x03));
    // enable FIFO
    w.push((COM1 + 2, 0xC7));
    assert(w@ =~= serial_init_writes());
    w
}

} // verus!
