use vstd::prelude::*;
use vstd::string::StringSliceAdditionalSpecFns;
use crate::serial_io::{
    all_digits, decimal_digits, decimal_value, lemma_decimal_roundtrip, serial_print,
    serial_print_num, serial_print_u64,
};

verus! {

/// Size in bytes of the header of an ACPI system description table; the
/// XSDT's 64-bit table pointers follow it.
pub const SDT_HEADER_SIZE: usize = 36;

/// Number of table pointers in an XSDT of `length` bytes.
pub fn xsdt_entry_count(length: usize) -> (n: usize)
    requires
        length >= SDT_HEADER_SIZE,
    ensures
        n == (length - SDT_HEADER_SIZE) / 8,
{
    (length - SDT_HEADER_SIZE) / 8
}

/// The virtual address of physical address `phys` in the higher-half direct
/// map at `hhdm_offset`.
pub fn phys_to_virt(phys: u64, hhdm_offset: u64) -> (v: u64)
    requires
        phys + hhdm_offset <= u64::MAX,
    ensures
        v == phys + hhdm_offset,
{
    phys + hhdm_offset
}

/// Where to find the table that XSDT entry `entry_phys` points to: `None` for
/// an empty entry, which is skipped, otherwise its direct-map address.
pub fn table_address(entry_phys: u64, hhdm_offset: u64) -> (a: Option<u64>)
    requires
        entry_phys != 0 ==> entry_phys + hhdm_offset <= u64::MAX,
    ensures
        entry_phys == 0 ==> a is None,
        entry_phys != 0 ==> a == Some((entry_phys + hhdm_offset) as u64),
{
    if entry_phys == 0 {
        None
    } else {
        Some(phys_to_virt(entry_phys, hhdm_offset))
    }
}

/// The serial report on the XSDT: its address, its length and the number of
/// table pointers it holds.
pub open spec fn xsdt_report_text(xsdt_addr: u64, length: usize) -> Seq<u8> {
    "xsdt_addr: ".spec_bytes() + decimal_digits(xsdt_addr as nat) + "\n".spec_bytes()
        + "rsdt_length: ".spec_bytes() + decimal_digits(length as nat) + "\n".spec_bytes()
        + "num entries: ".spec_bytes() + decimal_digits(((length - 36) / 8) as nat)
        + "\n".spec_bytes()
}

/// The serial line naming one table: its four signature bytes and address.
pub open spec fn table_report_text(signature: Seq<u8>, addr: u64) -> Seq<u8> {
    "table: ".spec_bytes() + signature + " at ".spec_bytes() + decimal_digits(addr as nat) + "\n".spec_bytes()
}

fn emit(out: &mut Vec<u8>, piece: Vec<u8>)
    ensures
        final(out)@ == old(out)@ + piece@,
{
    let mut piece = piece;
    out.append(&mut piece);
}

/// What the ACPI scan reports about the XSDT at `xsdt_addr` of `length` bytes.
pub fn xsdt_report(xsdt_addr: u64, length: usize) -> (out: Vec<u8>)
    requires
        length >= SDT_HEADER_SIZE,
    ensures
        out@ == xsdt_report_text(xsdt_addr, length),
{
    let mut out: Vec<u8> = Vec::new();
    emit(&mut out, serial_print("xsdt_addr: "));
    emit(&mut out, serial_print_u64(xsdt_addr));
    emit(&mut out, serial_print("\n"));
    emit(&mut out, serial_print("rsdt_length: "));
    emit(&mut out, serial_print_num(length));
    emit(&mut out, serial_print("\n"));
    let num_entries = xsdt_entry_count(length);
    emit(&mut out, serial_print("num entries: "));
    emit(&mut out, serial_print_num(num_entries));
    emit(&mut out, serial_print("\n"));
    assert(out@ =~= xsdt_report_text(xsdt_addr, length));
    out
}

/// What the ACPI scan reports about the table with `signature` at `addr`.
pub fn table_report(signature: [u8; 4], addr: u64) -> (out: Vec<u8>)
    ensures
        out@ == table_report_text(signature@, addr),
{
    let mut out: Vec<u8> = Vec::new();
    emit(&mut out, serial_print("table: "));
    let mut j: usize = 0;
    let ghost head = out@;
    while j < 4
        invariant
            j <= 4,
            out@ == head + signature@.subrange(0, j as int),
        decreases 4 - j,
    {
        out.push(signature[j]);
        j = j + 1;
        assert(out@ =~= head + signature@.subrange(0, j as int));
    }
    assert(signature@.subrange(0, 4) =~= signature@);
    emit(&mut out, serial_print(" at "));
    emit(&mut out, serial_print_u64(addr));
    emit(&mut out, serial_print("\n"));
    assert(out@ =~= table_report_text(signature@, addr));
    out
}

/// A table report names the table's full address: after `"table: "`, the four
/// signature bytes and `" at "` come ASCII digits that read back as exactly
/// `addr`, and a newline ends the line.
pub proof fn lemma_table_report_names_address(signature: Seq<u8>, addr: u64)
    ensures
        exists|d: Seq<u8>|
            all_digits(d) && decimal_value(d) == addr && table_report_text(signature, addr) == "table: ".spec_bytes() + signature
                + " at ".spec_bytes() + d + "\n".spec_bytes(),
{
    let d = decimal_digits(addr as nat);
    lemma_decimal_roundtrip(addr as nat);
    assert(all_digits(d) && decimal_value(d) == addr && table_report_text(signature, addr) == "table: ".spec_bytes() + signature
        + " at ".spec_bytes() + d + "\n".spec_bytes());
}

/// The XSDT report names the table's full address: its first line is
/// `"xsdt_addr: "` followed by ASCII digits that read back as exactly
/// `xsdt_addr`.
pub proof fn lemma_xsdt_report_names_address(xsdt_addr: u64, length: usize)
    ensures
        exists|d: Seq<u8>, rest: Seq<u8>|
            all_digits(d) && decimal_value(d) == xsdt_addr && xsdt_report_text(xsdt_addr, length)
                == "xsdt_addr: ".spec_bytes() + d + "\n".spec_bytes() + rest,
{
    let d = decimal_digits(xsdt_addr as nat);
    lemma_decimal_roundtrip(xsdt_addr as nat);
    let rest = "rsdt_length: ".spec_bytes() + decimal_digits(length as nat) + "\n".spec_bytes()
        + "num entries: ".spec_bytes() + decimal_digits(((length - 36) / 8) as nat)
        + "\n".spec_bytes();
    assert(xsdt_report_text(xsdt_addr, length) =~= "xsdt_addr: ".spec_bytes() + d
        + "\n".spec_bytes() + rest);
}

} // verus!
