use mios::acpi::{phys_to_virt, table_address, table_report, xsdt_entry_count, xsdt_report};
use mios::idt::{IdtEntry, INTERRUPT_GATE, KERNEL_CODE_SELECTOR};
use mios::keyboard::{handle_scancode, translate, KeyAction, InterruptFrame};
use mios::pic::{eoi, init, io_wait};
use mios::serial_io::{serial_init, serial_print, serial_print_num};
use mios::typer::Spinlock;

#[test]
fn serial_print_sends_the_utf8_bytes() {
    assert_eq!(serial_print("hi\n"), vec![b'h', b'i', b'\n']);
    assert_eq!(serial_print("é"), vec![0xC3, 0xA9]);
    assert!(serial_print("").is_empty());
}

#[test]
fn serial_print_num_sends_decimal_digits() {
    assert_eq!(serial_print_num(0), b"0".to_vec());
    assert_eq!(serial_print_num(7), b"7".to_vec());
    assert_eq!(serial_print_num(10), b"10".to_vec());
    assert_eq!(serial_print_num(12345), b"12345".to_vec());
    assert_eq!(serial_print_num(usize::MAX), usize::MAX.to_string().into_bytes());
}

#[test]
fn decimal_digits_read_back() {
    for n in [0usize, 1, 9, 10, 99, 100, 4096, 1 << 40, usize::MAX] {
        let s = String::from_utf8(serial_print_num(n)).unwrap();
        assert_eq!(s.parse::<usize>().unwrap(), n);
    }
}

#[test]
fn serial_line_setup() {
    assert_eq!(
        serial_init(),
        vec![(0x3F9, 0), (0x3FB, 0x80), (0x3F8, 3), (0x3F9, 0), (0x3FB, 0x03), (0x3FA, 0xC7)]
    );
}

#[test]
fn gate_splits_the_handler_address() {
    let e = IdtEntry::new(0x1234_5678_9ABC_DEF0, KERNEL_CODE_SELECTOR, INTERRUPT_GATE);
    assert_eq!(e.offset_low, 0xDEF0);
    assert_eq!(e.offset_mid, 0x9ABC);
    assert_eq!(e.offset_high, 0x1234_5678);
    assert_eq!(e.selector, 40);
    assert_eq!(e.flags, 0x8E);
    assert_eq!((e.ist, e.zero), (0, 0));
    let back = e.offset_low as u64 | (e.offset_mid as u64) << 16 | (e.offset_high as u64) << 32;
    assert_eq!(back, 0x1234_5678_9ABC_DEF0);
}

#[test]
fn pic_programming_sequence() {
    let w = init(0xAB, 0xCD);
    assert_eq!(
        w,
        vec![
            (0x20, 0x11), (0x80, 0), (0xA0, 0x11), (0x80, 0),
            (0x21, 0x20), (0x80, 0), (0xA1, 0x28), (0x80, 0),
            (0x21, 0x04), (0x80, 0), (0xA1, 0x02), (0x80, 0),
            (0x21, 0x01), (0x80, 0), (0xA1, 0x01), (0x80, 0),
            (0x21, 0xAB), (0xA1, 0xCD), (0x21, 0xFD), (0xA1, 0xFF),
        ]
    );
}

#[test]
fn pic_leaves_only_the_keyboard_unmasked() {
    let w = init(0, 0);
    let last1 = w.iter().rev().find(|x| x.0 == 0x21).unwrap();
    let last2 = w.iter().rev().find(|x| x.0 == 0xA1).unwrap();
    assert_eq!(last1.1, 0xFD);
    assert_eq!(last2.1, 0xFF);
}

#[test]
fn eoi_and_settling_writes() {
    assert_eq!(eoi(), (0x20, 0x20));
    assert_eq!(io_wait(), (0x80, 0));
}

#[test]
fn keys_map_through_the_layouts() {
    assert_eq!(translate(false, 0x1E), b'a');
    assert_eq!(translate(true, 0x1E), b'A');
    assert_eq!(translate(false, 2), b'1');
    assert_eq!(translate(true, 3), b'"');
    assert_eq!(translate(true, 41), b'~');
    assert_eq!(translate(false, 57), b' ');
    assert_eq!(translate(false, 29), 0);
}

#[test]
fn key_presses_print_characters() {
    assert_eq!(handle_scancode(false, 0x1E), (false, KeyAction::Print(b'a')));
    assert_eq!(handle_scancode(true, 0x1E), (true, KeyAction::Print(b'A')));
    assert_eq!(handle_scancode(false, 28), (false, KeyAction::Print(b'\n')));
}

#[test]
fn shift_press_and_release() {
    assert_eq!(handle_scancode(false, 42), (true, KeyAction::Nothing));
    assert_eq!(handle_scancode(false, 54), (true, KeyAction::Nothing));
    assert_eq!(handle_scancode(true, 42 | 0x80), (false, KeyAction::Nothing));
    assert_eq!(handle_scancode(true, 54 | 0x80), (false, KeyAction::Nothing));
    // releasing another key keeps the shift state
    assert_eq!(handle_scancode(true, 0x1E | 0x80), (true, KeyAction::Nothing));
}

#[test]
fn backspace_and_silent_keys() {
    assert_eq!(handle_scancode(true, 14), (true, KeyAction::Backspace));
    assert_eq!(handle_scancode(false, 29), (false, KeyAction::Nothing));
    assert_eq!(handle_scancode(false, 58), (false, KeyAction::Nothing));
    assert_eq!(handle_scancode(false, 0x7F), (false, KeyAction::Nothing));
}

#[test]
fn every_printed_key_is_ascii() {
    for shift in [false, true] {
        for code in 0..=255u8 {
            if let (_, KeyAction::Print(c)) = handle_scancode(shift, code) {
                assert!(c < 128);
            }
        }
    }
}

#[test]
fn interrupt_frame_holds_the_pushed_registers() {
    let f = InterruptFrame { ip: 1, cs: 2, flags: 3, sp: 4, ss: 5 };
    assert_eq!(f.ip + f.cs + f.flags + f.sp + f.ss, 15);
}

#[test]
fn spinlock_is_held_until_unlocked() {
    let l = Spinlock::new();
    assert!(l.try_lock());
    assert!(!l.try_lock());
    l.unlock();
    assert!(l.try_lock());
}

#[test]
fn xsdt_arithmetic() {
    assert_eq!(xsdt_entry_count(36), 0);
    assert_eq!(xsdt_entry_count(36 + 8 * 5), 5);
    assert_eq!(xsdt_entry_count(36 + 8 * 5 + 7), 5);
    assert_eq!(phys_to_virt(0x1000, 0xffff_8000_0000_0000), 0xffff_8000_0000_1000);
    assert_eq!(table_address(0, 0xffff_8000_0000_0000), None);
    assert_eq!(table_address(0x2000, 0x10), Some(0x2010));
}

#[test]
fn acpi_reports() {
    assert_eq!(
        String::from_utf8(xsdt_report(4096, 52)).unwrap(),
        "xsdt_addr: 4096\nrsdt_length: 52\nnum entries: 2\n"
    );
    assert_eq!(String::from_utf8(table_report(*b"APIC", 77)).unwrap(), "table: APIC at 77\n");
}
