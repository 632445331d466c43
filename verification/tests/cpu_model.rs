use emulator_core::cpu::{microcode, Alu, Bus, Buses, ControlUnit, Memory};
use emulator_core::signals::ControlSignals;

// line `i` of a signal word sits at bit `63 - i`
fn word(high_lines: &[usize]) -> ControlSignals {
    let mut bits = 0u64;
    for &i in high_lines {
        bits |= 1u64 << (63 - i);
    }
    ControlSignals::from_bits(bits)
}

#[test]
fn bus_holds_one_value() {
    let mut buses = Buses::init();
    buses.main.put(42);
    assert_eq!(buses.main.get(), 42);
    buses.address.put(0x1234);
    assert_eq!(buses.address.get(), 0x1234);
    let b: Bus<u8> = Bus::init();
    let _ = b;
}

#[test]
fn alu_drives_selected_operation() {
    // op bits live on lines 4..=7; line 3 low enables the output
    let cases: [(u64, u8); 10] = [
        (0, 0),
        (1, 5),
        (2, 3),
        (3, 8),            // 5 + 3
        (6, 2),            // 5 - 3
        (7, 254),          // 3 - 5, wrapped
        (8, !5u8),
        (10, 5 | 3),
        (11, 5 & 3),
        (12, 10),          // 5 << 1
    ];
    for (op, expect) in cases {
        let mut alu = Alu::init();
        // preload the registers through the load lines
        let mut buses = Buses::init();
        buses.main.put(5);
        alu.react(&word(&[3, 0]), &mut buses); // line 0 high: latch A
        let mut buses = Buses::init();
        buses.main.put(3);
        alu.react(&word(&[3, 1]), &mut buses); // line 1 high: latch B
        assert_eq!(alu.debug_regs(), (5, 3));

        let mut high = vec![];
        for bit in 0..4 {
            if (op >> (3 - bit)) & 1 == 1 {
                high.push(4 + bit as usize);
            }
        }
        let mut buses = Buses::init();
        alu.react(&word(&high), &mut buses); // line 3 low: drive result
        assert_eq!(buses.main.get(), expect, "op {}", op);
    }
}

#[test]
fn alu_subtract_wraps() {
    let mut alu = Alu::init();
    let mut buses = Buses::init();
    // op 4 negates register a; with a = 0 the result is 0
    alu.react(&word(&[5]), &mut buses);
    assert_eq!(buses.main.get(), 0);
}

#[test]
fn memory_latches_address_and_drives_data() {
    let mut mem = Memory::init(vec![7, 9, 11]);
    let mut buses = Buses::init();
    buses.address.put(1);
    // line 15 high latches the address register; line 19 low drives
    mem.react(&word(&[15]), &mut buses);
    assert_eq!(buses.main.get(), 9);
}

#[test]
fn memory_fetch_without_reload() {
    let mut mem = Memory::init(vec![7, 9, 11]);
    let mut buses = Buses::init();
    buses.address.put(2);
    mem.react(&word(&[15]), &mut buses);
    assert_eq!(buses.main.get(), 11);
    // fetch again without touching the address register
    let mut buses = Buses::init();
    mem.react(&word(&[]), &mut buses);
    assert_eq!(buses.main.get(), 11);
}

#[test]
fn microcode_table_entries() {
    assert_eq!(
        microcode(0, 0),
        Some(0b00010000_01000111_00111000_11110001_11000000u64 << 24)
    );
    assert!(microcode(0, 1).is_some());
    assert!(microcode(1, 2).is_some());
    assert_eq!(microcode(0, 2), None);
    assert_eq!(microcode(2, 0), None);
}

#[test]
fn control_unit_steps_and_drives_pc() {
    let mut cu = ControlUnit::init();
    let first = cu.set_signals().unwrap();
    assert_eq!(first.bits(), microcode(0, 0).unwrap());

    // lines 9, 10 and 31 are active low: raise them to do nothing;
    // line 8 steps the program counter, line 32 steps the microstep
    let mut buses = Buses::init();
    cu.react(&word(&[8, 9, 10, 31, 32]), &mut buses);
    let second = cu.set_signals().unwrap();
    assert_eq!(second.bits(), microcode(0, 1).unwrap());

    // with line 10 low the stepped program counter lands on the
    // address bus
    let mut buses = Buses::init();
    cu.react(&word(&[9, 31]), &mut buses);
    assert_eq!(buses.address.get(), 1);
}
