use emulator_core::signals::ControlSignals;

#[test]
fn get_test() {
    let sig = ControlSignals::init();

    for i in 0..64 {
        println!("{}", sig.get(i));
    }
}

#[test]
fn get_range_test() {
    let sig = ControlSignals::init();

    println!("Ref: {:064b}", sig.bits());

    for i in 0..60 {
        println!("{:064b}", sig.get_range_inc(i, i + 4));
    }
}

#[test]
fn mask_test() {
    println!("{:064b}", ControlSignals::NOW_MASK);
    println!("{:064b}", ControlSignals::CLK_MASK);
    println!("{:064b}", ControlSignals::INVCLK_MASK);
}

#[test]
fn init_word_is_the_documented_power_on_state() {
    let sig = ControlSignals::init();
    assert_eq!(sig.bits(), 0x104738f1e0000000u64);
    // a handful of lines read back at their initial levels
    assert_eq!(sig.get(3), 1);
    assert_eq!(sig.get(0), 0);
    assert_eq!(sig.get(34), 1);
    assert_eq!(sig.get(35), 0);
}

#[test]
fn set_raises_lines_and_never_clears() {
    let mut sig = ControlSignals::from_bits(0);
    sig.set(5, 1);
    assert_eq!(sig.get(5), 1);
    assert_eq!(sig.bits(), 1u64 << 58);
    // writing a zero leaves the line as it is
    sig.set(5, 0);
    assert_eq!(sig.get(5), 1);
    sig.set(63, 1);
    assert_eq!(sig.get(63), 1);
    assert_eq!(sig.bits(), (1u64 << 58) | 1);
}

#[test]
fn get_range_extracts_aligned_fields() {
    let sig = ControlSignals::from_bits(0b1011u64 << 52);
    // lines 8..=11 hold 0b1011, ending at bit 0 of the result
    assert_eq!(sig.get_range_inc(8, 11), 0b1011);
    assert_eq!(sig.get_range_inc(8, 8), 0b1);
    assert_eq!(sig.get_range_inc(9, 11), 0b011);
}

#[test]
fn filter_masks_lines() {
    let sig = ControlSignals::from_bits(0xff00ff0000000000);
    assert_eq!(sig.filter(0x0f0f000000000000).bits(), 0x0f00000000000000);
    assert_eq!(sig.filter(0).bits(), 0);
    assert_eq!(sig.filter(!0).bits(), 0xff00ff0000000000);
}

#[test]
fn masks_partition_the_pulse_classes() {
    // no line is on two clock phases at once
    assert_eq!(ControlSignals::NOW_MASK & ControlSignals::CLK_MASK, 0);
    assert_eq!(ControlSignals::NOW_MASK & ControlSignals::INVCLK_MASK, 0);
    assert_eq!(ControlSignals::CLK_MASK & ControlSignals::INVCLK_MASK, 0);
}
