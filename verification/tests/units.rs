use kernel_core::units::{
    align_down, align_down_div, align_up, align_up_div, to_kibibytes, to_mibibytes, IndexRing,
    LinkerSymbol, GIBIBYTE, KIBIBYTE, MIBIBYTE, PT_L4_ENTRY_MEM,
};

#[test]
fn units_are_powers_of_1024() {
    assert_eq!(KIBIBYTE, 1024);
    assert_eq!(MIBIBYTE, 1024 * 1024);
    assert_eq!(GIBIBYTE, MIBIBYTE * MIBIBYTE);
    assert_eq!(PT_L4_ENTRY_MEM, 1u64 << 39);
    assert_eq!(to_kibibytes(4096), 4);
    assert_eq!(to_kibibytes(1023), 0);
    assert_eq!(to_mibibytes(16 * 1024 * 1024 + 5), 16);
}

#[test]
fn align_up_rounds_to_the_next_multiple() {
    assert_eq!(align_up(0, 0x1000), 0);
    assert_eq!(align_up(1, 0x1000), 0x1000);
    assert_eq!(align_up(0x1000, 0x1000), 0x1000);
    assert_eq!(align_up(0x1001, 0x1000), 0x2000);
    assert_eq!(align_up(13, 1), 13);
    assert_eq!(align_up(13, 8), 16);
}

#[test]
fn align_down_rounds_to_the_last_multiple() {
    assert_eq!(align_down(0, 0x1000), 0);
    assert_eq!(align_down(0xFFF, 0x1000), 0);
    assert_eq!(align_down(0x1000, 0x1000), 0x1000);
    assert_eq!(align_down(0x1FFF, 0x1000), 0x1000);
    assert_eq!(align_down(13, 8), 8);
    assert_eq!(align_down(usize::MAX, 2), usize::MAX - 1);
}

#[test]
fn divisions_count_blocks() {
    assert_eq!(align_up_div(0, 0x1000), 0);
    assert_eq!(align_up_div(1, 0x1000), 1);
    assert_eq!(align_up_div(0x1000, 0x1000), 1);
    assert_eq!(align_up_div(0x1001, 0x1000), 2);
    assert_eq!(align_up_div(10, 3), 4);
    assert_eq!(align_down_div(0xFFF, 0x1000), 0);
    assert_eq!(align_down_div(0x3FFF, 0x1000), 3);
    assert_eq!(align_down_div(0x4000, 0x1000), 4);
}

#[test]
fn the_ring_starts_over_behind_its_last_index() {
    let mut ring = IndexRing::new(3);
    assert_eq!(ring.index(), 0);
    assert_eq!(ring.next_index(), 1);
    ring.increment();
    ring.increment();
    assert_eq!(ring.index(), 2);
    assert_eq!(ring.next_index(), 0);
    ring.increment();
    assert_eq!(ring.index(), 0);
    let mut single = IndexRing::new(1);
    single.increment();
    assert_eq!(single.index(), 0);
}

#[test]
fn a_symbol_is_its_address() {
    let symbol = LinkerSymbol { address: 0x20_1234 };
    assert_eq!(symbol.as_usize(), 0x20_1234);
    assert_eq!(symbol.as_u64(), 0x20_1234);
}
