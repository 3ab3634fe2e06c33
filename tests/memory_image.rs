use l3vm::decode::{address_to_index, index_to_address, offset_pc, MAX_CELLS};
use l3vm::image::parse_word;
use l3vm::Memory;

#[test]
fn address_round_trip() {
    for i in [0usize, 1, 7, 1000, MAX_CELLS] {
        let a = index_to_address(i);
        assert_eq!(a as i64, 4 * i as i64);
        assert_eq!(address_to_index(a), Some(i));
    }
    for a in [0i32, 4, 40, 0x7FFF_FFFC] {
        assert_eq!(index_to_address(address_to_index(a).unwrap()), a);
    }
}

#[test]
fn misaligned_or_negative_address_is_rejected() {
    assert_eq!(address_to_index(6), None);
    assert_eq!(address_to_index(-4), None);
    assert_eq!(address_to_index(1), None);
}

#[test]
fn pc_offsets() {
    assert_eq!(offset_pc(10, -3), Some(7));
    assert_eq!(offset_pc(10, 5), Some(15));
    assert_eq!(offset_pc(2, -3), None);
}

#[test]
fn allocation_records_tag_and_size() {
    let mut m = Memory::new(20);
    m.set_heap_start(3);
    assert_eq!(m.allocate(5, 3), Some(5));
    assert_eq!(m.block_tag(5), Some(5));
    assert_eq!(m.block_size(5), Some(3));
    assert_eq!(m.allocate(201, 4), Some(10));
    assert_eq!(m.block_tag(10), Some(201));
    assert_eq!(m.block_size(10), Some(4));
    assert_eq!(m.allocate(1, 5), None);
    assert_eq!(m.allocate(1, 4), Some(16));
    assert_eq!(m.allocate(1, 0), None);
}

#[test]
fn allocation_of_negative_size_fails() {
    let mut m = Memory::new(20);
    assert_eq!(m.allocate(1, -1), None);
    assert_eq!(m.allocate(1, 0), Some(2));
}

#[test]
fn block_inspectors_outside_memory() {
    let m = Memory::new(4);
    assert_eq!(m.block_size(0), None);
    assert_eq!(m.block_size(5), None);
    assert_eq!(m.block_tag(1), None);
    assert_eq!(m.block_tag(5), Some(0));
    assert_eq!(m.block_tag(6), None);
}

#[test]
fn image_loading() {
    let mut m = Memory::new(4);
    assert!(!m.load_image(&vec![1, 2, 3, 4, 5]));
    assert_eq!(m.load(0), 0);
    assert!(m.load_image(&vec![7, 8]));
    assert_eq!((m.load(0), m.load(1), m.load(2)), (7, 8, 0));
    assert_eq!(m.allocate(9, 0), Some(4));
    assert_eq!(m.len(), 4);
}

#[test]
fn word_parsing() {
    assert_eq!(parse_word(b"4C00002A"), Some(0x4C00_002A));
    assert_eq!(parse_word(b"deadbeef ; comment"), Some(0xDEAD_BEEFu32 as i32));
    assert_eq!(parse_word(b"FFFFFFFF"), Some(-1));
    assert_eq!(parse_word(b"0000001"), None);
    assert_eq!(parse_word(b"0000001G"), None);
    assert_eq!(parse_word(b""), None);
}
