use nperf_collate::symbols::{Bitness, Endianness, Symbols};

fn entry64(name: u32, info: u8, value: u64, size: u64) -> Vec<u8> {
    let mut e = Vec::new();
    e.extend_from_slice(&name.to_le_bytes());
    e.push(info);
    e.push(0);
    e.extend_from_slice(&1u16.to_le_bytes());
    e.extend_from_slice(&value.to_le_bytes());
    e.extend_from_slice(&size.to_le_bytes());
    e
}

fn entry32_be(name: u32, info: u8, value: u32, size: u32) -> Vec<u8> {
    let mut e = Vec::new();
    e.extend_from_slice(&name.to_be_bytes());
    e.extend_from_slice(&value.to_be_bytes());
    e.extend_from_slice(&size.to_be_bytes());
    e.push(info);
    e.push(0);
    e.extend_from_slice(&1u16.to_be_bytes());
    e
}

const STRTAB: &[u8] = b"\0outer\0inner\0data_object\0untyped\0section\0dyn_inner\0";

fn sample_table() -> Vec<u8> {
    let mut t = Vec::new();
    t.extend(entry64(0, 0, 0, 0)); // null entry
    t.extend(entry64(1, 0x12, 0x1000, 0x100)); // outer: global function
    t.extend(entry64(7, 0x02, 0x1040, 0x10)); // inner: local function
    t.extend(entry64(13, 0x11, 0x2000, 0x8)); // data_object: object with a size
    t.extend(entry64(25, 0x10, 0x3000, 0x10)); // untyped: no type
    t.extend(entry64(33, 0x03, 0x4000, 0x10)); // section
    t
}

#[test]
fn symbols_accept_functions_and_sized_objects() {
    let mut s = Symbols::new();
    s.add_table(&sample_table(), STRTAB, false, Bitness::B64, Endianness::LittleEndian, &None);
    assert_eq!(s.len(), 3);
    let names: Vec<Vec<u8>> = (0..3).map(|i| s.get_symbol_by_index(i).unwrap().name.clone()).collect();
    assert_eq!(names, vec![b"outer".to_vec(), b"inner".to_vec(), b"data_object".to_vec()]);
    assert!(s.get_symbol_index(0x3000).is_none());
    assert!(s.get_symbol_index(0x4000).is_none());
}

#[test]
fn symbols_lookup_prefers_the_innermost_entry() {
    let mut s = Symbols::new();
    s.add_table(&sample_table(), STRTAB, false, Bitness::B64, Endianness::LittleEndian, &None);
    let outer = s.get_symbol_index(0x1000).unwrap();
    assert_eq!(s.get_symbol_by_index(outer).unwrap().name, b"outer".to_vec());
    let inner = s.get_symbol_index(0x1048).unwrap();
    assert_eq!(s.get_symbol_by_index(inner).unwrap().name, b"inner".to_vec());
    let after = s.get_symbol_index(0x1050).unwrap();
    assert_eq!(s.get_symbol_by_index(after).unwrap().name, b"outer".to_vec());
    assert!(s.get_symbol_index(0x1100).is_none());
    assert!(s.get_symbol_index(0xfff).is_none());
}

#[test]
fn symbols_tie_prefers_static_over_dynamic() {
    let mut s = Symbols::new();
    let mut dynamic = Vec::new();
    dynamic.extend(entry64(41, 0x12, 0x1040, 0x10));
    s.add_table(&dynamic, STRTAB, true, Bitness::B64, Endianness::LittleEndian, &None);
    s.add_table(&sample_table(), STRTAB, false, Bitness::B64, Endianness::LittleEndian, &None);
    let i = s.get_symbol_index(0x1044).unwrap();
    let sym = s.get_symbol_by_index(i).unwrap();
    assert_eq!(sym.name, b"inner".to_vec());
    assert!(!sym.is_dynamic);
}

#[test]
fn symbols_outside_load_segments_are_dropped() {
    let mut s = Symbols::new();
    let segments = Some(vec![(0x1000u64, 0x1100u64)]);
    s.add_table(&sample_table(), STRTAB, false, Bitness::B64, Endianness::LittleEndian, &segments);
    assert_eq!(s.len(), 2);
    assert!(s.get_symbol_index(0x2000).is_none());
}

#[test]
fn symbols_decode_big_endian_32_bit_entries() {
    let mut t = Vec::new();
    t.extend(entry32_be(1, 0x12, 0x8000, 0x20));
    let mut s = Symbols::new();
    s.add_table(&t, STRTAB, false, Bitness::B32, Endianness::BigEndian, &None);
    assert_eq!(s.len(), 1);
    let sym = s.get_symbol_by_index(0).unwrap();
    assert_eq!(sym.address, 0x8000);
    assert_eq!(sym.size, 0x20);
    assert_eq!(s.get_symbol_index(0x801f), Some(0));
    assert_eq!(s.get_symbol_index(0x8020), None);
}

#[test]
fn symbols_name_outside_string_table_is_dropped() {
    let mut t = Vec::new();
    t.extend(entry64(1000, 0x12, 0x1000, 0x10));
    let mut s = Symbols::new();
    s.add_table(&t, STRTAB, false, Bitness::B64, Endianness::LittleEndian, &None);
    assert_eq!(s.len(), 0);
}
