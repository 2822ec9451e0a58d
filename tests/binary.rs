use nperf_collate::binary::{check_identity, BinaryData, LoadError};
use nperf_collate::symbols::{Bitness, Endianness, Symbols};
use nperf_collate::BinaryId;

fn put16(b: &mut [u8], at: usize, v: u16) { b[at..at + 2].copy_from_slice(&v.to_le_bytes()); }
fn put32(b: &mut [u8], at: usize, v: u32) { b[at..at + 4].copy_from_slice(&v.to_le_bytes()); }
fn put64(b: &mut [u8], at: usize, v: u64) { b[at..at + 8].copy_from_slice(&v.to_le_bytes()); }

fn section(b: &mut [u8], index: usize, name: u32, ty: u32, offset: u64, size: u64, link: u32, entsize: u64) {
    let at = 176 + index * 64;
    put32(b, at, name);
    put32(b, at + 4, ty);
    put64(b, at + 24, offset);
    put64(b, at + 32, size);
    put32(b, at + 40, link);
    put64(b, at + 56, entsize);
}

/// A small 64-bit little-endian shared object for x86-64: one load segment,
/// `.text`, a section name table, and a symbol table naming `func`.
fn tiny_elf(e_type: u16, machine: u16) -> Vec<u8> {
    let mut b = vec![0u8; 544];
    b[0..4].copy_from_slice(b"\x7fELF");
    b[4] = 2;
    b[5] = 1;
    b[6] = 1;
    put16(&mut b, 16, e_type);
    put16(&mut b, 18, machine);
    put32(&mut b, 20, 1);
    put64(&mut b, 32, 64);
    put64(&mut b, 40, 176);
    put16(&mut b, 52, 64);
    put16(&mut b, 54, 56);
    put16(&mut b, 56, 1);
    put16(&mut b, 58, 64);
    put16(&mut b, 60, 5);
    put16(&mut b, 62, 2);
    // PT_LOAD, readable and executable
    put32(&mut b, 64, 1);
    put32(&mut b, 68, 5);
    put64(&mut b, 72, 0);
    put64(&mut b, 80, 0);
    put64(&mut b, 96, 544);
    put64(&mut b, 104, 544);
    put64(&mut b, 112, 0x1000);
    for i in 120..136 {
        b[i] = 0x90;
    }
    let names = b"\0.text\0.shstrtab\0.strtab\0.symtab\0";
    b[136..169].copy_from_slice(names);
    b[169..175].copy_from_slice(b"\0func\0");
    section(&mut b, 1, 1, 1, 120, 16, 0, 0);
    section(&mut b, 2, 7, 3, 136, 33, 0, 0);
    section(&mut b, 3, 17, 3, 169, 6, 0, 0);
    section(&mut b, 4, 25, 2, 496, 48, 3, 24);
    // symbol 1: func, global function at 0x78, 16 bytes
    put32(&mut b, 520, 1);
    b[524] = 0x12;
    put16(&mut b, 526, 1);
    put64(&mut b, 528, 0x78);
    put64(&mut b, 536, 16);
    b
}

fn id() -> BinaryId {
    BinaryId { inode: 7, dev_major: 8, dev_minor: 1 }
}

#[test]
fn binary_loads_headers_and_sections() {
    let data = BinaryData::load_from_owned_bytes("libtiny.so", id(), tiny_elf(3, 62)).unwrap();
    assert_eq!(data.name(), "libtiny.so");
    assert_eq!(*data.id(), id());
    assert_eq!(data.architecture(), "amd64");
    assert_eq!(data.bitness(), Bitness::B64);
    assert_eq!(data.endianness(), Endianness::LittleEndian);
    assert!(data.is_shared_object());
    assert_eq!(data.as_bytes().len(), 544);
    assert_eq!(data.text_range(), Some(120..136));
    assert_eq!(data.data_range(), None);
    assert_eq!(data.eh_frame_range(), None);
    assert_eq!(data.debug_frame_range(), None);
    assert_eq!(data.gnu_debuglink_range(), None);
    assert_eq!(data.arm_extab_range(), None);
    assert_eq!(data.arm_exidx_range(), None);
    let tables = data.symbol_tables();
    assert_eq!(tables.len(), 1);
    assert_eq!(tables[0].range, 496..544);
    assert_eq!(tables[0].strtab_range, 169..175);
    assert!(!tables[0].is_dynamic);
    let loads = data.load_headers();
    assert_eq!(loads.len(), 1);
    assert_eq!(loads[0].memory_size, 544);
    assert_eq!(loads[0].alignment, 0x1000);
    assert!(loads[0].is_readable && loads[0].is_executable && !loads[0].is_writable);
}

#[test]
fn binary_symbols_from_loaded_data() {
    let data = BinaryData::load_from_owned_bytes("libtiny.so", id(), tiny_elf(3, 62)).unwrap();
    let symbols = Symbols::load_from_binary_data(&data);
    assert_eq!(symbols.len(), 1);
    let i = symbols.get_symbol_index(0x80).unwrap();
    assert_eq!(symbols.get_symbol_by_index(i).unwrap().name, b"func".to_vec());
    assert!(symbols.get_symbol_index(0x88).is_none());
}

#[test]
fn binary_executable_is_not_shared() {
    let data = BinaryData::load_from_owned_bytes("tiny", id(), tiny_elf(2, 40)).unwrap();
    assert!(!data.is_shared_object());
    assert_eq!(data.architecture(), "arm");
}

#[test]
fn binary_mips64_and_x86_machines() {
    let data = BinaryData::load_from_owned_bytes("tiny", id(), tiny_elf(2, 8)).unwrap();
    assert_eq!(data.architecture(), "mips64");
    let data = BinaryData::load_from_owned_bytes("tiny", id(), tiny_elf(2, 3)).unwrap();
    assert_eq!(data.architecture(), "x86");
}

#[test]
fn binary_relocatable_object_is_refused() {
    let r = BinaryData::load_from_owned_bytes("tiny.o", id(), tiny_elf(1, 62));
    assert_eq!(r.err(), Some(LoadError::UnsupportedElfType(1)));
}

#[test]
fn binary_unknown_machine_is_refused() {
    let r = BinaryData::load_from_owned_bytes("tiny", id(), tiny_elf(3, 183));
    assert_eq!(r.err(), Some(LoadError::UnsupportedArchitecture(183)));
}

#[test]
fn binary_garbage_is_malformed() {
    let r = BinaryData::load_from_owned_bytes("junk", id(), vec![1, 2, 3, 4]);
    assert_eq!(r.err(), Some(LoadError::Malformed));
}

#[test]
fn binary_from_static_slice() {
    let bytes: &'static [u8] = Box::leak(tiny_elf(3, 62).into_boxed_slice());
    let data = BinaryData::load_from_static_slice("libtiny.so", id(), bytes).unwrap();
    assert_eq!(data.text_range(), Some(120..136));
}

#[test]
fn binary_identity_check() {
    assert_eq!(check_identity(None, id()), Ok(()));
    assert_eq!(check_identity(Some(id()), id()), Ok(()));
    let other = BinaryId { inode: 8, dev_major: 8, dev_minor: 1 };
    assert_eq!(check_identity(Some(other), id()), Err(LoadError::IdentityMismatch));
}

#[test]
fn binary_missing_section_name_table_is_refused() {
    let mut bytes = tiny_elf(3, 62);
    put16(&mut bytes, 62, 9);
    let r = BinaryData::load_from_owned_bytes("tiny", id(), bytes);
    assert_eq!(r.err(), Some(LoadError::MissingSectionNames));
}
