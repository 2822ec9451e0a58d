use nperf_collate::collate::{get_basename, CollateError, CollateOptions, Collator, Packet, RawSampleStep};
use nperf_collate::filter::OmitFilter;
use nperf_collate::frame::{AddressSpaceSymbol, Frame, Region, Table, UserFrame};
use nperf_collate::output::Decoder;
use nperf_collate::symbols::{Bitness, Endianness, Symbols};
use nperf_collate::BinaryId;

const PID: u32 = 100;
const BASE: u64 = 0x400000;

fn app_id() -> BinaryId {
    BinaryId { inode: 11, dev_major: 8, dev_minor: 1 }
}

fn entry64(name: u32, info: u8, value: u64, size: u64) -> Vec<u8> {
    let mut e = Vec::new();
    e.extend_from_slice(&name.to_le_bytes());
    e.push(info);
    e.push(0);
    e.extend_from_slice(&1u16.to_le_bytes());
    e.extend_from_slice(&value.to_le_bytes());
    e.extend_from_slice(&size.to_le_bytes());
    e
}

const STRTAB: &[u8] = b"\0main\0helper\0_ZN5space3fooEibc\0";

fn symtab() -> Vec<u8> {
    let mut t = Vec::new();
    t.extend(entry64(1, 0x12, 0x1000, 0x100)); // main
    t.extend(entry64(6, 0x12, 0x1100, 0x50)); // helper
    t.extend(entry64(13, 0x12, 0x1200, 0x40)); // space::foo
    t
}

fn options() -> CollateOptions {
    CollateOptions { force_stack_size: None, only_sample: None, without_kernel_callstacks: false, all_processes: false }
}

fn region(start: u64, end: u64, id: BinaryId) -> Region {
    Region {
        start,
        end,
        is_read: true,
        is_write: false,
        is_executable: true,
        is_shared: false,
        file_offset: 0,
        inode: id.inode,
        major: id.dev_major,
        minor: id.dev_minor,
        name: b"/usr/bin/app".to_vec(),
    }
}

/// A collator that knows one process running `/usr/bin/app`, mapped at
/// `BASE`, with its symbols and the kernel's.
fn setup(mut c: Collator) -> Collator {
    c.handle_packet(Packet::MachineInfo {
        architecture: b"amd64".to_vec(),
        bitness: Bitness::B64,
        endianness: Endianness::LittleEndian,
    })
    .unwrap();
    c.handle_packet(Packet::ProcessInfo { pid: PID, executable: b"/usr/bin/app".to_vec() }).unwrap();
    c.handle_packet(Packet::BinaryInfo {
        id: app_id(),
        symbol_table_count: 1,
        path: b"/usr/bin/app".to_vec(),
        debuglink: b"app.debug\0".to_vec(),
    })
    .unwrap();
    c.handle_packet(Packet::StringTable { binary_id: app_id(), offset: 5000, data: STRTAB.to_vec() }).unwrap();
    c.handle_packet(Packet::SymbolTable {
        binary_id: app_id(),
        offset: 6000,
        data: symtab(),
        string_table_offset: 5000,
        is_dynamic: false,
    })
    .unwrap();
    c.handle_packet(Packet::MemoryRegionMap { pid: PID, region: region(BASE, BASE + 0x10000, app_id()) }).unwrap();
    c.handle_packet(Packet::BinaryMap { pid: PID, id: app_id(), base_address: BASE }).unwrap();
    c.handle_packet(Packet::FileBlob {
        path: b"/proc/kallsyms".to_vec(),
        data: b"ffffffff81000000 T _stext\nffffffff81000100 T sys_nanosleep\n".to_vec(),
    })
    .unwrap();
    c.handle_packet(Packet::ThreadName { tid: 101, name: b"worker".to_vec() }).unwrap();
    c
}

fn frame(addr: u64) -> UserFrame {
    UserFrame { address: addr, initial_address: None }
}

fn sample(c: &mut Collator, tid: u32, user: Vec<u64>, kernel: Vec<u64>) -> Result<(), CollateError> {
    c.handle_packet(Packet::Sample {
        pid: PID,
        tid,
        user_backtrace: user.into_iter().map(frame).collect(),
        kernel_backtrace: kernel,
    })
}

fn stacks(c: &Collator) -> Vec<(Vec<Frame>, u64)> {
    let h = &c.collation.stacks;
    (0..h.len()).map(|i| {
        let (f, n) = h.entry(i);
        (f.clone(), n)
    }).collect()
}

fn lines(c: &Collator) -> Vec<String> {
    let mut decoder = Decoder::new(&c.collation);
    let mut out = Vec::new();
    for (frames, count) in stacks(c) {
        let names = vec![None; frames.len()];
        let mut line = Vec::new();
        assert!(decoder.write_stack_line(&mut line, &frames, count, &names));
        out.push(String::from_utf8(line).unwrap());
    }
    out
}

#[test]
fn collate_classifies_kernel_and_user_frames() {
    let mut c = setup(Collator::new(options(), None, vec![]));
    sample(&mut c, PID, vec![BASE + 0x1010, BASE + 0x9000], vec![0xffffffff81000110, 0x1234]).unwrap();
    let s = stacks(&c);
    assert_eq!(s.len(), 1);
    assert_eq!(
        s[0].0,
        vec![
            Frame::KernelSymbol(1),
            Frame::Kernel(0x1234),
            Frame::UserSymbol(app_id(), 0, Table::Original),
            Frame::UserBinary(app_id(), BASE + 0x9000),
            Frame::MainThread,
            Frame::Process(PID),
        ]
    );
    assert_eq!(s[0].1, 1);
    assert_eq!(
        lines(&c),
        vec!["app [PID=100];[MAIN_THREAD];0x0000000000409000 [app];main [app];0x0000000000001234_[k];sys_nanosleep [linux]_[k] 1\n".to_string()]
    );
}

#[test]
fn collate_user_frame_outside_any_region() {
    let mut c = setup(Collator::new(options(), None, vec![]));
    sample(&mut c, 101, vec![0x10], vec![]).unwrap();
    let s = stacks(&c);
    assert_eq!(s[0].0, vec![Frame::User(0x10), Frame::Thread(101), Frame::Process(PID)]);
    assert_eq!(lines(&c), vec!["app [PID=100];worker [THREAD=101];0x0000000000000010 1\n".to_string()]);
}

#[test]
fn collate_initial_address_is_the_lookup_key() {
    let mut c = setup(Collator::new(options(), None, vec![]));
    c.sample(PID, PID, &vec![UserFrame { address: BASE + 0x1100, initial_address: Some(BASE + 0x10ff) }], &vec![]).unwrap();
    assert_eq!(stacks(&c)[0].0[0], Frame::UserSymbol(app_id(), 0, Table::Original));
}

#[test]
fn collate_identical_samples_share_one_entry() {
    let mut c = setup(Collator::new(options(), None, vec![]));
    for _ in 0..5 {
        sample(&mut c, PID, vec![BASE + 0x1010], vec![0xffffffff81000110]).unwrap();
    }
    let s = stacks(&c);
    assert_eq!(s.len(), 1);
    assert_eq!(s[0].1, 5);
}

#[test]
fn collate_only_sample_counts_one() {
    let opts = CollateOptions { force_stack_size: None, only_sample: Some(1), without_kernel_callstacks: false, all_processes: false };
    let mut c = setup(Collator::new(opts, None, vec![]));
    sample(&mut c, PID, vec![BASE + 0x1010], vec![]).unwrap();
    sample(&mut c, PID, vec![BASE + 0x1110], vec![]).unwrap();
    sample(&mut c, PID, vec![BASE + 0x1010], vec![]).unwrap();
    let s = stacks(&c);
    let total: u64 = s.iter().map(|e| e.1).sum();
    assert_eq!(total, 1);
    assert_eq!(s[0].0[0], Frame::UserSymbol(app_id(), 1, Table::Original));
}

#[test]
fn collate_without_kernel_callstacks() {
    let opts = CollateOptions { force_stack_size: None, only_sample: None, without_kernel_callstacks: true, all_processes: false };
    let mut c = setup(Collator::new(opts, None, vec![]));
    sample(&mut c, PID, vec![BASE + 0x1010], vec![0xffffffff81000110, 0x1234]).unwrap();
    for (frames, _) in stacks(&c) {
        for f in frames {
            assert!(!matches!(f, Frame::Kernel(_) | Frame::KernelSymbol(_)));
        }
    }
}

#[test]
fn collate_omit_drops_whole_stack() {
    let filter = OmitFilter::new(&vec!["^hel".to_string(), "nothing".to_string()]).unwrap();
    let mut c = setup(Collator::new(options(), Some(filter), vec![]));
    sample(&mut c, PID, vec![BASE + 0x1110, BASE + 0x1010], vec![0xffffffff81000110]).unwrap();
    sample(&mut c, PID, vec![BASE + 0x1010], vec![]).unwrap();
    let s = stacks(&c);
    assert_eq!(s.len(), 1);
    assert_eq!(s[0].0, vec![Frame::UserSymbol(app_id(), 0, Table::Original), Frame::MainThread, Frame::Process(PID)]);
}

#[test]
fn collate_invalid_omit_pattern_is_refused() {
    assert!(OmitFilter::new(&vec!["(".to_string()]).is_none());
}

#[test]
fn collate_debug_symbols_take_precedence() {
    let mut debug = Symbols::new();
    let mut t = Vec::new();
    t.extend(entry64(13, 0x12, 0x1000, 0x20));
    debug.add_table(&t, STRTAB, false, Bitness::B64, Endianness::LittleEndian, &None);
    let mut c = setup(Collator::new(options(), None, vec![(b"app.debug".to_vec(), debug)]));
    sample(&mut c, PID, vec![BASE + 0x1010], vec![]).unwrap();
    sample(&mut c, PID, vec![BASE + 0x1030], vec![]).unwrap();
    let s = stacks(&c);
    assert_eq!(s[0].0[0], Frame::UserSymbol(app_id(), 0, Table::Debug));
    assert_eq!(s[1].0[0], Frame::UserSymbol(app_id(), 0, Table::Original));
    let l = lines(&c);
    assert_eq!(l[0], "app [PID=100];[MAIN_THREAD];space::foo(int, bool, char) [app] 1\n");
}

#[test]
fn collate_unwinder_symbol_is_the_last_resort() {
    let mut c = setup(Collator::new(options(), None, vec![]));
    let frames = vec![frame(BASE + 0x9000), frame(BASE + 0x1010)];
    assert_eq!(c.frame_binary(PID, &frames[0]), Some(app_id()));
    assert_eq!(c.frame_binary(PID, &frame(0x10)), None);
    let fallbacks = vec![Some(AddressSpaceSymbol { index: 4, name: b"plt_stub".to_vec() }), Some(AddressSpaceSymbol { index: 9, name: b"x".to_vec() })];
    c.unwound_sample(PID, PID, &frames, &vec![], &fallbacks).unwrap();
    let s = stacks(&c);
    assert_eq!(s[0].0[0], Frame::UserSymbol(app_id(), 4, Table::AddressSpace));
    assert_eq!(s[0].0[1], Frame::UserSymbol(app_id(), 0, Table::Original));
    let mut decoder = Decoder::new(&c.collation);
    let mut line = Vec::new();
    let names = vec![Some(b"plt_stub".to_vec()), None, None, None];
    assert!(decoder.write_stack_line(&mut line, &s[0].0, s[0].1, &names));
    assert_eq!(String::from_utf8(line).unwrap(), "app [PID=100];[MAIN_THREAD];main [app];plt_stub [app] 1\n");
}

#[test]
fn collate_raw_sample_reloads_after_map_changes() {
    let mut c = setup(Collator::new(options(), None, vec![]));
    match c.begin_raw_sample(PID, true).unwrap() {
        RawSampleStep::Unwind { reload: Some(regions) } => {
            assert_eq!(regions.len(), 1);
            assert_eq!(regions[0].start, BASE);
        },
        _ => panic!("expected a reload"),
    }
    assert!(matches!(c.begin_raw_sample(PID, true).unwrap(), RawSampleStep::Unwind { reload: None }));
    c.handle_packet(Packet::MemoryRegionUnmap { pid: PID, start: BASE, end: BASE + 0x10000 }).unwrap();
    assert!(matches!(c.begin_raw_sample(PID, true).unwrap(), RawSampleStep::Unwind { reload: Some(_) }));
    assert!(matches!(c.begin_raw_sample(PID + 1, true).unwrap(), RawSampleStep::Skip));
    assert!(matches!(c.begin_raw_sample(PID, false).unwrap(), RawSampleStep::Skip));
}

#[test]
fn collate_other_process_samples_are_skipped() {
    let mut c = setup(Collator::new(options(), None, vec![]));
    c.handle_packet(Packet::Sample { pid: 7, tid: 7, user_backtrace: vec![], kernel_backtrace: vec![] }).unwrap();
    assert_eq!(c.collation.stacks.len(), 0);
}

#[test]
fn collate_errors() {
    let mut c = Collator::new(options(), None, vec![]);
    assert_eq!(sample(&mut c, PID, vec![], vec![]), Err(CollateError::NoProcess));
    let mut c = setup(Collator::new(options(), None, vec![]));
    assert_eq!(
        c.handle_packet(Packet::MemoryRegionMap { pid: PID, region: region(BASE + 0x100, BASE + 0x200, app_id()) }),
        Err(CollateError::DuplicateMemoryRegion)
    );
    assert_eq!(
        c.handle_packet(Packet::MemoryRegionUnmap { pid: PID, start: BASE, end: BASE + 0x100 }),
        Err(CollateError::UnknownRegionUnmapped)
    );
    let other = BinaryId { inode: 99, dev_major: 1, dev_minor: 1 };
    assert_eq!(
        c.handle_packet(Packet::StringTable { binary_id: other, offset: 0, data: vec![0] }),
        Err(CollateError::UnknownBinary(other))
    );
    assert_eq!(
        c.handle_packet(Packet::SymbolTable { binary_id: app_id(), offset: 0, data: vec![], string_table_offset: 77, is_dynamic: false }),
        Err(CollateError::MissingStringTable(app_id()))
    );
    assert_eq!(
        c.handle_packet(Packet::StringTable { binary_id: app_id(), offset: u64::MAX, data: vec![0, 0] }),
        Err(CollateError::TableOutOfRange(app_id()))
    );
    c.handle_packet(Packet::BinaryUnmap { pid: PID, id: app_id() }).unwrap();
    assert_eq!(sample(&mut c, PID, vec![BASE + 0x1010], vec![]), Err(CollateError::MissingBaseAddress(app_id())));
}

#[test]
fn collate_basename() {
    assert_eq!(get_basename(b"/usr/lib/libc-2.26.so"), b"libc-2.26.so".to_vec());
    assert_eq!(get_basename(b"plain"), b"plain".to_vec());
    assert_eq!(get_basename(b"/trailing/"), b"".to_vec());
}

#[test]
fn collate_other_process_samples_move_the_counter() {
    let opts = CollateOptions { force_stack_size: None, only_sample: Some(1), without_kernel_callstacks: false, all_processes: false };
    let mut c = setup(Collator::new(opts, None, vec![]));
    c.handle_packet(Packet::Sample { pid: 7, tid: 7, user_backtrace: vec![frame(0x10)], kernel_backtrace: vec![] }).unwrap();
    sample(&mut c, PID, vec![BASE + 0x1010], vec![]).unwrap();
    let s = stacks(&c);
    assert_eq!(s.len(), 1);
    assert_eq!(s[0].0[0], Frame::UserSymbol(app_id(), 0, Table::Original));
}

#[test]
fn collate_all_processes_option() {
    let opts = CollateOptions { force_stack_size: None, only_sample: None, without_kernel_callstacks: false, all_processes: true };
    let mut c = setup(Collator::new(opts, None, vec![]));
    c.handle_packet(Packet::ProcessInfo { pid: 200, executable: b"/bin/other".to_vec() }).unwrap();
    c.handle_packet(Packet::Sample { pid: 200, tid: 200, user_backtrace: vec![frame(0x10)], kernel_backtrace: vec![] }).unwrap();
    c.handle_packet(Packet::Sample { pid: 300, tid: 300, user_backtrace: vec![frame(0x10)], kernel_backtrace: vec![] }).unwrap();
    let s = stacks(&c);
    assert_eq!(s.len(), 1);
    assert_eq!(s[0].0, vec![Frame::User(0x10), Frame::MainThread, Frame::Process(200)]);
    assert_eq!(lines(&c), vec!["other [PID=200];[MAIN_THREAD];0x0000000000000010 1\n".to_string()]);
}

#[test]
fn collate_unwinding_needs_a_known_architecture() {
    let mut c = setup(Collator::new(options(), None, vec![]));
    assert!(c.can_unwind());
    c.handle_packet(Packet::MachineInfo { architecture: b"x86".to_vec(), bitness: Bitness::B32, endianness: Endianness::LittleEndian }).unwrap();
    assert!(!c.can_unwind());
    assert!(matches!(c.begin_raw_sample(PID, true).unwrap(), RawSampleStep::Skip));
}

#[test]
fn collate_debug_symbols_go_to_one_binary() {
    let mut debug = Symbols::new();
    let mut t = Vec::new();
    t.extend(entry64(13, 0x12, 0x1000, 0x20));
    debug.add_table(&t, STRTAB, false, Bitness::B64, Endianness::LittleEndian, &None);
    let mut c = setup(Collator::new(options(), None, vec![(b"app.debug".to_vec(), debug)]));
    assert_eq!(c.debug_symbols.len(), 0);
    let other = BinaryId { inode: 12, dev_major: 8, dev_minor: 1 };
    c.handle_packet(Packet::BinaryInfo { id: other, symbol_table_count: 0, path: b"/usr/bin/copy".to_vec(), debuglink: b"app.debug".to_vec() }).unwrap();
    assert!(c.collation.binary_by_id.get(&other).unwrap().debug_symbols.is_none());
    assert!(c.collation.binary_by_id.get(&app_id()).unwrap().debug_symbols.is_some());
}
