use nperf_collate::collate::{CollateOptions, Collator, Packet};
use nperf_collate::frame::{Frame, Table};
use nperf_collate::output::{write_dec, write_hex_address, Decoder};
use nperf_collate::BinaryId;

fn collator() -> Collator {
    let mut c = Collator::new(
        CollateOptions { force_stack_size: None, only_sample: None, without_kernel_callstacks: false, all_processes: false },
        None,
        vec![],
    );
    c.handle_packet(Packet::FileBlob {
        path: b"/proc/kallsyms".to_vec(),
        data: b"ffffffffc0002000 t ext4_fill_super\t[ext4]\nffffffff81000000 T _stext\n".to_vec(),
    })
    .unwrap();
    c
}

fn text(c: &Collator, frame: Frame) -> Option<String> {
    let mut decoder = Decoder::new(&c.collation);
    let mut out = Vec::new();
    if decoder.write_frame(&mut out, &frame, None) {
        Some(String::from_utf8(out).unwrap())
    } else {
        assert!(out.is_empty());
        None
    }
}

#[test]
fn output_kernel_frames() {
    let c = collator();
    assert_eq!(text(&c, Frame::KernelSymbol(0)), Some("_stext [linux]_[k]".to_string()));
    assert_eq!(text(&c, Frame::KernelSymbol(1)), Some("ext4_fill_super [linux:ext4]_[k]".to_string()));
    assert_eq!(text(&c, Frame::KernelSymbol(2)), None);
    assert_eq!(text(&c, Frame::Kernel(0xffffffff8100abcd)), Some("0xFFFFFFFF8100ABCD_[k]".to_string()));
}

#[test]
fn output_unknown_process_and_thread() {
    let c = collator();
    assert_eq!(text(&c, Frame::Process(5)), Some("[PID=5]".to_string()));
    assert_eq!(text(&c, Frame::Thread(7)), Some("[THREAD=7]".to_string()));
    assert_eq!(text(&c, Frame::MainThread), Some("[MAIN_THREAD]".to_string()));
    assert_eq!(text(&c, Frame::User(0)), Some("0x0000000000000000".to_string()));
}

#[test]
fn output_unknown_binary_is_not_written() {
    let c = collator();
    let id = BinaryId { inode: 1, dev_major: 2, dev_minor: 3 };
    assert_eq!(text(&c, Frame::UserBinary(id, 0x10)), None);
    assert_eq!(text(&c, Frame::UserSymbol(id, 0, Table::Original)), None);
}

#[test]
fn output_numbers() {
    let mut out = Vec::new();
    write_dec(&mut out, 0);
    out.push(b' ');
    write_dec(&mut out, 18446744073709551615);
    out.push(b' ');
    write_hex_address(&mut out, 0x1234);
    assert_eq!(String::from_utf8(out).unwrap(), "0 18446744073709551615 0x0000000000001234");
}
