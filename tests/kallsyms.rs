use nperf_collate::kallsyms::parse;

const TEXT: &str = "0000000000000000 A irq_stack_union\n\
ffffffff81000100 T sys_nanosleep\n\
ffffffff81000000 T _stext\n\
ffffffffc0002000 t ext4_fill_super\t[ext4]\n\
garbage line\n\
ffffffff81000200 T sys_futex";

#[test]
fn kallsyms_ranges_follow_sorted_addresses() {
    let map = parse(TEXT.as_bytes());
    assert_eq!(map.len(), 4);
    assert_eq!(map.get_range_by_index(0), Some((0xffffffff81000000, 0xffffffff81000100)));
    assert_eq!(map.get_range_by_index(1), Some((0xffffffff81000100, 0xffffffff81000200)));
    assert_eq!(map.get_range_by_index(2), Some((0xffffffff81000200, 0xffffffffc0002000)));
    assert_eq!(map.get_range_by_index(3), Some((0xffffffffc0002000, u64::MAX)));
    let s = map.get_value(0xffffffff81000110).unwrap();
    assert_eq!(s.name, b"sys_nanosleep".to_vec());
    assert_eq!(s.module, None);
    let s = map.get_value(0xffffffffc0002010).unwrap();
    assert_eq!(s.name, b"ext4_fill_super".to_vec());
    assert_eq!(s.module, Some(b"ext4".to_vec()));
}

#[test]
fn kallsyms_zero_address_is_skipped() {
    let map = parse(b"0000000000000000 A irq_stack_union\n");
    assert_eq!(map.len(), 0);
    assert!(map.get_value(0).is_none());
}

#[test]
fn kallsyms_address_below_first_symbol_is_unresolved() {
    let map = parse(TEXT.as_bytes());
    assert!(map.get_index(0x1000).is_none());
    assert_eq!(map.get_index(0xffffffff81000000), Some(0));
}

#[test]
fn kallsyms_shared_address_keeps_last_symbol() {
    let map = parse(b"ffffffff81000000 T first\nffffffff81000000 T second\n");
    assert_eq!(map.len(), 1);
    assert_eq!(map.get_value(0xffffffff81000000).unwrap().name, b"second".to_vec());
}
