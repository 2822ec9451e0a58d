use nperf_collate::range_map::RangeMap;

#[test]
fn push_in_any_order_and_look_up() {
    let mut m: RangeMap<u32> = RangeMap::new();
    assert!(m.push(100, 200, 1).is_ok());
    assert!(m.push(0, 50, 2).is_ok());
    assert!(m.push(300, 400, 3).is_ok());
    assert_eq!(m.len(), 3);
    assert_eq!(m.get_range_by_index(0), Some((0, 50)));
    assert_eq!(m.get_range_by_index(1), Some((100, 200)));
    assert_eq!(m.get_value(150), Some(&1));
    assert_eq!(m.get_value(0), Some(&2));
    assert_eq!(m.get_value(49), Some(&2));
    assert_eq!(m.get_value(50), None);
    assert_eq!(m.get_value(200), None);
    assert_eq!(m.get_index(399), Some(2));
    assert_eq!(m.get_index(400), None);
}

#[test]
fn overlapping_or_empty_range_is_refused() {
    let mut m: RangeMap<u32> = RangeMap::new();
    assert!(m.push(100, 200, 1).is_ok());
    assert_eq!(m.push(150, 250, 2), Err(2));
    assert_eq!(m.push(50, 101, 3), Err(3));
    assert_eq!(m.push(300, 300, 4), Err(4));
    assert!(m.push(200, 300, 5).is_ok());
    assert_eq!(m.len(), 2);
}

#[test]
fn remove_by_exact_range_only() {
    let mut m: RangeMap<u32> = RangeMap::new();
    assert!(m.push(100, 200, 1).is_ok());
    assert!(m.push(200, 300, 2).is_ok());
    assert_eq!(m.remove_by_exact_range(100, 150), Err(()));
    assert_eq!(m.remove_by_exact_range(100, 200), Ok(1));
    assert_eq!(m.get_value(150), None);
    assert_eq!(m.get_value(250), Some(&2));
    assert_eq!(m.remove_by_exact_range(100, 200), Err(()));
    assert_eq!(m.get_value_by_index(0), Some(&2));
    assert_eq!(m.get_value_by_index(1), None);
}
