use nperf_collate::demangle::DemangleCache;

#[test]
fn demangles_itanium_names() {
    let mut cache = DemangleCache::new();
    assert_eq!(cache.demangle(b"_ZN5space3fooEibc"), Some(b"space::foo(int, bool, char)".to_vec()));
    // a second time, from the cache
    assert_eq!(cache.demangle(b"_ZN5space3fooEibc"), Some(b"space::foo(int, bool, char)".to_vec()));
    assert_eq!(DemangleCache::demangle_uncached(b"_ZN5space3fooEibc"), Some(b"space::foo(int, bool, char)".to_vec()));
}

#[test]
fn names_without_mangling_prefix_are_left_alone() {
    let mut cache = DemangleCache::new();
    assert_eq!(cache.demangle(b"main"), None);
    assert_eq!(cache.demangle(b"Z_foo"), None);
    assert_eq!(cache.display_name(b"pthread_cond_wait"), b"pthread_cond_wait".to_vec());
    assert_eq!(DemangleCache::demangle_uncached(b"usleep"), None);
}

#[test]
fn undemanglable_name_is_shown_raw() {
    let mut cache = DemangleCache::new();
    assert_eq!(cache.demangle(b"_Z"), None);
    assert_eq!(cache.display_name(b"_Z"), b"_Z".to_vec());
}

#[test]
fn display_name_demangles() {
    let mut cache = DemangleCache::new();
    assert_eq!(cache.display_name(b"_ZN5space3fooEibc"), b"space::foo(int, bool, char)".to_vec());
}
