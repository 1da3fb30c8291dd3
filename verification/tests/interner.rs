use modulus::Id;
use modulus::registry::IdInterner;

#[test]
fn intern_assigns_sequential_handles() {
    let mut it = IdInterner::new();
    assert_eq!(it.intern("base::input::up"), Some(Id(0)));
    assert_eq!(it.intern("base::input::down"), Some(Id(1)));
    assert_eq!(it.intern("base::camera::pan"), Some(Id(2)));
    assert_eq!(it.len(), 3);
}

#[test]
fn intern_is_idempotent() {
    let mut it = IdInterner::new();
    let first = it.intern("base::input::up");
    assert!(first.is_some());
    assert_eq!(it.intern("base::input::up"), first);
    assert_eq!(it.intern("base::input::up"), first);
    assert_eq!(it.len(), 1);
}

#[test]
fn intern_resolve_round_trip() {
    let mut it = IdInterner::new();
    for p in ["a", "base::input::pan", "x9::y_z"] {
        let id = it.intern(p).unwrap();
        assert_eq!(it.resolve(id), Some(p));
    }
}

#[test]
fn rejection_table() {
    let mut it = IdInterner::new();
    assert_eq!(it.intern(""), None);
    assert_eq!(it.intern("_x"), None);
    assert_eq!(it.intern("x_"), None);
    assert_eq!(it.intern("Has::Upper"), None);
    assert_eq!(it.intern("a::"), None);
    assert_eq!(it.intern("a::b_::c"), None);
    // no handle was allocated by any of the rejected paths
    assert_eq!(it.len(), 0);
    assert_eq!(it.intern("a"), Some(Id(0)));
}

#[test]
fn rejects_more_malformed_paths() {
    let mut it = IdInterner::new();
    assert_eq!(it.intern("::"), None);
    assert_eq!(it.intern("::a"), None);
    assert_eq!(it.intern("a:::b"), None);
    assert_eq!(it.intern("a:b"), None);
    assert_eq!(it.intern("a b"), None);
    assert_eq!(it.intern("sp\u{e9}c"), None);
    assert_eq!(it.len(), 0);
}

#[test]
fn accepts_digits_and_inner_underscores() {
    let mut it = IdInterner::new();
    assert!(it.intern("a2::b_c::d0_e").is_some());
    assert!(it.intern("0").is_some());
    assert!(it.intern("0::1").is_some());
}

#[test]
fn uniqueness_of_handles() {
    let mut it = IdInterner::new();
    let paths = ["a", "b", "a::b", "b::a", "a::b::c"];
    let mut ids = Vec::new();
    for p in paths {
        ids.push(it.intern(p).unwrap());
    }
    for i in 0..ids.len() {
        for j in 0..ids.len() {
            if i != j {
                assert_ne!(ids[i], ids[j]);
            }
        }
        assert_eq!(it.resolve(ids[i]), Some(paths[i]));
    }
    assert_eq!(it.len(), paths.len());
}

#[test]
fn lookup_never_allocates() {
    let mut it = IdInterner::new();
    assert_eq!(it.lookup("base::input::up"), None);
    assert_eq!(it.len(), 0);
    let id = it.intern("base::input::up").unwrap();
    assert_eq!(it.lookup("base::input::up"), Some(id));
    // invalid and never-interned paths are indistinguishable
    assert_eq!(it.lookup("_bad_"), None);
    assert_eq!(it.len(), 1);
}

#[test]
fn resolve_unallocated_handle_is_none() {
    let mut it = IdInterner::new();
    assert_eq!(it.resolve(Id(0)), None);
    it.intern("a").unwrap();
    assert_eq!(it.resolve(Id(1)), None);
    assert_eq!(it.resolve(Id(u32::MAX)), None);
}
