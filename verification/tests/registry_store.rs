use modulus::Id;
use modulus::registry::Registry;

#[test]
fn register_and_get() {
    let mut reg: Registry<i64> = Registry::new();
    let id = reg.register("base::tuning::speed", 7).unwrap();
    assert_eq!(reg.get(id), Some(&7));
    assert_eq!(reg.get_by_path("base::tuning::speed"), Some(&7));
    assert!(reg.contains(id));
    assert!(reg.contains_path("base::tuning::speed"));
}

#[test]
fn register_invalid_path_is_a_no_op() {
    let mut reg: Registry<i64> = Registry::new();
    assert_eq!(reg.register("Bad::Path", 1), None);
    assert_eq!(reg.register("", 2), None);
    assert!(!reg.contains_path("Bad::Path"));
    assert_eq!(reg.get_by_path("Bad::Path"), None);
    // nothing was allocated: the next registration gets the first handle
    assert_eq!(reg.register("a", 3), Some(Id(0)));
}

#[test]
fn registry_overwrite_keeps_handle_and_second_value() {
    let mut reg: Registry<&'static str> = Registry::new();
    let first = reg.register("base::input::up", "w").unwrap();
    let second = reg.register("base::input::up", "k").unwrap();
    assert_eq!(first, second);
    assert_eq!(reg.get(first), Some(&"k"));
    assert_eq!(reg.get_by_path("base::input::up"), Some(&"k"));
}

#[test]
fn lookup_and_resolve_through_registry() {
    let mut reg: Registry<u8> = Registry::new();
    let id = reg.register("base::input::pan", 1).unwrap();
    assert_eq!(reg.lookup("base::input::pan"), Some(id));
    assert_eq!(reg.resolve(id), Some("base::input::pan"));
    assert_eq!(reg.lookup("never::registered"), None);
    assert_eq!(reg.resolve(Id(99)), None);
}

#[test]
fn iter_yields_every_entry_once() {
    let mut reg: Registry<i32> = Registry::new();
    let a = reg.register("a", 10).unwrap();
    let b = reg.register("b", 20).unwrap();
    let c = reg.register("c", 30).unwrap();
    let pairs = reg.iter();
    assert_eq!(pairs.len(), 3);
    let mut seen = vec![];
    for (id, v) in pairs {
        seen.push((id, *v));
    }
    assert!(seen.contains(&(a, 10)));
    assert!(seen.contains(&(b, 20)));
    assert!(seen.contains(&(c, 30)));
}

#[test]
fn set_replaces_only_stored_values() {
    let mut reg: Registry<i32> = Registry::new();
    let id = reg.register("a", 1).unwrap();
    assert!(reg.set(id, 2));
    assert_eq!(reg.get(id), Some(&2));
    assert!(!reg.set(Id(5), 9));
    assert_eq!(reg.get(Id(5)), None);
}
