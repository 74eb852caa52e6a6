use turbo_mysql_core::registry::Registry;

#[test]
fn handles_start_at_one_and_zero_is_never_valid() {
    let mut reg: Registry<String> = Registry::new();
    let h = reg.insert("first".to_string());
    assert_eq!(h, 1);
    assert!(reg.get(0).is_none());
    assert_eq!(reg.get(1), Some(&"first".to_string()));
    assert!(reg.get(2).is_none());
}

#[test]
fn destroy_returns_the_resource_once() {
    let mut reg: Registry<u32> = Registry::new();
    let h = reg.insert(77);
    assert_eq!(reg.take(h), Some(77));
    assert_eq!(reg.take(h), None);
    assert!(reg.get(h).is_none());
}

#[test]
fn destroying_one_handle_leaves_the_others_untouched() {
    let mut reg: Registry<u32> = Registry::new();
    let a = reg.insert(10);
    let b = reg.insert(20);
    let c = reg.insert(30);
    assert_eq!(reg.take(b), Some(20));
    assert_eq!(reg.get(a), Some(&10));
    assert_eq!(reg.get(c), Some(&30));
    assert_eq!(reg.take(b), None);
    assert_eq!(reg.get(a), Some(&10));
    assert_eq!(reg.get(c), Some(&30));
}

#[test]
fn new_handles_never_reuse_live_slots() {
    let mut reg: Registry<u32> = Registry::new();
    let a = reg.insert(1);
    let b = reg.insert(2);
    assert_ne!(a, b);
    reg.take(a);
    let c = reg.insert(3);
    assert_ne!(c, b);
    assert_eq!(reg.get(b), Some(&2));
    assert_eq!(reg.get(c), Some(&3));
}
