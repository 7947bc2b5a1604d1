use etp::memshadow::MemShadow;

#[test]
fn first_load_creates_entry_without_warning() {
    let mut shadow = MemShadow::new();
    assert_eq!(shadow.observe_load(64, 7), None);
    assert_eq!(shadow.lookup(64), Some(7));
}

#[test]
fn agreeing_load_never_warns() {
    let mut shadow = MemShadow::new();
    shadow.store(64, 5);
    assert_eq!(shadow.observe_load(64, 5), None);
    assert_eq!(shadow.lookup(64), Some(5));
}

#[test]
fn disagreeing_load_warns_once_and_keeps_the_recorded_value() {
    let mut shadow = MemShadow::new();
    shadow.store(64, 5);
    assert_eq!(shadow.observe_load(64, 9), Some(5));
    // The shadow still holds the stored value, and a later agreeing load
    // passes silently again.
    assert_eq!(shadow.lookup(64), Some(5));
    assert_eq!(shadow.observe_load(64, 5), None);
}

#[test]
fn store_overwrites() {
    let mut shadow = MemShadow::new();
    shadow.store(8, 1);
    shadow.store(8, 2);
    assert_eq!(shadow.lookup(8), Some(2));
    assert_eq!(shadow.lookup(9), None);
}
