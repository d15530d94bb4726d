use neptune::registry::Registry;
use std::rc::Rc;

#[test]
fn registry_starts_without_symbols() {
    let registry: Registry<Rc<u8>> = Registry::default();
    assert!(registry.get("X").is_none());
    assert!(registry.get("").is_none());
}

#[test]
fn registry_makes_an_entry_on_first_reference() {
    let mut registry: Registry<Rc<u8>> = Registry::default();
    let made = registry.get_or_create("X");
    assert_eq!(*made, 0);
    let found = registry.get("X").unwrap();
    assert!(Rc::ptr_eq(&made, &found));
    assert!(registry.get("Y").is_none());
}

#[test]
fn registry_never_replaces_an_entry() {
    let mut registry: Registry<Rc<u8>> = Registry::default();
    let first = registry.get_or_create("X");
    let other = registry.get_or_create("Y");
    let again = registry.get_or_create("X");
    assert!(Rc::ptr_eq(&first, &again));
    assert!(!Rc::ptr_eq(&first, &other));
    assert!(Rc::ptr_eq(&other, &registry.get("Y").unwrap()));
}

#[test]
fn registry_hands_out_clones_of_the_handle() {
    let mut registry: Registry<Rc<u8>> = Registry::default();
    let handle = registry.get_or_create("X");
    // One in the registry, one here.
    assert_eq!(Rc::strong_count(&handle), 2);
    let second = registry.get("X").unwrap();
    assert_eq!(Rc::strong_count(&handle), 3);
    drop(second);
    assert_eq!(Rc::strong_count(&handle), 2);
}
