use simwatch::util::Counter;

#[test]
fn test_counter() {
    let mut counter = Counter::new();
    counter.inc("abc");
    counter.inc("abc");
    let keys: Vec<String> = counter.keys();
    assert_eq!(keys.len(), 1);
    assert_eq!(keys[0], "abc");
    assert_eq!(counter.get("abc").unwrap(), 2);
}

#[test]
fn counter_keeps_keys_apart_and_in_order() {
    let mut counter = Counter::new();
    counter.inc("b");
    counter.inc("a");
    counter.inc("b");
    assert_eq!(counter.keys(), vec!["b", "a"]);
    assert_eq!(counter.get("a"), Some(1));
    assert_eq!(counter.get("b"), Some(2));
    assert_eq!(counter.get("c"), None);
    assert_eq!(counter.len(), 2);
}
