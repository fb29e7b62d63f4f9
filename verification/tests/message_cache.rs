use nixvulns::cache::MessageCache;
use std::cell::Cell;
use std::sync::Arc;

#[test]
fn new_handle_is_made_once_and_then_shared() {
    let mut cache: MessageCache<String> = MessageCache::new();
    let calls = Cell::new(0);
    let first = cache.get_or_insert_with(0x1000, || {
        calls.set(calls.get() + 1);
        "msg-a".to_string()
    });
    let second = cache.get_or_insert_with(0x1000, || {
        calls.set(calls.get() + 1);
        "other".to_string()
    });
    assert_eq!(calls.get(), 1);
    assert_eq!(*first, "msg-a");
    assert!(Arc::ptr_eq(&first, &second));
    assert!(Arc::ptr_eq(&first, &cache.lookup(0x1000).unwrap()));
}

#[test]
fn handles_are_kept_apart() {
    let mut cache: MessageCache<u32> = MessageCache::new();
    assert!(cache.lookup(1).is_none());
    let a = cache.get_or_insert_with(1, || 10);
    let b = cache.get_or_insert_with(2, || 20);
    assert_eq!(*a, 10);
    assert_eq!(*b, 20);
    assert_eq!(*cache.lookup(1).unwrap(), 10);
    assert_eq!(*cache.lookup(2).unwrap(), 20);
    assert!(cache.lookup(3).is_none());
}
