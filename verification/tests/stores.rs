use std::sync::atomic::{AtomicUsize, Ordering};
use std::sync::Arc;
use tincan::Store;

#[derive(Clone, PartialEq, Debug)]
struct State {
    count: i32,
    name: String,
}

#[test]
fn store_integration() {
    let mut store: Store<State, fn(&State)> = Store::new(State {
        count: 0,
        name: "test".to_string(),
    });

    // Test get
    assert_eq!(store.get().count, 0);

    // Test update
    store.update(|state: &mut State| {
        state.count = 42;
        state.name = "updated".to_string();
    });

    assert_eq!(store.get().count, 42);
    assert_eq!(store.get().name, "updated");

    // Test set
    store.set(State {
        count: 100,
        name: "new".to_string(),
    });

    assert_eq!(store.get().count, 100);
}

#[test]
fn store_subscription() {
    let mut store = Store::new(0);
    let counter = Arc::new(AtomicUsize::new(0));
    let counter_clone = counter.clone();

    store.subscribe(move |_: &i32| {
        counter_clone.fetch_add(1, Ordering::SeqCst);
    });

    assert_eq!(counter.load(Ordering::SeqCst), 0);

    store.update(|n: &mut i32| *n += 1);
    assert_eq!(counter.load(Ordering::SeqCst), 1);

    store.update(|n: &mut i32| *n += 1);
    assert_eq!(counter.load(Ordering::SeqCst), 2);
}

#[test]
fn store_calls_subscribers_in_order_with_the_new_state() {
    let log = Arc::new(std::sync::Mutex::new(Vec::new()));
    let mut store: Store<i32, Box<dyn Fn(&i32)>> = Store::new(1);
    let first = log.clone();
    store.subscribe(Box::new(move |n: &i32| first.lock().unwrap().push(("first", *n))));
    let second = log.clone();
    store.subscribe(Box::new(move |n: &i32| second.lock().unwrap().push(("second", *n))));

    store.set(7);
    assert_eq!(*log.lock().unwrap(), vec![("first", 7), ("second", 7)]);
}

#[test]
fn store_read_does_not_copy() {
    let store: Store<String, fn(&String)> = Store::new(String::from("hello"));
    assert_eq!(store.read(|s: &String| s.len()), 5);
}
