use std::cell::Cell;
use std::rc::Rc;
use tincan::runtime::{ReactiveRuntime, RuntimeInner, RuntimeStack};
use tincan::signal::{create_memo, create_signal};
use tincan::{Effect, Memo, Signal};

type Body<T> = Box<dyn Fn(&mut RuntimeInner<T>)>;
type Rt<T> =
    ReactiveRuntime<T, Body<T>, Box<dyn Fn(T)>, Box<dyn Fn(&T) -> T>, Box<dyn Fn(&T, &T) -> T>>;
type Stack<T> =
    RuntimeStack<T, Body<T>, Box<dyn Fn(T)>, Box<dyn Fn(&T) -> T>, Box<dyn Fn(&T, &T) -> T>>;

const BUDGET: usize = 1000;

#[test]
fn memo_basic() {
    let mut stack: Stack<i32> = RuntimeStack::new();
    let rt = ReactiveRuntime::current(&mut stack);
    let (count, set_count) = create_signal(rt.inner(), 5);
    let doubled = create_memo(rt.inner(), move |inner: &mut RuntimeInner<i32>| {
        count.get(inner) * 2
    });

    assert_eq!(doubled.get(rt.inner()), 10);

    set_count.set(rt, 10, BUDGET);
    assert_eq!(doubled.get(rt.inner()), 20);
}

#[test]
fn memo_integration() {
    let mut stack: Stack<i32> = RuntimeStack::new();
    ReactiveRuntime::scope(&mut stack, |stack: &mut Stack<i32>| {
        let rt = ReactiveRuntime::current(stack);
        let a = Signal::new(rt.inner(), 5);
        let b = Signal::new(rt.inner(), 10);

        let sum = Memo::new(rt.inner(), move |inner: &mut RuntimeInner<i32>| {
            a.get(inner) + b.get(inner)
        });

        assert_eq!(sum.get(rt.inner()), 15);

        a.set(rt, 20, BUDGET);
        assert_eq!(sum.get(rt.inner()), 30);

        b.set(rt, 5, BUDGET);
        assert_eq!(sum.get(rt.inner()), 25);
    });
}

#[test]
fn complex_reactive_chain() {
    let mut stack: Stack<i32> = RuntimeStack::new();
    ReactiveRuntime::scope(&mut stack, |stack: &mut Stack<i32>| {
        let rt = ReactiveRuntime::current(stack);
        let input: Signal<i32> = Signal::new(rt.inner(), 1);

        let doubled = Memo::new(rt.inner(), move |inner: &mut RuntimeInner<i32>| {
            input.get(inner) * 2
        });

        let quadrupled = Memo::new(rt.inner(), |inner: &mut RuntimeInner<i32>| {
            doubled.get(inner) * 2
        });

        assert_eq!(quadrupled.get(rt.inner()), 4);

        input.set(rt, 5, BUDGET);
        assert_eq!(quadrupled.get(rt.inner()), 20);
    });
}

#[test]
fn memo_recomputes_once_per_change() {
    let mut rt: Rt<i32> = ReactiveRuntime::new(0);
    let a = Signal::new(rt.inner(), 3);
    let b = Signal::new(rt.inner(), 4);
    let runs = Rc::new(Cell::new(0usize));
    let runs_clone = runs.clone();
    let sum = Memo::new(rt.inner(), move |inner: &mut RuntimeInner<i32>| {
        runs_clone.set(runs_clone.get() + 1);
        a.get(inner) + b.get(inner)
    });

    // Nothing is computed before the first read.
    assert_eq!(runs.get(), 0);
    assert!(rt.is_memo_dirty(sum.id()));

    assert_eq!(sum.get(rt.inner()), 7);
    assert_eq!(runs.get(), 1);
    assert!(!rt.is_memo_dirty(sum.id()));

    // A second read uses the cached value.
    assert_eq!(sum.get(rt.inner()), 7);
    assert_eq!(runs.get(), 1);

    a.set(&mut rt, 10, BUDGET);
    assert!(rt.is_memo_dirty(sum.id()));
    assert_eq!(runs.get(), 1);
    assert_eq!(sum.get(rt.inner()), 14);
    assert_eq!(runs.get(), 2);
    assert_eq!(sum.get(rt.inner()), 14);
    assert_eq!(runs.get(), 2);
}

#[test]
fn memo_chain_recomputes_each_memo_once() {
    let mut rt: Rt<i32> = ReactiveRuntime::new(0);
    let a = Signal::new(rt.inner(), 1);
    let first_runs = Rc::new(Cell::new(0usize));
    let second_runs = Rc::new(Cell::new(0usize));
    let first_clone = first_runs.clone();
    let second_clone = second_runs.clone();
    let m1 = Memo::new(rt.inner(), move |inner: &mut RuntimeInner<i32>| {
        first_clone.set(first_clone.get() + 1);
        a.get(inner) + 1
    });
    let m2 = Memo::new(rt.inner(), |inner: &mut RuntimeInner<i32>| {
        second_clone.set(second_clone.get() + 1);
        m1.get(inner) * 10
    });

    assert_eq!(m2.get(rt.inner()), 20);
    assert_eq!((first_runs.get(), second_runs.get()), (1, 1));

    a.set(&mut rt, 2, BUDGET);
    // Both are dirty when the write returns, and neither has been computed.
    assert!(rt.is_memo_dirty(m1.id()));
    assert!(rt.is_memo_dirty(m2.id()));
    assert_eq!((first_runs.get(), second_runs.get()), (1, 1));

    assert_eq!(m2.get(rt.inner()), 30);
    assert_eq!((first_runs.get(), second_runs.get()), (2, 2));
    assert_eq!(m1.get(rt.inner()), 3);
    assert_eq!((first_runs.get(), second_runs.get()), (2, 2));
}

#[test]
fn memo_behind_an_effect_is_dirty_when_the_write_returns() {
    let mut rt: Rt<i32> = ReactiveRuntime::new(0);
    let a = Signal::new(rt.inner(), 1);
    // The effect reads the cell before the memo does.
    let _effect = Effect::new(
        &mut rt,
        Box::new(move |inner: &mut RuntimeInner<i32>| {
            let _ = a.get(inner);
        }),
    );
    let doubled = Memo::new(rt.inner(), move |inner: &mut RuntimeInner<i32>| a.get(inner) * 2);
    assert_eq!(doubled.get(rt.inner()), 2);

    assert_eq!(a.set(&mut rt, 4, BUDGET), 1);
    assert!(rt.is_memo_dirty(doubled.id()));
    assert_eq!(doubled.get(rt.inner()), 8);
}

#[test]
fn memo_with_reads_by_reference() {
    let mut rt: Rt<String> = ReactiveRuntime::new(0);
    let name = Signal::new(rt.inner(), String::from("tin"));
    let label = Memo::new(rt.inner(), move |inner: &mut RuntimeInner<String>| {
        let mut text = name.get(inner);
        text.push_str("can");
        text
    });
    assert_eq!(label.with(rt.inner(), |s: &String| s.len()), 6);
    name.set(&mut rt, String::from("toucan"), BUDGET);
    assert_eq!(label.with(rt.inner(), |s: &String| s.clone()), "toucancan");
}

#[test]
fn memo_forgets_what_it_no_longer_reads() {
    let mut rt: Rt<i32> = ReactiveRuntime::new(0);
    let switch = Signal::new(rt.inner(), 0);
    let left = Signal::new(rt.inner(), 10);
    let right = Signal::new(rt.inner(), 20);
    let pick = Memo::new(rt.inner(), move |inner: &mut RuntimeInner<i32>| {
        if switch.get(inner) == 0 {
            left.get(inner)
        } else {
            right.get(inner)
        }
    });
    assert_eq!(pick.get(rt.inner()), 10);

    switch.set(&mut rt, 1, BUDGET);
    assert_eq!(pick.get(rt.inner()), 20);

    // The memo read `right` last time, not `left`.
    left.set(&mut rt, 11, BUDGET);
    assert!(!rt.is_memo_dirty(pick.id()));
    right.set(&mut rt, 21, BUDGET);
    assert!(rt.is_memo_dirty(pick.id()));
    assert_eq!(pick.get(rt.inner()), 21);
}

#[test]
fn copied_memo_shares_the_cached_value() {
    let mut rt: Rt<i32> = ReactiveRuntime::new(0);
    let cell = Signal::new(rt.inner(), 2);
    let runs = Rc::new(Cell::new(0usize));
    let counter = runs.clone();
    let memo = Memo::new(rt.inner(), move |inner: &mut RuntimeInner<i32>| {
        counter.set(counter.get() + 1);
        cell.get(inner) + 1
    });
    let copy = memo.clone();
    assert_eq!(copy.id(), memo.id());
    assert_eq!(memo.get(rt.inner()), 3);
    assert_eq!(copy.get(rt.inner()), 3);
    assert_eq!(runs.get(), 1);
}
