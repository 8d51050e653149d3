use std::cell::{Cell, RefCell};
use std::rc::Rc;
use std::sync::atomic::{AtomicUsize, Ordering};
use std::sync::Arc;
use tincan::runtime::{ReactiveRuntime, RuntimeInner, RuntimeStack};
use tincan::signal::create_effect;
use tincan::{Effect, Memo, Signal};

type Body<T> = Box<dyn Fn(&mut RuntimeInner<T>)>;
type Rt<T> =
    ReactiveRuntime<T, Body<T>, Box<dyn Fn(T)>, Box<dyn Fn(&T) -> T>, Box<dyn Fn(&T, &T) -> T>>;
type Stack<T> =
    RuntimeStack<T, Body<T>, Box<dyn Fn(T)>, Box<dyn Fn(&T) -> T>, Box<dyn Fn(&T, &T) -> T>>;

const BUDGET: usize = 1000;

/// An effect that reads `cell` and counts its runs.
fn counting(rt: &mut Rt<i32>, cell: Signal<i32>) -> (Effect, Rc<Cell<usize>>) {
    let runs = Rc::new(Cell::new(0usize));
    let counter = runs.clone();
    let effect = Effect::new(
        rt,
        Box::new(move |inner: &mut RuntimeInner<i32>| {
            let _ = cell.get(inner);
            counter.set(counter.get() + 1);
        }),
    );
    (effect, runs)
}

#[test]
fn effect_runs_immediately() {
    let mut stack: Stack<i32> = RuntimeStack::new();
    let rt = ReactiveRuntime::current(&mut stack);
    let counter = Arc::new(AtomicUsize::new(0));
    let counter_clone = counter.clone();

    create_effect(
        rt,
        Box::new(move |_inner: &mut RuntimeInner<i32>| {
            counter_clone.fetch_add(1, Ordering::SeqCst);
        }),
    );

    assert_eq!(counter.load(Ordering::SeqCst), 1);
}

#[test]
fn effect_integration() {
    let mut stack: Stack<i32> = RuntimeStack::new();
    ReactiveRuntime::scope(&mut stack, |stack: &mut Stack<i32>| {
        let rt = ReactiveRuntime::current(stack);
        let counter = Arc::new(AtomicUsize::new(0));
        let counter_clone = counter.clone();

        let signal = Signal::new(rt.inner(), 0);

        let _effect = Effect::new(
            rt,
            Box::new(move |inner: &mut RuntimeInner<i32>| {
                let _ = signal.get(inner);
                counter_clone.fetch_add(1, Ordering::SeqCst);
            }),
        );

        // Effect runs immediately
        assert_eq!(counter.load(Ordering::SeqCst), 1);
    });
}

#[test]
fn effect_runs_once_per_write() {
    let mut rt: Rt<i32> = ReactiveRuntime::new(0);
    let cell = Signal::new(rt.inner(), 0);
    let (_effect, runs) = counting(&mut rt, cell);
    assert_eq!(runs.get(), 1);

    assert_eq!(cell.set(&mut rt, 1, BUDGET), 1);
    assert_eq!(runs.get(), 2);
    assert_eq!(cell.set(&mut rt, 2, BUDGET), 1);
    assert_eq!(runs.get(), 3);
    // The value that the cell holds already: one more run all the same.
    assert_eq!(cell.set(&mut rt, 2, BUDGET), 1);
    assert_eq!(runs.get(), 4);
    assert_eq!(cell.get(rt.inner()), 2);
    assert_eq!(rt.inner().due(), 0);
}

#[test]
fn effect_on_two_cells_runs_once_for_each_write() {
    let mut rt: Rt<i32> = ReactiveRuntime::new(0);
    let a = Signal::new(rt.inner(), 0);
    let b = Signal::new(rt.inner(), 0);
    let runs = Rc::new(Cell::new(0usize));
    let counter = runs.clone();
    let _effect = Effect::new(
        &mut rt,
        Box::new(move |inner: &mut RuntimeInner<i32>| {
            let _ = a.get(inner);
            let _ = b.get(inner);
            counter.set(counter.get() + 1);
        }),
    );
    a.set(&mut rt, 1, BUDGET);
    b.set(&mut rt, 1, BUDGET);
    // Two writes, two runs: nothing is batched.
    assert_eq!(runs.get(), 3);
}

#[test]
fn disposed_effect_never_runs_again() {
    let mut rt: Rt<i32> = ReactiveRuntime::new(0);
    let cell = Signal::new(rt.inner(), 0);
    let (effect, runs) = counting(&mut rt, cell);
    cell.set(&mut rt, 1, BUDGET);
    assert_eq!(runs.get(), 2);

    effect.dispose(&mut rt);
    assert_eq!(cell.set(&mut rt, 2, BUDGET), 0);
    assert_eq!(runs.get(), 2);
    assert_eq!(cell.get(rt.inner()), 2);
    assert!(rt.inner().dependents(cell.id()).is_empty());
}

#[test]
fn effect_removed_while_it_is_due_does_not_run() {
    let mut rt: Rt<i32> = ReactiveRuntime::new(0);
    let cell = Signal::new(rt.inner(), 0);
    let (effect, runs) = counting(&mut rt, cell);
    cell.write(rt.inner(), 1);
    assert_eq!(rt.inner().due(), 1);
    effect.dispose(&mut rt);
    // It gets its turn, and nothing runs.
    assert_eq!(rt.settle(BUDGET), 1);
    assert_eq!(runs.get(), 1);
}

#[test]
fn effect_dependencies_are_fixed_by_the_first_run() {
    let mut rt: Rt<i32> = ReactiveRuntime::new(0);
    let a = Signal::new(rt.inner(), 1);
    let b = Signal::new(rt.inner(), 0);
    let n = Rc::new(Cell::new(0usize));
    let counter = n.clone();
    let _effect = Effect::new(
        &mut rt,
        Box::new(move |inner: &mut RuntimeInner<i32>| {
            counter.set(counter.get() + 1);
            if a.get(inner) % 2 == 0 {
                let _ = b.get(inner);
            }
        }),
    );
    assert_eq!(n.get(), 1);

    // The condition becomes true: the effect now reads `b` when it runs.
    a.set(&mut rt, 2, BUDGET);
    assert_eq!(n.get(), 2);

    // Still, a change of `b` does not reach the effect.
    b.set(&mut rt, 7, BUDGET);
    assert_eq!(n.get(), 2);

    // A change of `a` always does.
    a.set(&mut rt, 3, BUDGET);
    assert_eq!(n.get(), 3);
}

#[test]
fn effects_run_in_the_order_of_their_first_read() {
    let mut rt: Rt<i32> = ReactiveRuntime::new(0);
    let cell = Signal::new(rt.inner(), 0);
    let order = Rc::new(RefCell::new(Vec::new()));
    for name in ["a", "b", "c"] {
        let log = order.clone();
        Effect::new(
            &mut rt,
            Box::new(move |inner: &mut RuntimeInner<i32>| {
                let _ = cell.get(inner);
                log.borrow_mut().push(name);
            }),
        );
    }
    order.borrow_mut().clear();
    assert_eq!(cell.set(&mut rt, 1, BUDGET), 3);
    assert_eq!(*order.borrow(), vec!["a", "b", "c"]);
}

#[test]
fn effect_behind_a_memo_sees_the_new_value() {
    let mut rt: Rt<i32> = ReactiveRuntime::new(0);
    let cell = Signal::new(rt.inner(), 1);
    let doubled = Memo::new(rt.inner(), move |inner: &mut RuntimeInner<i32>| cell.get(inner) * 2);
    let seen = Rc::new(Cell::new(0));
    let seen_clone = seen.clone();
    Effect::new(
        &mut rt,
        Box::new(move |inner: &mut RuntimeInner<i32>| seen_clone.set(doubled.get(inner))),
    );
    assert_eq!(seen.get(), 2);

    assert_eq!(cell.set(&mut rt, 5, BUDGET), 1);
    assert_eq!(seen.get(), 10);
    assert_eq!(cell.set(&mut rt, 6, BUDGET), 1);
    assert_eq!(seen.get(), 12);
}

#[test]
fn diamond_runs_the_effect_once_for_each_path() {
    let mut rt: Rt<i32> = ReactiveRuntime::new(0);
    let cell = Signal::new(rt.inner(), 1);
    let left = Memo::new(rt.inner(), move |inner: &mut RuntimeInner<i32>| cell.get(inner) + 1);
    let right = Memo::new(rt.inner(), move |inner: &mut RuntimeInner<i32>| cell.get(inner) * 2);
    let sums = Rc::new(RefCell::new(Vec::new()));
    let log = sums.clone();
    Effect::new(
        &mut rt,
        Box::new(move |inner: &mut RuntimeInner<i32>| {
            let sum = left.get(inner) + right.get(inner);
            log.borrow_mut().push(sum);
        }),
    );
    assert_eq!(*sums.borrow(), vec![4]);
    // Reached through `left`, then through `right`; both memos are dirty
    // before the effect runs, so both runs see the new values.
    assert_eq!(cell.set(&mut rt, 2, BUDGET), 2);
    assert_eq!(*sums.borrow(), vec![4, 7, 7]);
}

#[test]
fn write_by_an_effect_reaches_further_effects() {
    let mut rt: Rt<i32> = ReactiveRuntime::new(0);
    let celsius = Signal::new(rt.inner(), 0);
    let fahrenheit = Signal::new(rt.inner(), 32);
    let shown = Rc::new(Cell::new(0));
    Effect::new(
        &mut rt,
        Box::new(move |inner: &mut RuntimeInner<i32>| {
            let c = celsius.get(inner);
            fahrenheit.write(inner, c * 9 / 5 + 32);
        }),
    );
    // The write of the first run has left nothing due: nobody read the cell.
    assert_eq!(rt.inner().due(), 0);
    let display = shown.clone();
    Effect::new(
        &mut rt,
        Box::new(move |inner: &mut RuntimeInner<i32>| display.set(fahrenheit.get(inner))),
    );
    assert_eq!(shown.get(), 32);

    assert_eq!(celsius.set(&mut rt, 100, BUDGET), 2);
    assert_eq!(shown.get(), 212);
}

#[test]
fn write_returns_when_the_budget_is_used_up() {
    let mut rt: Rt<i32> = ReactiveRuntime::new(0);
    let cell = Signal::new(rt.inner(), 0);
    // An effect that writes what it reads sets itself off again and again.
    Effect::new(
        &mut rt,
        Box::new(move |inner: &mut RuntimeInner<i32>| {
            let value = cell.get(inner);
            cell.write(inner, value + 1);
        }),
    );
    assert_eq!(cell.get(rt.inner()), 1);
    // The first run has left the effect due.
    assert_eq!(rt.inner().due(), 1);
    assert_eq!(rt.settle(5), 5);
    assert_eq!(cell.get(rt.inner()), 6);
    assert_eq!(rt.inner().due(), 1);
    assert_eq!(cell.set(&mut rt, 0, 3), 3);
    assert_eq!(rt.settle(0), 0);
}

#[test]
fn run_triggers_the_body_by_hand() {
    let mut rt: Rt<i32> = ReactiveRuntime::new(0);
    let cell = Signal::new(rt.inner(), 0);
    let (effect, runs) = counting(&mut rt, cell);
    effect.run(&mut rt);
    effect.run(&mut rt);
    assert_eq!(runs.get(), 3);
    assert_eq!(rt.inner().dependents(cell.id()), vec![effect.id()]);
}

#[test]
fn effect_removed_by_a_body_while_it_is_due_does_not_run() {
    let mut rt: Rt<i32> = ReactiveRuntime::new(0);
    let cell = Signal::new(rt.inner(), 0);
    let victim = Rc::new(Cell::new(usize::MAX));
    let target = victim.clone();
    // The first effect removes the second one when the cell is positive.
    Effect::new(
        &mut rt,
        Box::new(move |inner: &mut RuntimeInner<i32>| {
            if cell.get(inner) > 0 {
                inner.remove_observer(target.get());
            }
        }),
    );
    let (second, runs) = counting(&mut rt, cell);
    victim.set(second.id());
    assert_eq!(runs.get(), 1);

    // Both are due; the first has its turn first and removes the second.
    assert_eq!(cell.set(&mut rt, 1, BUDGET), 2);
    assert_eq!(runs.get(), 1);
    assert!(!rt.inner().is_effect(second.id()));
    assert_eq!(cell.set(&mut rt, 2, BUDGET), 1);
    assert_eq!(runs.get(), 1);
}
