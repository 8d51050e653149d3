use std::cell::Cell;
use std::rc::Rc;
use tincan::runtime::{ReactiveContext, ReactiveRuntime, RuntimeInner, RuntimeStack};
use tincan::{Effect, Memo, Signal};

type Body<T> = Box<dyn Fn(&mut RuntimeInner<T>)>;
type Rt<T> =
    ReactiveRuntime<T, Body<T>, Box<dyn Fn(T)>, Box<dyn Fn(&T) -> T>, Box<dyn Fn(&T, &T) -> T>>;
type Stack<T> =
    RuntimeStack<T, Body<T>, Box<dyn Fn(T)>, Box<dyn Fn(&T) -> T>, Box<dyn Fn(&T, &T) -> T>>;

const BUDGET: usize = 1000;

/// A body that counts its runs.
fn counter() -> (Body<i32>, Rc<Cell<usize>>) {
    let runs = Rc::new(Cell::new(0usize));
    let clone = runs.clone();
    (Box::new(move |_inner: &mut RuntimeInner<i32>| clone.set(clone.get() + 1)), runs)
}

#[test]
fn ids_count_up_from_zero() {
    let mut rt: Rt<i32> = ReactiveRuntime::new(0);
    assert_eq!(rt.next_id(), 0);
    assert_eq!(rt.next_id(), 1);
    assert_eq!(rt.inner().next_id(), 2);
}

#[test]
fn cells_memos_and_effects_share_one_counter() {
    let mut rt: Rt<i32> = ReactiveRuntime::new(0);
    let cell = Signal::new(rt.inner(), 1);
    let memo = Memo::new(rt.inner(), move |inner: &mut RuntimeInner<i32>| cell.get(inner));
    let effect = Effect::new(&mut rt, Box::new(|_inner: &mut RuntimeInner<i32>| {}));
    let guard = cell.watch(&mut rt, Box::new(|_| {}));
    let derived = cell.map(&mut rt, Box::new(|n: &i32| *n));
    assert_eq!((cell.id(), memo.id(), effect.id(), guard.id()), (0, 1, 2, 3));
    assert_eq!((derived.derived().id(), derived.id()), (4, 5));
}

#[test]
fn clear_starts_the_ids_from_zero_and_forgets_the_graph() {
    let mut stack: Stack<i32> = RuntimeStack::new();
    let rt = ReactiveRuntime::global(&mut stack);
    let cell = Signal::new(rt.inner(), 1);
    let (body, runs) = counter();
    let effect = Effect::new(rt, body);
    rt.with_observer(effect.id(), |inner: &mut RuntimeInner<i32>| inner.track_read(cell.id()));
    let memo = Memo::new(rt.inner(), move |inner: &mut RuntimeInner<i32>| cell.get(inner));
    assert_eq!(memo.get(rt.inner()), 1);
    assert_eq!(rt.inner().dependents(cell.id()), vec![effect.id(), memo.id()]);
    cell.write(rt.inner(), 2);
    assert_eq!(rt.inner().due(), 1);

    rt.clear();
    assert_eq!(rt.inner().due(), 0);
    assert!(rt.inner().dependents(cell.id()).is_empty());
    assert!(!rt.inner().is_effect(effect.id()));
    assert!(rt.is_memo_dirty(memo.id()));
    // Payloads stay: the handle still reads what was written.
    assert_eq!(cell.get(rt.inner()), 2);
    assert_eq!(cell.set(rt, 3, BUDGET), 0);
    assert_eq!(runs.get(), 1);
    assert_eq!(rt.next_id(), 0);
}

#[test]
fn scopes_are_isolated_and_start_alike() {
    fn session(stack: &mut Stack<i32>) -> Vec<usize> {
        let rt = ReactiveRuntime::current(stack);
        let a = Signal::new(rt.inner(), 1);
        let b = Signal::new(rt.inner(), 2);
        let runs = Rc::new(Cell::new(0usize));
        let count = runs.clone();
        let effect = Effect::new(
            rt,
            Box::new(move |inner: &mut RuntimeInner<i32>| {
                let _ = a.get(inner);
                let _ = b.get(inner);
                count.set(count.get() + 1);
            }),
        );
        let turns = a.set(rt, 3, BUDGET);
        vec![a.id(), b.id(), effect.id(), turns, runs.get()]
    }

    let mut stack: Stack<i32> = RuntimeStack::new();
    let first = ReactiveRuntime::scope(&mut stack, session);
    let second = ReactiveRuntime::scope(&mut stack, session);
    assert_eq!(first, vec![0, 1, 2, 1, 2]);
    assert_eq!(first, second);
    assert_eq!(stack.depth(), 0);

    // Nothing has leaked into the global runtime.
    let global = ReactiveRuntime::global(&mut stack);
    assert_eq!(global.next_id(), 0);
    assert!(global.inner().dependents(0).is_empty());
}

#[test]
fn current_is_the_innermost_scope_or_the_global_runtime() {
    let mut stack: Stack<i32> = RuntimeStack::new();
    let global_serial = ReactiveRuntime::current(&mut stack).serial();
    assert_eq!(ReactiveRuntime::global(&mut stack).serial(), global_serial);
    ReactiveRuntime::current(&mut stack).next_id();

    let serials = ReactiveRuntime::scope(&mut stack, |stack: &mut Stack<i32>| {
        assert_eq!(stack.depth(), 1);
        let outer = ReactiveRuntime::current(stack).serial();
        assert_eq!(ReactiveRuntime::current(stack).next_id(), 0);
        let inner = ReactiveRuntime::scope(stack, |stack: &mut Stack<i32>| {
            assert_eq!(stack.depth(), 2);
            assert_eq!(ReactiveRuntime::current(stack).next_id(), 0);
            ReactiveRuntime::current(stack).serial()
        });
        // Back in the outer scope, which remembers its own counter.
        assert_eq!(ReactiveRuntime::current(stack).serial(), outer);
        assert_eq!(ReactiveRuntime::current(stack).next_id(), 1);
        // The global runtime can still be reached by name.
        assert_eq!(ReactiveRuntime::global(stack).next_id(), 1);
        (outer, inner)
    });
    assert_ne!(serials.0, serials.1);
    assert_ne!(serials.0, global_serial);
    assert_eq!(stack.depth(), 0);
    assert_eq!(ReactiveRuntime::current(&mut stack).next_id(), 2);
}

#[test]
fn with_runtime_hands_the_runtime_back() {
    let mut stack: Stack<i32> = RuntimeStack::new();
    let runtime: Rt<i32> = ReactiveRuntime::new(77);
    let (answer, closed) =
        ReactiveRuntime::with_runtime(&mut stack, runtime, |stack: &mut Stack<i32>| {
            let rt = ReactiveRuntime::current(stack);
            assert_eq!(rt.serial(), 77);
            let signal = Signal::new(rt.inner(), 42);
            signal.get(rt.inner())
        });
    assert_eq!(answer, 42);
    let mut closed = closed.expect("the scope was open");
    assert_eq!(closed.serial(), 77);
    assert_eq!(closed.inner().value(0), Some(&42));
    assert_eq!(closed.next_id(), 1);
    assert_eq!(stack.depth(), 0);
}

#[test]
fn close_to_closes_the_innermost_scopes() {
    let mut stack: Stack<i32> = RuntimeStack::new();
    let (depth, closed) = ReactiveRuntime::with_runtime(
        &mut stack,
        ReactiveRuntime::new(5),
        |stack: &mut Stack<i32>| {
            stack.close_to(0);
            stack.depth()
        },
    );
    assert_eq!(depth, 0);
    assert!(closed.is_none());

    let (depth, closed) = ReactiveRuntime::with_runtime(
        &mut stack,
        ReactiveRuntime::new(6),
        |stack: &mut Stack<i32>| {
            stack.close_to(7);
            stack.depth()
        },
    );
    assert_eq!(depth, 1);
    assert_eq!(closed.map(|runtime| runtime.serial()), Some(6));
}

#[test]
fn reads_are_attributed_to_the_active_observer() {
    let mut rt: Rt<i32> = ReactiveRuntime::new(0);
    assert_eq!(rt.inner().active_observer(), None);

    // Untracked: nothing is recorded.
    rt.track_read(10);
    assert!(rt.inner().dependents(10).is_empty());

    let seen = rt.with_observer(7, |inner: &mut RuntimeInner<i32>| {
        inner.track_read(10);
        inner.track_read(11);
        inner.track_read(10);
        let nested = inner.with_observer(8, |inner: &mut RuntimeInner<i32>| {
            inner.track_read(10);
            inner.active_observer()
        });
        // The observer that was active before is active again.
        (nested, inner.active_observer())
    });
    assert_eq!(seen, (Some(8), Some(7)));
    assert_eq!(rt.inner().active_observer(), None);
    assert_eq!(rt.inner().dependents(10), vec![7, 8]);
    assert_eq!(rt.inner().dependents(11), vec![7]);
}

#[test]
fn create_observer_keeps_the_body_and_drops_earlier_edges() {
    let mut rt: Rt<i32> = ReactiveRuntime::new(0);
    rt.with_observer(5, |inner: &mut RuntimeInner<i32>| {
        inner.track_read(1);
        inner.track_read(2);
    });
    rt.with_observer(6, |inner: &mut RuntimeInner<i32>| inner.track_read(1));
    assert_eq!(rt.inner().dependents(1), vec![5, 6]);
    assert!(!rt.inner().is_effect(5));

    let (body, runs) = counter();
    rt.create_observer(5, body);
    // Registered, not run, and without the edges of the earlier use.
    assert_eq!(runs.get(), 0);
    assert!(rt.inner().is_effect(5));
    assert_eq!(rt.inner().dependents(1), vec![6]);
    assert!(rt.inner().dependents(2).is_empty());

    rt.with_observer(5, |inner: &mut RuntimeInner<i32>| inner.track_read(2));
    assert_eq!(rt.notify_observers(2, BUDGET), 1);
    assert_eq!(runs.get(), 1);

    rt.remove_observer(5);
    assert!(!rt.inner().is_effect(5));
    assert_eq!(rt.notify_observers(2, BUDGET), 0);
    assert_eq!(runs.get(), 1);
}

#[test]
fn memo_flags() {
    let mut rt: Rt<i32> = ReactiveRuntime::new(0);
    // A memo that nobody registered counts as dirty.
    assert!(rt.is_memo_dirty(9));
    rt.register_memo(9);
    assert!(rt.is_memo_dirty(9));
    rt.mark_memo_clean(9);
    assert!(!rt.is_memo_dirty(9));
    rt.register_memo(9);
    assert!(rt.is_memo_dirty(9));
}

#[test]
fn mark_observer_dirty_goes_through_memos_to_the_effect() {
    let mut stack: Stack<i32> = RuntimeStack::new();
    ReactiveRuntime::scope(&mut stack, |stack: &mut Stack<i32>| {
        let rt = ReactiveRuntime::current(stack);
        rt.register_memo(0);
        rt.register_memo(1);
        rt.mark_memo_clean(0);
        rt.mark_memo_clean(1);
        rt.with_observer(1, |inner: &mut RuntimeInner<i32>| inner.track_read(0));
        let (body, n) = counter();
        rt.create_observer(2, body);
        rt.with_observer(2, |inner: &mut RuntimeInner<i32>| inner.track_read(1));
        assert_eq!(n.get(), 0);

        assert_eq!(rt.mark_observer_dirty(0, BUDGET), 1);
        assert!(rt.is_memo_dirty(0) && rt.is_memo_dirty(1));
        assert_eq!(n.get(), 1);

        // Both memos are dirty already: the propagation stops at the first.
        assert_eq!(rt.mark_observer_dirty(0, BUDGET), 0);
        assert_eq!(n.get(), 1);

        // An effect runs; an unknown observer is passed over.
        assert_eq!(rt.mark_observer_dirty(2, BUDGET), 1);
        assert_eq!(n.get(), 2);
        assert_eq!(rt.mark_observer_dirty(99, BUDGET), 0);
    });
}

#[test]
fn notify_reaches_the_memo_behind_an_effect() {
    let mut rt: Rt<i32> = ReactiveRuntime::new(0);
    // Value 0 is read by memo 1, then effect 2, then memo 3.
    rt.register_memo(1);
    rt.mark_memo_clean(1);
    let (body, runs) = counter();
    rt.create_observer(2, body);
    rt.register_memo(3);
    rt.mark_memo_clean(3);
    for observer in [1, 2, 3] {
        rt.with_observer(observer, |inner: &mut RuntimeInner<i32>| inner.track_read(0));
    }

    rt.inner().invalidate(0);
    // Both memos are dirty before the effect has run.
    assert!(rt.is_memo_dirty(1) && rt.is_memo_dirty(3));
    assert_eq!(runs.get(), 0);
    assert_eq!(rt.inner().due(), 1);
    assert_eq!(rt.settle(BUDGET), 1);
    assert_eq!(runs.get(), 1);

    // The edges are not used up.
    assert_eq!(rt.inner().dependents(0), vec![1, 2, 3]);
    assert_eq!(rt.notify_observers(0, BUDGET), 1);
    assert_eq!(runs.get(), 2);
    // Nobody depends on this value: nothing happens.
    assert_eq!(rt.notify_observers(50, BUDGET), 0);
}

#[test]
fn a_memo_that_is_also_an_effect_counts_as_a_memo() {
    let mut rt: Rt<i32> = ReactiveRuntime::new(0);
    let (body, runs) = counter();
    rt.create_observer(4, body);
    rt.register_memo(4);
    rt.mark_memo_clean(4);
    assert_eq!(rt.mark_observer_dirty(4, BUDGET), 0);
    assert!(rt.is_memo_dirty(4));
    assert_eq!(runs.get(), 0);
}

#[test]
fn state_of_its_own() {
    let mut inner: RuntimeInner<i32> = RuntimeInner::new(3);
    assert_eq!(inner.serial(), 3);
    inner.create_observer(1);
    inner.with_observer(1, |inner: &mut RuntimeInner<i32>| inner.track_read(0));
    inner.invalidate_observer(1);
    assert_eq!(inner.take_due(), Some(1));
    assert_eq!(inner.take_due(), None);
    inner.remove_observer(1);
    inner.invalidate(0);
    assert_eq!(inner.due(), 0);
    inner.clear_dependencies(1);
    inner.clear();
    inner.well_formed();

    let mut context = ReactiveContext::new();
    assert_eq!(context.replace_active(Some(4)), None);
    context.track_read(1);
    context.track_read(1);
    assert_eq!(context.dependents(1), vec![4]);
    assert_eq!(context.active(), Some(4));
    context.create_observer(4);
    assert!(context.is_effect(4));
    assert!(context.dependents(1).is_empty());
    context.track_read(2);
    context.remove_observer(4);
    assert!(!context.is_effect(4));
    assert!(context.dependents(2).is_empty());
    context.register_memo(6);
    assert!(context.is_memo(6));
    context.mark_memo_clean(6);
    assert!(!context.is_memo_dirty(6));
    context.mark_memo_dirty(6);
    assert!(context.is_memo_dirty(6));
    context.clear();
    assert!(!context.is_memo(6));
    assert_eq!(context.active(), None);
}

#[test]
fn untracked_payload_access() {
    let mut rt: Rt<String> = ReactiveRuntime::new(0);
    assert!(!rt.inner().has_value(0));
    assert_eq!(rt.inner().value(0), None);
    let cell = Signal::new(rt.inner(), String::from("a"));
    let observer = rt.next_id();
    rt.with_observer(observer, |inner: &mut RuntimeInner<String>| {
        // Reading through the state records nothing.
        assert_eq!(inner.value(cell.id()), Some(&String::from("a")));
    });
    assert!(rt.inner().dependents(cell.id()).is_empty());

    let memo = Memo::new(rt.inner(), move |inner: &mut RuntimeInner<String>| cell.get(inner));
    assert_eq!(rt.inner().cached_value(memo.id()), None);
    assert_eq!(memo.get(rt.inner()), "a");
    assert_eq!(rt.inner().cached_value(memo.id()), Some(&String::from("a")));
}

#[test]
fn run_observer_skips_a_derived_cell_whose_source_is_gone() {
    let mut rt: Rt<i32> = ReactiveRuntime::new(0);
    // Nothing is kept for this id: nothing happens.
    rt.run_observer(12);
    let cell = Signal::new(rt.inner(), 1);
    let derived = cell.map(&mut rt, Box::new(|n: &i32| n + 1));
    rt.run_observer(derived.id());
    assert_eq!(derived.derived().get(rt.inner()), 2);
}
