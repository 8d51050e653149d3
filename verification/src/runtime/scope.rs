//! Which runtime is current: a stack of scoped runtimes over one global
//! runtime that is made when it is first asked for.

use super::context::RuntimeInner;
use super::reactive::ReactiveRuntime;
use super::state::RuntimeState;
use vstd::prelude::*;

verus! {

/// The runtimes of one thread of control as mathematics.
#[verifier::ext_equal]
pub struct StackState<T> {
    /// The global runtime, once it has been asked for.
    pub global: Option<RuntimeState<T>>,
    /// The scoped runtimes; the last one is the innermost.
    pub scoped: Seq<RuntimeState<T>>,
    /// The serial number that the next new runtime gets.
    pub issued: usize,
}

impl<T> StackState<T> {
    /// No scope is open and the global runtime has not been asked for.
    pub open spec fn fresh() -> Self {
        StackState { global: None, scoped: Seq::empty(), issued: 0 }
    }

    /// The state after one serial number has been handed out. The counter
    /// wraps around at the largest number.
    pub open spec fn issue(self) -> Self {
        StackState {
            issued: if self.issued == usize::MAX {
                0
            } else {
                (self.issued + 1) as usize
            },
            ..self
        }
    }

    /// The state in which the global runtime exists: made now, empty, if it did
    /// not exist before.
    pub open spec fn with_global(self) -> Self {
        match self.global {
            Some(_) => self,
            None => StackState {
                global: Some(RuntimeState::fresh(self.issued)),
                ..self.issue()
            },
        }
    }

    /// The state with `runtime` as the innermost scope.
    pub open spec fn push(self, runtime: RuntimeState<T>) -> Self {
        StackState { scoped: self.scoped.push(runtime), ..self }
    }

    /// The state without its innermost scope, if it has one.
    pub open spec fn pop(self) -> Self {
        if self.scoped.len() > 0 {
            StackState { scoped: self.scoped.drop_last(), ..self }
        } else {
            self
        }
    }

    /// The state with a new, empty runtime as the innermost scope.
    pub open spec fn enter_scope(self) -> Self {
        self.issue().push(RuntimeState::fresh(self.issued))
    }

    /// The current runtime: the innermost scope, or the global runtime where
    /// no scope is open.
    pub open spec fn current(self) -> RuntimeState<T> {
        if self.scoped.len() > 0 {
            self.scoped.last()
        } else {
            self.with_global().global->0
        }
    }

    /// The state with `runtime` in the place of the current runtime.
    pub open spec fn with_current(self, runtime: RuntimeState<T>) -> Self {
        if self.scoped.len() > 0 {
            StackState { scoped: self.scoped.update(self.scoped.len() - 1, runtime), ..self }
        } else {
            StackState { global: Some(runtime), ..self.with_global() }
        }
    }
}

impl<T> StackState<T> {
    /// Every scope starts alike: the current runtime of a new scope is the
    /// empty runtime, with ids from zero, whatever happened in the scopes
    /// before it or around it; and closing the scope leaves the stack as it
    /// was, but for the serial number that the scope used up.
    pub proof fn lemma_scope_starts_fresh(self)
        ensures
            self.enter_scope().current() == RuntimeState::<T>::fresh(self.issued),
            self.enter_scope().current().next_id == 0,
            self.enter_scope().pop() == self.issue(),
            forall|runtime: RuntimeState<T>|
                (#[trigger] self.enter_scope().with_current(runtime)).pop() == self.issue(),
    {
        let entered = self.enter_scope();
        assert(entered.scoped.drop_last() =~= self.scoped);
        assert forall|runtime: RuntimeState<T>|
            (#[trigger] entered.with_current(runtime)).pop() == self.issue() by {
            assert(entered.with_current(runtime).scoped.drop_last() =~= self.scoped);
        }
    }
}

/// The runtimes of one thread of control: the scopes that are open, innermost
/// last, over the global runtime.
pub struct RuntimeStack<T, F, W, M, Z> {
    global: Option<ReactiveRuntime<T, F, W, M, Z>>,
    scoped: Vec<ReactiveRuntime<T, F, W, M, Z>>,
    issued: usize,
}

impl<
    T: Clone,
    F: Fn(&mut RuntimeInner<T>),
    W: Fn(T),
    M: Fn(&T) -> T,
    Z: Fn(&T, &T) -> T,
> View for RuntimeStack<T, F, W, M, Z> {
    type V = StackState<T>;

    closed spec fn view(&self) -> StackState<T> {
        StackState {
            global: match self.global {
                Some(runtime) => Some(runtime.state()),
                None => None,
            },
            scoped: self.scoped@.map_values(|runtime: ReactiveRuntime<T, F, W, M, Z>| runtime.state()),
            issued: self.issued,
        }
    }
}

impl<
    T: Clone,
    F: Fn(&mut RuntimeInner<T>),
    W: Fn(T),
    M: Fn(&T) -> T,
    Z: Fn(&T, &T) -> T,
> RuntimeStack<T, F, W, M, Z> {
    /// In every runtime of the stack, every body, callback and function that
    /// the runtime keeps can run.
    pub closed spec fn total(&self) -> bool {
        &&& self.global is Some ==> self.global->0.total()
        &&& forall|i: int| 0 <= i < self.scoped.len() ==> (#[trigger] self.scoped[i]).total()
    }

    /// A stack with no open scope and no global runtime yet.
    pub fn new() -> (stack: Self)
        ensures
            stack@ == StackState::<T>::fresh(),
            stack.total(),
    {
        let stack = RuntimeStack { global: None, scoped: Vec::new(), issued: 0 };
        assert(stack@.scoped =~= Seq::empty());
        stack
    }

    /// How many scopes are open.
    pub fn depth(&self) -> (depth: usize)
        ensures
            depth == self@.scoped.len(),
    {
        self.scoped.len()
    }

    /// Closes the innermost scopes until no more than `depth` are open: the
    /// way back after a scope was left without being closed.
    pub fn close_to(&mut self, depth: usize)
        ensures
            final(self)@ == (StackState {
                scoped: if depth < old(self)@.scoped.len() {
                    old(self)@.scoped.take(depth as int)
                } else {
                    old(self)@.scoped
                },
                ..old(self)@
            }),
            old(self).total() ==> final(self).total(),
    {
        self.scoped.truncate(depth);
        proof {
            if depth < old(self)@.scoped.len() {
                assert(self@.scoped =~= old(self)@.scoped.take(depth as int));
            } else {
                assert(self@.scoped =~= old(self)@.scoped);
            }
        }
    }

    /// Hands out the next serial number.
    fn issue(&mut self) -> (serial: usize)
        ensures
            serial == old(self)@.issued,
            final(self)@ == old(self)@.issue(),
            old(self).total() ==> final(self).total(),
    {
        let serial = self.issued;
        self.issued = if serial == usize::MAX {
            0
        } else {
            serial + 1
        };
        serial
    }
}

impl<
    T: Clone,
    F: Fn(&mut RuntimeInner<T>),
    W: Fn(T),
    M: Fn(&T) -> T,
    Z: Fn(&T, &T) -> T,
> ReactiveRuntime<T, F, W, M, Z> {
    /// The global runtime, made now if it has not been asked for before.
    pub fn global(stack: &mut RuntimeStack<T, F, W, M, Z>) -> (runtime: &mut ReactiveRuntime<T, F, W, M, Z>)
        ensures
            Some(runtime.state()) == old(stack)@.with_global().global,
            final(stack)@ == (StackState {
                global: Some(final(runtime).state()),
                ..old(stack)@.with_global()
            }),
            old(stack).total() ==> runtime.total(),
            old(stack).total() && final(runtime).total() ==> final(stack).total(),
    {
        if stack.global.is_none() {
            let serial = stack.issue();
            stack.global = Some(ReactiveRuntime::new(serial));
        }
        match &mut stack.global {
            Some(runtime) => runtime,
            None => vstd::pervasive::unreached(),
        }
    }

    /// The current runtime: the innermost open scope, or the global runtime
    /// where no scope is open.
    pub fn current(stack: &mut RuntimeStack<T, F, W, M, Z>) -> (runtime: &mut ReactiveRuntime<T, F, W, M, Z>)
        ensures
            runtime.state() == old(stack)@.current(),
            final(stack)@ == old(stack)@.with_current(final(runtime).state()),
            old(stack).total() ==> runtime.total(),
            old(stack).total() && final(runtime).total() ==> final(stack).total(),
    {
        let depth = stack.scoped.len();
        if depth > 0 {
            &mut stack.scoped[depth - 1]
        } else {
            Self::global(stack)
        }
    }

    /// Runs `f` with `runtime` as the innermost scope, closes that scope again
    /// and returns what `f` returned together with the runtime that the scope
    /// held at the end.
    pub fn with_runtime<R, G: FnOnce(&mut RuntimeStack<T, F, W, M, Z>) -> R>(
        stack: &mut RuntimeStack<T, F, W, M, Z>,
        runtime: ReactiveRuntime<T, F, W, M, Z>,
        f: G,
    ) -> (result: (R, Option<ReactiveRuntime<T, F, W, M, Z>>))
        requires
            forall|inner: &mut RuntimeStack<T, F, W, M, Z>|
                inner@ == old(stack)@.push(runtime.state()) && (old(stack).total()
                    && runtime.total() ==> inner.total()) ==> #[trigger] f.requires((inner,)),
        ensures
            exists|inner: &mut RuntimeStack<T, F, W, M, Z>|
                {
                    &&& inner@ == old(stack)@.push(runtime.state())
                    &&& old(stack).total() && runtime.total() ==> inner.total()
                    &&& #[trigger] f.ensures((inner,), result.0)
                    &&& final(stack)@ == final(inner)@.pop()
                    &&& final(inner).total() ==> final(stack).total()
                    &&& match result.1 {
                        Some(closed) => final(inner)@.scoped.len() > 0
                            && closed.state() == final(inner)@.scoped.last(),
                        None => final(inner)@.scoped.len() == 0,
                    }
                },
    {
        stack.scoped.push(runtime);
        assert(stack@.scoped =~= old(stack)@.push(runtime.state()).scoped);
        assert(stack@ == old(stack)@.push(runtime.state()));
        let result = f(stack);
        let ghost after = stack@;
        let ghost entered = *stack;
        let ghost inner = choose|inner: &mut RuntimeStack<T, F, W, M, Z>|
            inner@ == old(stack)@.push(runtime.state()) && (old(stack).total() && runtime.total()
                ==> inner.total()) && #[trigger] f.ensures((inner,), result) && final(inner)@
                == after && *final(inner) == entered;
        let closed = stack.scoped.pop();
        proof {
            assert(stack@.scoped =~= after.pop().scoped);
            assert(stack@ == after.pop());
            if closed is Some {
                assert(closed->0.state() == after.scoped.last());
            }
        }
        let out = (result, closed);
        assert(f.ensures((inner,), out.0));
        out
    }

    /// Runs `f` with a new, empty runtime as the innermost scope, and closes
    /// that scope again, so that nothing `f` did in it is left.
    pub fn scope<R, G: FnOnce(&mut RuntimeStack<T, F, W, M, Z>) -> R>(
        stack: &mut RuntimeStack<T, F, W, M, Z>,
        f: G,
    ) -> (result: R)
        requires
            forall|inner: &mut RuntimeStack<T, F, W, M, Z>|
                inner@ == old(stack)@.enter_scope() && (old(stack).total() ==> inner.total())
                    ==> #[trigger] f.requires((inner,)),
        ensures
            exists|inner: &mut RuntimeStack<T, F, W, M, Z>|
                {
                    &&& inner@ == old(stack)@.enter_scope()
                    &&& old(stack).total() ==> inner.total()
                    &&& #[trigger] f.ensures((inner,), result)
                    &&& final(stack)@ == final(inner)@.pop()
                    &&& final(inner).total() ==> final(stack).total()
                },
    {
        let serial = stack.issue();
        let runtime = ReactiveRuntime::new(serial);
        let (result, _) = Self::with_runtime(stack, runtime, f);
        result
    }
}

} // verus!
