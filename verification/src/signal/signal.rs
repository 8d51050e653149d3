//! Observable cells.

use crate::runtime::context::RuntimeInner;
use crate::runtime::reactive::{Mapping, ReactiveRuntime, Watcher, Zipping};
use crate::runtime::state::RuntimeState;
use std::marker::PhantomData;
use vstd::prelude::*;

verus! {

/// A handle to an observable cell. The payload lives in the runtime that the
/// cell was made in; the handle holds the cell's id and can be copied freely.
pub struct Signal<T> {
    id: usize,
    _payload: PhantomData<T>,
}

impl<T> Clone for Signal<T> {
    fn clone(&self) -> (copy: Self)
        ensures
            copy == *self,
    {
        Signal { id: self.id, _payload: PhantomData }
    }
}

impl<T> Copy for Signal<T> {

}

impl<T> View for Signal<T> {
    type V = usize;

    /// The id of the cell.
    closed spec fn view(&self) -> usize {
        self.id
    }
}

impl<T: Clone> Signal<T> {
    /// Makes a cell that holds `initial`, under the next id of `inner`.
    pub fn new(inner: &mut RuntimeInner<T>, initial: T) -> (signal: Self)
        ensures
            signal@ == old(inner)@.next_id,
            final(inner)@ == old(inner)@.allocate().write(signal@, initial),
    {
        let id = inner.next_id();
        inner.store_value(id, initial);
        Signal { id, _payload: PhantomData }
    }

    /// A copy of the payload. The read is attributed to the active observer.
    pub fn get(&self, inner: &mut RuntimeInner<T>) -> (value: T)
        requires
            old(inner)@.values.contains_key(self@),
        ensures
            cloned(old(inner)@.values[self@], value),
            final(inner)@ == old(inner)@.track_read(self@),
    {
        inner.track_read(self.id);
        match inner.value(self.id) {
            Some(payload) => payload.clone(),
            None => vstd::pervasive::unreached(),
        }
    }

    /// Hands the payload to `f` by reference and returns what `f` returns.
    /// The read is attributed to the active observer.
    pub fn with<R, G: FnOnce(&T) -> R>(&self, inner: &mut RuntimeInner<T>, f: G) -> (result: R)
        requires
            old(inner)@.values.contains_key(self@),
            f.requires((&old(inner)@.values[self@],)),
        ensures
            f.ensures((&old(inner)@.values[self@],), result),
            final(inner)@ == old(inner)@.track_read(self@),
    {
        inner.track_read(self.id);
        match inner.value(self.id) {
            Some(payload) => f(payload),
            None => vstd::pervasive::unreached(),
        }
    }

    /// The id of the cell.
    pub fn id(&self) -> (id: usize)
        ensures
            id == self@,
    {
        self.id
    }

    /// The write that a body makes: replaces the payload and tells the
    /// dependents of the cell. Every memo reached is dirty at once; the
    /// effects reached are due, and get their turn from the write or the
    /// `settle` that is under way.
    pub fn write(&self, inner: &mut RuntimeInner<T>, new_value: T)
        ensures
            final(inner)@ == old(inner)@.write(self@, new_value).notify(self@),
            final(inner)@.values == old(inner)@.values.insert(self@, new_value),
    {
        inner.store_value(self.id, new_value);
        inner.invalidate(self.id);
    }

    /// Replaces the payload, tells the dependents of the cell, and runs the
    /// effects that are due, as `settle` does: when this returns with fewer
    /// turns than `budget`, every memo reached is dirty and every effect
    /// reached has run, once for every time it was reached.
    pub fn set<
        F: Fn(&mut RuntimeInner<T>),
        W: Fn(T),
        M: Fn(&T) -> T,
        Z: Fn(&T, &T) -> T,
    >(
        &self,
        rt: &mut ReactiveRuntime<T, F, W, M, Z>,
        new_value: T,
        budget: usize,
    ) -> (runs: usize)
        requires
            old(rt).total(),
        ensures
            final(rt).same_observers(old(rt)),
            final(rt).total(),
            runs <= budget,
            runs < budget ==> final(rt).state().due.len() == 0,
            exists|states: Seq<RuntimeState<T>>|
                {
                    &&& states.len() == runs + 1
                    &&& states[0] == old(rt).state().write(self@, new_value).notify(self@)
                    &&& states[runs as int] == final(rt).state()
                    &&& forall|i: int|
                        0 <= i < runs ==> {
                            &&& (#[trigger] states[i]).due.len() > 0
                            &&& if old(rt).runs_body(states[i].due[0], states[i]) {
                                exists|inner: &mut RuntimeInner<T>|
                                    {
                                        &&& inner@ == states[i].take_due()
                                        &&& #[trigger] old(rt).bodies()[states[i].due[0]].ensures(
                                            (inner,),
                                            (),
                                        )
                                        &&& final(inner)@ == states[i + 1]
                                    }
                            } else {
                                old(rt).reacts(states[i].due[0], states[i].take_due(), states[i + 1])
                            }
                        }
                },
    {
        self.write(rt.inner(), new_value);
        rt.settle(budget)
    }

    /// Lets `f` change the payload in place, then tells the dependents of the
    /// cell and runs the effects that are due, as `set` does.
    pub fn update<
        G: FnOnce(&mut T),
        F: Fn(&mut RuntimeInner<T>),
        W: Fn(T),
        M: Fn(&T) -> T,
        Z: Fn(&T, &T) -> T,
    >(
        &self,
        rt: &mut ReactiveRuntime<T, F, W, M, Z>,
        f: G,
        budget: usize,
    ) -> (runs: usize)
        requires
            old(rt).total(),
            old(rt).state().values.contains_key(self@),
            forall|payload: &mut T|
                *payload == old(rt).state().values[self@] ==> #[trigger] f.requires((payload,)),
        ensures
            final(rt).same_observers(old(rt)),
            final(rt).total(),
            runs <= budget,
            runs < budget ==> final(rt).state().due.len() == 0,
            exists|payload: &mut T|
                {
                    &&& *payload == old(rt).state().values[self@]
                    &&& #[trigger] f.ensures((payload,), ())
                    &&& exists|states: Seq<RuntimeState<T>>|
                {
                    &&& states.len() == runs + 1
                    &&& states[0] == old(rt).state().write(self@, *final(payload)).notify(self@)
                    &&& states[runs as int] == final(rt).state()
                    &&& forall|i: int|
                        0 <= i < runs ==> {
                            &&& (#[trigger] states[i]).due.len() > 0
                            &&& if old(rt).runs_body(states[i].due[0], states[i]) {
                                exists|inner: &mut RuntimeInner<T>|
                                    {
                                        &&& inner@ == states[i].take_due()
                                        &&& #[trigger] old(rt).bodies()[states[i].due[0]].ensures(
                                            (inner,),
                                            (),
                                        )
                                        &&& final(inner)@ == states[i + 1]
                                    }
                            } else {
                                old(rt).reacts(
                                    states[i].due[0],
                                    states[i].take_due(),
                                    states[i + 1],
                                )
                            }
                        }
                }
                },
    {
        let inner = rt.inner();
        match inner.take_value(self.id) {
            Some(mut payload) => {
                f(&mut payload);
                inner.store_value(self.id, payload);
                assert(inner@.values =~= old(rt).state().values.insert(self@, payload));
                assert(inner@ == old(rt).state().write(self@, payload));
                inner.invalidate(self.id);
            },
            None => vstd::pervasive::unreached(),
        }
        rt.settle(budget)
    }

    /// Subscribes `callback` to the cell: registers it as an effect that
    /// depends on this cell alone, and calls it once, now, with a copy of the
    /// payload. The runtime keeps the callback and calls it again, with a copy
    /// of the payload as it is then, whenever a write reaches it.
    pub fn watch<
        F: Fn(&mut RuntimeInner<T>),
        W: Fn(T),
        M: Fn(&T) -> T,
        Z: Fn(&T, &T) -> T,
    >(
        &self,
        rt: &mut ReactiveRuntime<T, F, W, M, Z>,
        callback: W,
    ) -> (guard: WatchGuard)
        requires
            old(rt).state().values.contains_key(self@),
            forall|value: T|
                cloned(old(rt).state().values[self@], value) ==> #[trigger] callback.requires(
                    (value,),
                ),
        ensures
            guard@ == old(rt).state().next_id,
            guard.issuer() == old(rt).state().serial,
            final(rt).state() == old(rt).state().begin_watch(self@),
            final(rt).watchers() == old(rt).watchers().insert(
                guard@,
                (Watcher { cell: self@, callback }),
            ),
            final(rt).bodies() == old(rt).bodies().remove(guard@),
            final(rt).maps() == old(rt).maps().remove(guard@),
            final(rt).zips() == old(rt).zips().remove(guard@),
            old(rt).total() && (forall|value: T| #[trigger] callback.requires((value,)))
                ==> final(rt).total(),
            exists|value: T|
                cloned(old(rt).state().values[self@], value) && #[trigger] callback.ensures(
                    (value,),
                    (),
                ),
    {
        let issuer = rt.serial();
        let observer_id = rt.watch(self.id, callback);
        WatchGuard { observer_id, issuer }
    }

    /// Derives a cell that holds `f` of this cell's payload. The derived cell
    /// is made from the payload as it is now; an effect that depends on this
    /// cell is registered and given its first turn. The runtime keeps `f`, and
    /// whenever a write reaches the effect it writes `f` of the payload as it
    /// is then to the derived cell.
    pub fn map<
        F: Fn(&mut RuntimeInner<T>),
        W: Fn(T),
        M: Fn(&T) -> T,
        Z: Fn(&T, &T) -> T,
    >(&self, rt: &mut ReactiveRuntime<T, F, W, M, Z>, f: M) -> (derived: Derived<T>)
        requires
            old(rt).state().values.contains_key(self@),
            forall|value: T|
                cloned(old(rt).state().values[self@], value) ==> #[trigger] f.requires((&value,)),
            forall|first: T, made: T, value: T|
                #![trigger f.ensures((&first,), made), f.requires((&value,))]
                cloned(old(rt).state().values[self@], first) && f.ensures((&first,), made)
                    && cloned(
                    old(rt).state().write(old(rt).state().next_id, made).values[self@],
                    value,
                ) ==> f.requires((&value,)),
        ensures
            derived.signal()@ == old(rt).state().next_id,
            derived@ == old(rt).state().allocate().next_id,
            derived.issuer() == old(rt).state().serial,
            final(rt).maps() == old(rt).maps().insert(
                derived@,
                (Mapping { source: self@, target: derived.signal()@, f }),
            ),
            final(rt).bodies() == old(rt).bodies().remove(derived@),
            final(rt).watchers() == old(rt).watchers().remove(derived@),
            final(rt).zips() == old(rt).zips().remove(derived@),
            old(rt).total() && (forall|value: T| #[trigger] f.requires((&value,)))
                ==> final(rt).total(),
            exists|first: T, made: T, second: T|
                {
                    &&& cloned(old(rt).state().values[self@], first)
                    &&& #[trigger] f.ensures((&first,), made)
                    &&& cloned(
                        old(rt).state().write(derived.signal()@, made).values[self@],
                        second,
                    )
                    &&& #[trigger] f.ensures(
                        (&second,),
                        final(rt).state().values[derived.signal()@],
                    )
                    &&& final(rt).state() == old(rt).state().derive(
                        self@,
                        final(rt).state().values[derived.signal()@],
                    )
                },
    {
        let issuer = rt.serial();
        let (cell, observer_id) = rt.derive(self.id, f);
        Derived { signal: Signal { id: cell, _payload: PhantomData }, observer_id, issuer }
    }

    /// Derives a cell that holds `combine` of this cell's payload and the
    /// payload of `other`: as `map`, with both cells read, this one first.
    pub fn zip<
        F: Fn(&mut RuntimeInner<T>),
        W: Fn(T),
        M: Fn(&T) -> T,
        Z: Fn(&T, &T) -> T,
    >(
        self,
        rt: &mut ReactiveRuntime<T, F, W, M, Z>,
        other: Signal<T>,
        combine: Z,
    ) -> (derived: Derived<T>)
        requires
            old(rt).state().values.contains_key(self@),
            old(rt).state().values.contains_key(other@),
            forall|a: T, b: T|
                cloned(old(rt).state().values[self@], a) && cloned(
                    old(rt).state().values[other@],
                    b,
                ) ==> #[trigger] combine.requires((&a, &b)),
            forall|a: T, b: T, made: T, a_again: T, b_again: T|
                #![trigger combine.ensures((&a, &b), made), combine.requires((&a_again, &b_again))]
                cloned(old(rt).state().values[self@], a) && cloned(
                    old(rt).state().values[other@],
                    b,
                ) && combine.ensures((&a, &b), made) && cloned(
                    old(rt).state().write(old(rt).state().next_id, made).values[self@],
                    a_again,
                ) && cloned(
                    old(rt).state().write(old(rt).state().next_id, made).values[other@],
                    b_again,
                ) ==> combine.requires((&a_again, &b_again)),
        ensures
            derived.signal()@ == old(rt).state().next_id,
            derived@ == old(rt).state().allocate().next_id,
            derived.issuer() == old(rt).state().serial,
            final(rt).zips() == old(rt).zips().insert(
                derived@,
                (Zipping { left: self@, right: other@, target: derived.signal()@, combine }),
            ),
            final(rt).bodies() == old(rt).bodies().remove(derived@),
            final(rt).watchers() == old(rt).watchers().remove(derived@),
            final(rt).maps() == old(rt).maps().remove(derived@),
            old(rt).total() && (forall|a: T, b: T| #[trigger] combine.requires((&a, &b)))
                ==> final(rt).total(),
            exists|a: T, b: T, made: T, a_again: T, b_again: T|
                {
                    &&& cloned(old(rt).state().values[self@], a)
                    &&& cloned(old(rt).state().values[other@], b)
                    &&& #[trigger] combine.ensures((&a, &b), made)
                    &&& cloned(
                        old(rt).state().write(derived.signal()@, made).values[self@],
                        a_again,
                    )
                    &&& cloned(
                        old(rt).state().write(derived.signal()@, made).values[other@],
                        b_again,
                    )
                    &&& #[trigger] combine.ensures(
                        (&a_again, &b_again),
                        final(rt).state().values[derived.signal()@],
                    )
                    &&& final(rt).state() == old(rt).state().derive_pair(
                        self@,
                        other@,
                        final(rt).state().values[derived.signal()@],
                    )
                },
    {
        let issuer = rt.serial();
        let (cell, observer_id) = rt.derive_pair(self.id, other.id, combine);
        Derived { signal: Signal { id: cell, _payload: PhantomData }, observer_id, issuer }
    }
}

/// The registration of a watcher.
pub struct WatchGuard {
    observer_id: usize,
    issuer: usize,
}

impl View for WatchGuard {
    type V = usize;

    /// The id of the watcher.
    closed spec fn view(&self) -> usize {
        self.observer_id
    }
}

impl WatchGuard {
    /// The serial number of the runtime that the watcher was made in.
    pub closed spec fn issuer(&self) -> usize {
        self.issuer
    }

    /// Unsubscribes: in the runtime that it was made in, the record of the
    /// observer, what the runtime kept for it and all its edges are removed.
    /// Any other runtime is left as it is.
    pub fn dispose<
        T: Clone,
        F: Fn(&mut RuntimeInner<T>),
        W: Fn(T),
        M: Fn(&T) -> T,
        Z: Fn(&T, &T) -> T,
    >(self, rt: &mut ReactiveRuntime<T, F, W, M, Z>)
        ensures
            old(rt).state().serial == self.issuer() ==> {
                &&& final(rt).state() == old(rt).state().remove_observer(self@)
                &&& final(rt).bodies() == old(rt).bodies().remove(self@)
                &&& final(rt).watchers() == old(rt).watchers().remove(self@)
                &&& final(rt).maps() == old(rt).maps().remove(self@)
                &&& final(rt).zips() == old(rt).zips().remove(self@)
            },
            old(rt).state().serial != self.issuer() ==> {
                &&& final(rt).state() == old(rt).state()
                &&& final(rt).same_observers(old(rt))
            },
            old(rt).total() ==> final(rt).total(),
    {
        if rt.serial() == self.issuer {
            rt.remove_observer(self.observer_id);
        }
    }

    /// The id of the watcher.
    pub fn id(&self) -> (id: usize)
        ensures
            id == self@,
    {
        self.observer_id
    }
}

/// A derived cell together with the registration of the effect that keeps it
/// up to date.
pub struct Derived<T> {
    signal: Signal<T>,
    observer_id: usize,
    issuer: usize,
}

impl<T> View for Derived<T> {
    type V = usize;

    /// The id of the effect that keeps the derived cell up to date.
    closed spec fn view(&self) -> usize {
        self.observer_id
    }
}

impl<T> Derived<T> {
    /// The derived cell.
    pub closed spec fn signal(&self) -> Signal<T> {
        self.signal
    }

    /// The serial number of the runtime that the cell was derived in.
    pub closed spec fn issuer(&self) -> usize {
        self.issuer
    }

    /// The derived cell.
    pub fn derived(&self) -> (signal: Signal<T>)
        ensures
            signal == self.signal(),
    {
        self.signal
    }

    /// The id of the effect that keeps the derived cell up to date.
    pub fn id(&self) -> (id: usize)
        ensures
            id == self@,
    {
        self.observer_id
    }
}

impl<T: Clone> Derived<T> {
    /// Ends the derivation: in the runtime that it was made in, the record of the
    /// observer, what the runtime kept for it and all its edges are removed.
    /// Any other runtime is left as it is.
    pub fn dispose<
        F: Fn(&mut RuntimeInner<T>),
        W: Fn(T),
        M: Fn(&T) -> T,
        Z: Fn(&T, &T) -> T,
    >(self, rt: &mut ReactiveRuntime<T, F, W, M, Z>)
        ensures
            old(rt).state().serial == self.issuer() ==> {
                &&& final(rt).state() == old(rt).state().remove_observer(self@)
                &&& final(rt).bodies() == old(rt).bodies().remove(self@)
                &&& final(rt).watchers() == old(rt).watchers().remove(self@)
                &&& final(rt).maps() == old(rt).maps().remove(self@)
                &&& final(rt).zips() == old(rt).zips().remove(self@)
            },
            old(rt).state().serial != self.issuer() ==> {
                &&& final(rt).state() == old(rt).state()
                &&& final(rt).same_observers(old(rt))
            },
            old(rt).total() ==> final(rt).total(),
    {
        if rt.serial() == self.issuer {
            rt.remove_observer(self.observer_id);
        }
    }
}

/// Makes a cell that holds `initial` and returns two handles to it, one meant
/// for reading and one meant for writing.
pub fn create_signal<T: Clone>(inner: &mut RuntimeInner<T>, initial: T) -> (handles: (
    Signal<T>,
    Signal<T>,
))
    ensures
        handles.0@ == old(inner)@.next_id,
        handles.1 == handles.0,
        final(inner)@ == old(inner)@.allocate().write(handles.0@, initial),
{
    let signal = Signal::new(inner, initial);
    (signal, signal)
}

} // verus!
