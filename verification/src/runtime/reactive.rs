//! The runtime: a state together with the bodies of its effects, and the
//! writes that run them.

use super::context::RuntimeInner;
use super::state::RuntimeState;
use std::collections::HashMap;
use vstd::prelude::*;

verus! {

broadcast use vstd::std_specs::hash::group_hash_axioms;

/// A reactive runtime. It keeps the bodies of its effects, so that a write
/// runs the effects it reaches before it returns. A body is handed the state
/// of the runtime, not the runtime: what a body writes is told to the memos at
/// once, and the effects it reaches run behind those that are due already.
pub struct ReactiveRuntime<T, F, W, M, Z> {
    inner: RuntimeInner<T>,
    observers: HashMap<usize, F>,
    watchers: HashMap<usize, Watcher<W>>,
    maps: HashMap<usize, Mapping<M>>,
    zips: HashMap<usize, Zipping<Z>>,
}

/// A callback subscribed to a cell.
pub struct Watcher<W> {
    /// The cell that is watched.
    pub cell: usize,
    /// What is called with a copy of the payload.
    pub callback: W,
}

/// The rule by which a cell is derived from one other cell.
pub struct Mapping<M> {
    /// The cell that is read.
    pub source: usize,
    /// The cell that is written.
    pub target: usize,
    /// What turns the payload of the source into the payload of the target.
    pub f: M,
}

/// The rule by which a cell is derived from two other cells.
pub struct Zipping<Z> {
    /// The first cell that is read.
    pub left: usize,
    /// The second cell that is read.
    pub right: usize,
    /// The cell that is written.
    pub target: usize,
    /// What turns the two payloads into the payload of the target.
    pub combine: Z,
}

impl<
    T: Clone,
    F: Fn(&mut RuntimeInner<T>),
    W: Fn(T),
    M: Fn(&T) -> T,
    Z: Fn(&T, &T) -> T,
> ReactiveRuntime<T, F, W, M, Z> {
    /// The state of the runtime.
    pub closed spec fn state(&self) -> RuntimeState<T> {
        self.inner@
    }

    /// The body of each effect.
    pub closed spec fn bodies(&self) -> Map<usize, F> {
        self.observers@
    }

    /// The watcher behind each id that stands for one.
    pub closed spec fn watchers(&self) -> Map<usize, Watcher<W>> {
        self.watchers@
    }

    /// The rule behind each id that keeps a cell derived from one other cell
    /// up to date.
    pub closed spec fn maps(&self) -> Map<usize, Mapping<M>> {
        self.maps@
    }

    /// The rule behind each id that keeps a cell derived from two other cells
    /// up to date.
    pub closed spec fn zips(&self) -> Map<usize, Zipping<Z>> {
        self.zips@
    }

    /// Nothing that the runtime keeps for its observers has changed.
    pub open spec fn same_observers(&self, earlier: &Self) -> bool {
        &&& self.bodies() == earlier.bodies()
        &&& self.watchers() == earlier.watchers()
        &&& self.maps() == earlier.maps()
        &&& self.zips() == earlier.zips()
    }

    /// Every body can run in every state, and every callback and function
    /// accepts every value.
    pub open spec fn total(&self) -> bool {
        &&& forall|id: usize, inner: &mut RuntimeInner<T>|
            self.bodies().contains_key(id) ==> #[trigger] self.bodies()[id].requires((inner,))
        &&& forall|id: usize, value: T|
            self.watchers().contains_key(id) ==> #[trigger] self.watchers()[id].callback.requires(
                (value,),
            )
        &&& forall|id: usize, value: T|
            self.maps().contains_key(id) ==> #[trigger] self.maps()[id].f.requires((&value,))
        &&& forall|id: usize, left: T, right: T|
            self.zips().contains_key(id) ==> #[trigger] self.zips()[id].combine.requires(
                (&left, &right),
            )
    }

    /// Whether the turn of effect `id` in state `state` runs a body: the
    /// effect is still registered, and the runtime keeps a body for it.
    pub open spec fn runs_body(&self, id: usize, state: RuntimeState<T>) -> bool {
        state.registry.is_effect(id) && self.bodies().contains_key(id)
    }

    /// What the turn of an effect that has no body of its own does to the
    /// state: a watcher's callback is called with a copy of the payload of its
    /// cell; a derived cell is written with what its function makes of
    /// copies of the payloads of its sources, which are read, and its
    /// dependents are told; where a cell that is needed has no payload, and
    /// where the runtime keeps nothing for the effect, or the effect is no
    /// longer registered, nothing happens.
    pub open spec fn reacts(&self, id: usize, taken: RuntimeState<T>, next: RuntimeState<T>) -> bool {
        if !taken.registry.is_effect(id) {
            next == taken
        } else if self.watchers().contains_key(id) {
            let watcher = self.watchers()[id];
            &&& next == taken
            &&& taken.values.contains_key(watcher.cell) ==> exists|value: T|
                cloned(taken.values[watcher.cell], value) && #[trigger] watcher.callback.ensures(
                    (value,),
                    (),
                )
        } else if self.maps().contains_key(id) {
            let rule = self.maps()[id];
            if taken.values.contains_key(rule.source) {
                exists|value: T, made: T|
                    {
                        &&& cloned(taken.values[rule.source], value)
                        &&& #[trigger] rule.f.ensures((&value,), made)
                        &&& next == taken.track_read(rule.source).write(rule.target, made).notify(
                            rule.target,
                        )
                    }
            } else {
                next == taken
            }
        } else if self.zips().contains_key(id) {
            let rule = self.zips()[id];
            if taken.values.contains_key(rule.left) && taken.values.contains_key(rule.right) {
                exists|left: T, right: T, made: T|
                    {
                        &&& cloned(taken.values[rule.left], left)
                        &&& cloned(taken.values[rule.right], right)
                        &&& #[trigger] rule.combine.ensures((&left, &right), made)
                        &&& next == taken.track_read(rule.left).track_read(rule.right).write(
                            rule.target,
                            made,
                        ).notify(rule.target)
                    }
            } else {
                next == taken
            }
        } else {
            next == taken
        }
    }

    /// A runtime in which nothing has happened yet.
    pub fn new(serial: usize) -> (runtime: Self)
        ensures
            runtime.state() == RuntimeState::<T>::fresh(serial),
            runtime.bodies() == Map::<usize, F>::empty(),
            runtime.watchers() == Map::<usize, Watcher<W>>::empty(),
            runtime.maps() == Map::<usize, Mapping<M>>::empty(),
            runtime.zips() == Map::<usize, Zipping<Z>>::empty(),
            runtime.total(),
    {
        ReactiveRuntime {
            inner: RuntimeInner::new(serial),
            observers: HashMap::new(),
            watchers: HashMap::new(),
            maps: HashMap::new(),
            zips: HashMap::new(),
        }
    }

    /// Wipes all edges, records with their bodies, and dirty flags, forgets
    /// the effects that were due, and starts the ids from zero again. Payloads
    /// and cached values stay.
    pub fn clear(&mut self)
        ensures
            final(self).state() == old(self).state().clear(),
            final(self).bodies() == Map::<usize, F>::empty(),
            final(self).watchers() == Map::<usize, Watcher<W>>::empty(),
            final(self).maps() == Map::<usize, Mapping<M>>::empty(),
            final(self).zips() == Map::<usize, Zipping<Z>>::empty(),
            final(self).total(),
    {
        self.inner.clear();
        self.observers.clear();
        self.watchers.clear();
        self.maps.clear();
        self.zips.clear();
    }

    /// The number by which guards recognise this runtime.
    pub fn serial(&self) -> (serial: usize)
        ensures
            serial == self.state().serial,
    {
        self.inner.serial()
    }

    /// The state of the runtime, for everything that runs no effect: making
    /// and reading cells and memos, and the registry.
    pub fn inner(&mut self) -> (inner: &mut RuntimeInner<T>)
        ensures
            inner@ == old(self).state(),
            final(self).state() == final(inner)@,
            final(self).same_observers(old(self)),
    {
        &mut self.inner
    }

    /// Hands out the next id. Ids grow by one; after the largest id the
    /// counter starts from zero again.
    pub fn next_id(&mut self) -> (id: usize)
        ensures
            id == old(self).state().next_id,
            final(self).state() == old(self).state().allocate(),
            final(self).same_observers(old(self)),
            id < usize::MAX ==> final(self).state().next_id > id,
    {
        self.inner.next_id()
    }

    /// Records that the active observer, if there is one, has read `signal_id`.
    pub fn track_read(&mut self, signal_id: usize)
        ensures
            final(self).state() == old(self).state().track_read(signal_id),
            final(self).same_observers(old(self)),
    {
        self.inner.track_read(signal_id);
    }

    /// No longer keeps anything for observer `id`.
    fn forget(&mut self, id: usize)
        ensures
            final(self).state() == old(self).state(),
            final(self).bodies() == old(self).bodies().remove(id),
            final(self).watchers() == old(self).watchers().remove(id),
            final(self).maps() == old(self).maps().remove(id),
            final(self).zips() == old(self).zips().remove(id),
            old(self).total() ==> final(self).total(),
    {
        self.observers.remove(&id);
        self.watchers.remove(&id);
        self.maps.remove(&id);
        self.zips.remove(&id);
        proof {
            if old(self).total() {
                assert forall|other: usize, inner: &mut RuntimeInner<T>|
                    self.bodies().contains_key(other) implies #[trigger] self.bodies()[other].requires(
                    (inner,),
                ) by {
                    assert(old(self).bodies()[other].requires((inner,)));
                }
                assert forall|other: usize, value: T|
                    self.watchers().contains_key(
                        other,
                    ) implies #[trigger] self.watchers()[other].callback.requires((value,)) by {
                    assert(old(self).watchers()[other].callback.requires((value,)));
                }
                assert forall|other: usize, value: T|
                    self.maps().contains_key(other) implies #[trigger] self.maps()[other].f.requires(
                    (&value,),
                ) by {
                    assert(old(self).maps()[other].f.requires((&value,)));
                }
                assert forall|other: usize, left: T, right: T|
                    self.zips().contains_key(
                        other,
                    ) implies #[trigger] self.zips()[other].combine.requires((&left, &right)) by {
                    assert(old(self).zips()[other].combine.requires((&left, &right)));
                }
            }
        }
    }

    /// Registers `observer_id` as an effect with body `f`, after dropping the
    /// edges and whatever else an earlier use of the id left behind. The body
    /// is not run.
    pub fn create_observer(&mut self, observer_id: usize, f: F)
        ensures
            final(self).state() == old(self).state().create_observer(observer_id),
            final(self).bodies() == old(self).bodies().insert(observer_id, f),
            final(self).watchers() == old(self).watchers().remove(observer_id),
            final(self).maps() == old(self).maps().remove(observer_id),
            final(self).zips() == old(self).zips().remove(observer_id),
            old(self).total() && (forall|inner: &mut RuntimeInner<T>| #[trigger]
                f.requires((inner,))) ==> final(self).total(),
    {
        self.forget(observer_id);
        self.inner.create_observer(observer_id);
        let ghost before = *self;
        self.observers.insert(observer_id, f);
        proof {
            assert(self.bodies() =~= old(self).bodies().insert(observer_id, f));
            if before.total() && (forall|inner: &mut RuntimeInner<T>| #[trigger]
                f.requires((inner,))) {
                assert forall|other: usize, inner: &mut RuntimeInner<T>|
                    self.bodies().contains_key(other) implies #[trigger] self.bodies()[other].requires(
                    (inner,),
                ) by {
                    if other != observer_id {
                        assert(before.bodies()[other].requires((inner,)));
                    }
                }
            }
        }
    }

    /// Removes the record of `observer_id`, every edge that ends in it, and
    /// what the runtime kept for it.
    pub fn remove_observer(&mut self, observer_id: usize)
        ensures
            final(self).state() == old(self).state().remove_observer(observer_id),
            final(self).bodies() == old(self).bodies().remove(observer_id),
            final(self).watchers() == old(self).watchers().remove(observer_id),
            final(self).maps() == old(self).maps().remove(observer_id),
            final(self).zips() == old(self).zips().remove(observer_id),
            old(self).total() ==> final(self).total(),
    {
        self.forget(observer_id);
        self.inner.remove_observer(observer_id);
    }

    /// Makes an effect: registers `body` under the next id, runs it once as
    /// the active observer, so that what it reads becomes what the effect
    /// depends on, and keeps it. Returns the id of the effect.
    pub fn effect(&mut self, body: F) -> (id: usize)
        requires
            forall|inner: &mut RuntimeInner<T>|
                inner@ == old(self).state().begin_effect() ==> #[trigger] body.requires((inner,)),
        ensures
            id == old(self).state().next_id,
            final(self).bodies() == old(self).bodies().insert(id, body),
            final(self).watchers() == old(self).watchers().remove(id),
            final(self).maps() == old(self).maps().remove(id),
            final(self).zips() == old(self).zips().remove(id),
            old(self).total() && (forall|inner: &mut RuntimeInner<T>| #[trigger] body.requires((inner,))) ==> final(self).total(),
            exists|inner: &mut RuntimeInner<T>|
                {
                    &&& inner@ == old(self).state().begin_effect()
                    &&& #[trigger] body.ensures((inner,), ())
                    &&& final(self).state() == final(inner)@.with_active(
                        old(self).state().registry.active,
                    )
                },
    {
        let id = self.inner.next_id();
        assert(self.same_observers(old(self)));
        self.forget(id);
        let ghost kept = *self;
        self.inner.create_observer(id);
        let previous = self.inner.replace_active(Some(id));
        body(&mut self.inner);
        self.inner.replace_active(previous);
        let ghost before = *self;
        self.observers.insert(id, body);
        proof {
            assert(before.same_observers(&kept));
            if kept.total() && (forall|inner: &mut RuntimeInner<T>| #[trigger] body.requires((inner,))) {
                assert forall|other: usize, inner: &mut RuntimeInner<T>|
                    self.bodies().contains_key(other) implies #[trigger] self.bodies()[other].requires(
                    (inner,),
                ) by {
                    if other != id {
                        assert(before.bodies()[other].requires((inner,)));
                    }
                }
                assert forall|other: usize, value: T|
                    self.watchers().contains_key(
                        other,
                    ) implies #[trigger] self.watchers()[other].callback.requires((value,)) by {
                    if other != id {
                        assert(before.watchers()[other].callback.requires((value,)));
                    } else {
                        assert(self.watchers()[other] == self.watchers@[id]);
                    }
                }
                assert forall|other: usize, value: T|
                    self.maps().contains_key(other) implies #[trigger] self.maps()[other].f.requires(
                    (&value,),
                ) by {
                    if other != id {
                        assert(before.maps()[other].f.requires((&value,)));
                    }
                }
                assert forall|other: usize, left: T, right: T|
                    self.zips().contains_key(
                        other,
                    ) implies #[trigger] self.zips()[other].combine.requires((&left, &right)) by {
                    if other != id {
                        assert(before.zips()[other].combine.requires((&left, &right)));
                    } else {
                        assert(self.zips()[other] == self.zips@[id]);
                    }
                }
            }
        }
        id
    }

    /// Subscribes `callback` to cell `cell`: registers it under the next id as
    /// an effect that depends on this cell alone, calls it once, now, with a
    /// copy of the payload, and keeps it. Returns the id of the watcher.
    pub fn watch(&mut self, cell: usize, callback: W) -> (id: usize)
        requires
            old(self).state().values.contains_key(cell),
            forall|value: T|
                cloned(old(self).state().values[cell], value) ==> #[trigger] callback.requires(
                    (value,),
                ),
        ensures
            id == old(self).state().next_id,
            final(self).state() == old(self).state().begin_watch(cell),
            final(self).watchers() == old(self).watchers().insert(
                id,
                (Watcher { cell, callback }),
            ),
            final(self).bodies() == old(self).bodies().remove(id),
            final(self).maps() == old(self).maps().remove(id),
            final(self).zips() == old(self).zips().remove(id),
            old(self).total() && (forall|value: T| #[trigger] callback.requires((value,))) ==> final(self).total(),
            exists|value: T|
                cloned(old(self).state().values[cell], value) && #[trigger] callback.ensures(
                    (value,),
                    (),
                ),
    {
        let id = self.inner.next_id();
        assert(self.same_observers(old(self)));
        self.forget(id);
        let ghost kept = *self;
        self.inner.create_observer(id);
        let previous = self.inner.replace_active(Some(id));
        self.inner.track_read(cell);
        self.inner.replace_active(previous);
        let value = match self.inner.value(cell) {
            Some(payload) => payload.clone(),
            None => vstd::pervasive::unreached(),
        };
        callback(value);
        let ghost before = *self;
        self.watchers.insert(id, Watcher { cell, callback });
        proof {
            assert(before.same_observers(&kept));
            if kept.total() && (forall|value: T| #[trigger] callback.requires((value,))) {
                assert forall|other: usize, inner: &mut RuntimeInner<T>|
                    self.bodies().contains_key(other) implies #[trigger] self.bodies()[other].requires(
                    (inner,),
                ) by {
                    if other != id {
                        assert(before.bodies()[other].requires((inner,)));
                    }
                }
                assert forall|other: usize, value: T|
                    self.watchers().contains_key(
                        other,
                    ) implies #[trigger] self.watchers()[other].callback.requires((value,)) by {
                    if other != id {
                        assert(before.watchers()[other].callback.requires((value,)));
                    } else {
                        assert(self.watchers()[other] == self.watchers@[id]);
                    }
                }
                assert forall|other: usize, value: T|
                    self.maps().contains_key(other) implies #[trigger] self.maps()[other].f.requires(
                    (&value,),
                ) by {
                    if other != id {
                        assert(before.maps()[other].f.requires((&value,)));
                    }
                }
                assert forall|other: usize, left: T, right: T|
                    self.zips().contains_key(
                        other,
                    ) implies #[trigger] self.zips()[other].combine.requires((&left, &right)) by {
                    if other != id {
                        assert(before.zips()[other].combine.requires((&left, &right)));
                    } else {
                        assert(self.zips()[other] == self.zips@[id]);
                    }
                }
            }
        }
        id
    }

    /// Derives a cell from cell `source`: makes a cell under the next id that
    /// holds `f` of the payload as it is now, registers under the id after
    /// that an effect that depends on `source`, gives it its first turn, and
    /// keeps the rule. Returns the id of the cell and the id of the effect.
    pub fn derive(&mut self, source: usize, f: M) -> (ids: (usize, usize))
        requires
            old(self).state().values.contains_key(source),
            forall|value: T|
                cloned(old(self).state().values[source], value) ==> #[trigger] f.requires(
                    (&value,),
                ),
            forall|first: T, made: T, value: T|
                #![trigger f.ensures((&first,), made), f.requires((&value,))]
                cloned(old(self).state().values[source], first) && f.ensures((&first,), made)
                    && cloned(
                    old(self).state().write(old(self).state().next_id, made).values[source],
                    value,
                ) ==> f.requires((&value,)),
        ensures
            ids.0 == old(self).state().next_id,
            ids.1 == old(self).state().allocate().next_id,
            final(self).maps() == old(self).maps().insert(
                ids.1,
                (Mapping { source, target: ids.0, f }),
            ),
            final(self).bodies() == old(self).bodies().remove(ids.1),
            final(self).watchers() == old(self).watchers().remove(ids.1),
            final(self).zips() == old(self).zips().remove(ids.1),
            old(self).total() && (forall|value: T| #[trigger] f.requires((&value,))) ==> final(self).total(),
            exists|first: T, made: T, second: T|
                {
                    &&& cloned(old(self).state().values[source], first)
                    &&& #[trigger] f.ensures((&first,), made)
                    &&& cloned(old(self).state().write(ids.0, made).values[source], second)
                    &&& #[trigger] f.ensures((&second,), final(self).state().values[ids.0])
                    &&& final(self).state() == old(self).state().derive(
                        source,
                        final(self).state().values[ids.0],
                    )
                },
    {
        self.inner.track_read(source);
        let first = match self.inner.value(source) {
            Some(payload) => payload.clone(),
            None => vstd::pervasive::unreached(),
        };
        let made = f(&first);
        let cell = self.inner.next_id();
        self.inner.store_value(cell, made);
        let id = self.inner.next_id();
        assert(self.same_observers(old(self)));
        self.forget(id);
        let ghost kept = *self;
        self.inner.create_observer(id);
        let previous = self.inner.replace_active(Some(id));
        self.inner.track_read(source);
        let second = match self.inner.value(source) {
            Some(payload) => payload.clone(),
            None => vstd::pervasive::unreached(),
        };
        let value = f(&second);
        let ghost earlier = self.inner@;
        self.inner.store_value(cell, value);
        self.inner.invalidate(cell);
        self.inner.replace_active(previous);
        proof {
            let start = old(self).state();
            let read = start.track_read(source);
            let wanted = read.allocate().write(cell, value).begin_effect().track_read(source);
            assert(earlier.values.insert(cell, value) =~= wanted.values.insert(cell, value));
            assert(earlier.write(cell, value) == wanted.write(cell, value));
            assert(self.inner@ == start.derive(source, value));
            assert(self.inner@.values[cell] == value);
            assert(cloned(start.write(cell, made).values[source], second));
        }
        let ghost before = *self;
        self.maps.insert(id, Mapping { source, target: cell, f });
        proof {
            assert(before.same_observers(&kept));
            if kept.total() && (forall|value: T| #[trigger] f.requires((&value,))) {
                assert forall|other: usize, inner: &mut RuntimeInner<T>|
                    self.bodies().contains_key(other) implies #[trigger] self.bodies()[other].requires(
                    (inner,),
                ) by {
                    if other != id {
                        assert(before.bodies()[other].requires((inner,)));
                    }
                }
                assert forall|other: usize, value: T|
                    self.watchers().contains_key(
                        other,
                    ) implies #[trigger] self.watchers()[other].callback.requires((value,)) by {
                    if other != id {
                        assert(before.watchers()[other].callback.requires((value,)));
                    } else {
                        assert(self.watchers()[other] == self.watchers@[id]);
                    }
                }
                assert forall|other: usize, value: T|
                    self.maps().contains_key(other) implies #[trigger] self.maps()[other].f.requires(
                    (&value,),
                ) by {
                    if other != id {
                        assert(before.maps()[other].f.requires((&value,)));
                    }
                }
                assert forall|other: usize, left: T, right: T|
                    self.zips().contains_key(
                        other,
                    ) implies #[trigger] self.zips()[other].combine.requires((&left, &right)) by {
                    if other != id {
                        assert(before.zips()[other].combine.requires((&left, &right)));
                    } else {
                        assert(self.zips()[other] == self.zips@[id]);
                    }
                }
            }
        }
        (cell, id)
    }

    /// Derives a cell from cells `left` and `right`: as `derive`, with both
    /// cells read, `left` first, and `combine` applied to the two payloads.
    pub fn derive_pair(&mut self, left: usize, right: usize, combine: Z) -> (ids: (usize, usize))
        requires
            old(self).state().values.contains_key(left),
            old(self).state().values.contains_key(right),
            forall|a: T, b: T|
                cloned(old(self).state().values[left], a) && cloned(
                    old(self).state().values[right],
                    b,
                ) ==> #[trigger] combine.requires((&a, &b)),
            forall|a: T, b: T, made: T, a_again: T, b_again: T|
                #![trigger combine.ensures((&a, &b), made), combine.requires((&a_again, &b_again))]
                cloned(old(self).state().values[left], a) && cloned(
                    old(self).state().values[right],
                    b,
                ) && combine.ensures((&a, &b), made) && cloned(
                    old(self).state().write(old(self).state().next_id, made).values[left],
                    a_again,
                ) && cloned(
                    old(self).state().write(old(self).state().next_id, made).values[right],
                    b_again,
                ) ==> combine.requires((&a_again, &b_again)),
        ensures
            ids.0 == old(self).state().next_id,
            ids.1 == old(self).state().allocate().next_id,
            final(self).zips() == old(self).zips().insert(
                ids.1,
                (Zipping { left, right, target: ids.0, combine }),
            ),
            final(self).bodies() == old(self).bodies().remove(ids.1),
            final(self).watchers() == old(self).watchers().remove(ids.1),
            final(self).maps() == old(self).maps().remove(ids.1),
            old(self).total() && (forall|a: T, b: T| #[trigger] combine.requires((&a, &b))) ==> final(self).total(),
            exists|a: T, b: T, made: T, a_again: T, b_again: T|
                {
                    &&& cloned(old(self).state().values[left], a)
                    &&& cloned(old(self).state().values[right], b)
                    &&& #[trigger] combine.ensures((&a, &b), made)
                    &&& cloned(old(self).state().write(ids.0, made).values[left], a_again)
                    &&& cloned(old(self).state().write(ids.0, made).values[right], b_again)
                    &&& #[trigger] combine.ensures(
                        (&a_again, &b_again),
                        final(self).state().values[ids.0],
                    )
                    &&& final(self).state() == old(self).state().derive_pair(
                        left,
                        right,
                        final(self).state().values[ids.0],
                    )
                },
    {
        self.inner.track_read(left);
        self.inner.track_read(right);
        let a = match self.inner.value(left) {
            Some(payload) => payload.clone(),
            None => vstd::pervasive::unreached(),
        };
        let b = match self.inner.value(right) {
            Some(payload) => payload.clone(),
            None => vstd::pervasive::unreached(),
        };
        let made = combine(&a, &b);
        let cell = self.inner.next_id();
        self.inner.store_value(cell, made);
        let id = self.inner.next_id();
        assert(self.same_observers(old(self)));
        self.forget(id);
        let ghost kept = *self;
        self.inner.create_observer(id);
        let previous = self.inner.replace_active(Some(id));
        self.inner.track_read(left);
        self.inner.track_read(right);
        let a_again = match self.inner.value(left) {
            Some(payload) => payload.clone(),
            None => vstd::pervasive::unreached(),
        };
        let b_again = match self.inner.value(right) {
            Some(payload) => payload.clone(),
            None => vstd::pervasive::unreached(),
        };
        let value = combine(&a_again, &b_again);
        let ghost earlier = self.inner@;
        self.inner.store_value(cell, value);
        self.inner.invalidate(cell);
        self.inner.replace_active(previous);
        proof {
            let start = old(self).state();
            let read = start.track_read(left).track_read(right);
            let wanted = read.allocate().write(cell, value).begin_effect().track_read(
                left,
            ).track_read(right);
            assert(earlier.values.insert(cell, value) =~= wanted.values.insert(cell, value));
            assert(earlier.write(cell, value) == wanted.write(cell, value));
            assert(self.inner@ == start.derive_pair(left, right, value));
            assert(self.inner@.values[cell] == value);
            assert(cloned(start.write(cell, made).values[left], a_again));
            assert(cloned(start.write(cell, made).values[right], b_again));
        }
        let ghost before = *self;
        self.zips.insert(id, Zipping { left, right, target: cell, combine });
        proof {
            assert(before.same_observers(&kept));
            if kept.total() && (forall|a: T, b: T| #[trigger] combine.requires((&a, &b))) {
                assert forall|other: usize, inner: &mut RuntimeInner<T>|
                    self.bodies().contains_key(other) implies #[trigger] self.bodies()[other].requires(
                    (inner,),
                ) by {
                    if other != id {
                        assert(before.bodies()[other].requires((inner,)));
                    }
                }
                assert forall|other: usize, value: T|
                    self.watchers().contains_key(
                        other,
                    ) implies #[trigger] self.watchers()[other].callback.requires((value,)) by {
                    if other != id {
                        assert(before.watchers()[other].callback.requires((value,)));
                    } else {
                        assert(self.watchers()[other] == self.watchers@[id]);
                    }
                }
                assert forall|other: usize, value: T|
                    self.maps().contains_key(other) implies #[trigger] self.maps()[other].f.requires(
                    (&value,),
                ) by {
                    if other != id {
                        assert(before.maps()[other].f.requires((&value,)));
                    }
                }
                assert forall|other: usize, left: T, right: T|
                    self.zips().contains_key(
                        other,
                    ) implies #[trigger] self.zips()[other].combine.requires((&left, &right)) by {
                    if other != id {
                        assert(before.zips()[other].combine.requires((&left, &right)));
                    } else {
                        assert(self.zips()[other] == self.zips@[id]);
                    }
                }
            }
        }
        (cell, id)
    }

    /// Runs `f` with `observer_id` as the active observer, so that the reads
    /// that `f` makes are attributed to it, and puts the observer that was
    /// active before back in place.
    pub fn with_observer<R, G: FnOnce(&mut RuntimeInner<T>) -> R>(
        &mut self,
        observer_id: usize,
        f: G,
    ) -> (result: R)
        requires
            forall|inner: &mut RuntimeInner<T>|
                inner@ == old(self).state().with_active(Some(observer_id)) ==> #[trigger] f.requires(
                    (inner,),
                ),
        ensures
            final(self).same_observers(old(self)),
            exists|inner: &mut RuntimeInner<T>|
                {
                    &&& inner@ == old(self).state().with_active(Some(observer_id))
                    &&& #[trigger] f.ensures((inner,), result)
                    &&& final(self).state() == final(inner)@.with_active(
                        old(self).state().registry.active,
                    )
                },
    {
        self.inner.with_observer(observer_id, f)
    }

    /// Registers `memo_id` as a memo that has not been computed yet.
    pub fn register_memo(&mut self, memo_id: usize)
        ensures
            final(self).state() == old(self).state().register_memo(memo_id),
            final(self).same_observers(old(self)),
    {
        self.inner.register_memo(memo_id);
    }

    /// Whether `memo_id` must be recomputed; an unknown memo counts as dirty.
    pub fn is_memo_dirty(&self, memo_id: usize) -> (dirty: bool)
        ensures
            dirty == self.state().registry.is_memo_dirty(memo_id),
    {
        self.inner.is_memo_dirty(memo_id)
    }

    /// Clears the dirty flag of `memo_id`.
    pub fn mark_memo_clean(&mut self, memo_id: usize)
        ensures
            final(self).state() == old(self).state().mark_memo_clean(memo_id),
            final(self).same_observers(old(self)),
    {
        self.inner.mark_memo_clean(memo_id);
    }

    /// Gives effect `effect` its turn, whether it is due or not: its body runs
    /// once, or its watcher or derived cell does what `reacts` says. The reads
    /// of this turn are attributed to whoever is active, not to the effect.
    pub fn run_observer(&mut self, effect: usize)
        requires
            old(self).total(),
        ensures
            final(self).same_observers(old(self)),
            if old(self).runs_body(effect, old(self).state()) {
                exists|inner: &mut RuntimeInner<T>|
                    {
                        &&& inner@ == old(self).state()
                        &&& #[trigger] old(self).bodies()[effect].ensures((inner,), ())
                        &&& final(inner)@ == final(self).state()
                    }
            } else {
                old(self).reacts(effect, old(self).state(), final(self).state())
            },
    {
        if !self.inner.is_effect(effect) {
        } else if let Some(body) = self.observers.get(&effect) {
            assert(self.bodies()[effect] == *body);
            body(&mut self.inner);
            proof {
                let after = self.inner@;
                let inner = choose|inner: &mut RuntimeInner<T>|
                    inner@ == old(self).state() && #[trigger] body.ensures((inner,), ())
                        && final(inner)@ == after;
                assert(old(self).bodies()[effect].ensures((inner,), ()));
            }
        } else if let Some(watcher) = self.watchers.get(&effect) {
            assert(self.watchers()[effect] == *watcher);
            match self.inner.value(watcher.cell) {
                Some(payload) => {
                    let value = payload.clone();
                    assert(watcher.callback.requires((value,)));
                    (watcher.callback)(value);
                },
                None => {},
            }
        } else if let Some(rule) = self.maps.get(&effect) {
            assert(self.maps()[effect] == *rule);
            if self.inner.has_value(rule.source) {
                self.inner.track_read(rule.source);
                let value = match self.inner.value(rule.source) {
                    Some(payload) => payload.clone(),
                    None => vstd::pervasive::unreached(),
                };
                assert(rule.f.requires((&value,)));
                let made = (rule.f)(&value);
                self.inner.store_value(rule.target, made);
                self.inner.invalidate(rule.target);
            }
        } else if let Some(rule) = self.zips.get(&effect) {
            assert(self.zips()[effect] == *rule);
            if self.inner.has_value(rule.left) && self.inner.has_value(rule.right) {
                self.inner.track_read(rule.left);
                self.inner.track_read(rule.right);
                let left = match self.inner.value(rule.left) {
                    Some(payload) => payload.clone(),
                    None => vstd::pervasive::unreached(),
                };
                let right = match self.inner.value(rule.right) {
                    Some(payload) => payload.clone(),
                    None => vstd::pervasive::unreached(),
                };
                assert(rule.combine.requires((&left, &right)));
                let made = (rule.combine)(&left, &right);
                self.inner.store_value(rule.target, made);
                self.inner.invalidate(rule.target);
            }
        }
    }

    /// Runs the effects that are due, the one that is due longest first,
    /// until none is due or `budget` of them have had their turn, and returns
    /// how many had. An effect that comes up is no longer due; its body runs
    /// once, in the state that this leaves; a watcher or a derived cell does
    /// what `reacts` says. Where the observer was removed meanwhile, nothing
    /// runs. What a turn
    /// writes makes further effects due, which get their turn behind those
    /// that were due already.
    pub fn settle(&mut self, budget: usize) -> (runs: usize)
        requires
            old(self).total(),
        ensures
            final(self).same_observers(old(self)),
            final(self).total(),
            runs <= budget,
            runs < budget ==> final(self).state().due.len() == 0,
            exists|states: Seq<RuntimeState<T>>|
                {
                    &&& states.len() == runs + 1
                    &&& states[0] == old(self).state()
                    &&& states[runs as int] == final(self).state()
                    &&& forall|i: int|
                        0 <= i < runs ==> {
                            &&& (#[trigger] states[i]).due.len() > 0
                            &&& if old(self).runs_body(states[i].due[0], states[i]) {
                                exists|inner: &mut RuntimeInner<T>|
                                    {
                                        &&& inner@ == states[i].take_due()
                                        &&& #[trigger] old(self).bodies()[states[i].due[0]].ensures(
                                            (inner,),
                                            (),
                                        )
                                        &&& final(inner)@ == states[i + 1]
                                    }
                            } else {
                                old(self).reacts(
                                    states[i].due[0],
                                    states[i].take_due(),
                                    states[i + 1],
                                )
                            }
                        }
                },
    {
        let mut runs: usize = 0;
        let ghost mut states: Seq<RuntimeState<T>> = seq![self.inner@];
        while runs < budget && self.inner.due() > 0
            invariant
                runs <= budget,
                self.total(),
                self.same_observers(old(self)),
                states.len() == runs + 1,
                states[0] == old(self).state(),
                states[runs as int] == self.state(),
                forall|i: int|
                    0 <= i < runs ==> {
                        &&& (#[trigger] states[i]).due.len() > 0
                        &&& if old(self).runs_body(states[i].due[0], states[i]) {
                            exists|inner: &mut RuntimeInner<T>|
                                {
                                    &&& inner@ == states[i].take_due()
                                    &&& #[trigger] old(self).bodies()[states[i].due[0]].ensures(
                                        (inner,),
                                        (),
                                    )
                                    &&& final(inner)@ == states[i + 1]
                                }
                        } else {
                            old(self).reacts(states[i].due[0], states[i].take_due(), states[i + 1])
                        }
                    },
            decreases budget - runs,
        {
            let ghost before = self.inner@;
            let ghost earlier = states;
            let effect = match self.inner.take_due() {
                Some(effect) => effect,
                None => vstd::pervasive::unreached(),
            };
            let ghost taken = self.inner@;
            self.run_observer(effect);
            proof {
                states = earlier.push(self.inner@);
                assert forall|i: int| 0 <= i < runs + 1 implies {
                    &&& (#[trigger] states[i]).due.len() > 0
                    &&& if old(self).runs_body(states[i].due[0], states[i]) {
                        exists|inner: &mut RuntimeInner<T>|
                            {
                                &&& inner@ == states[i].take_due()
                                &&& #[trigger] old(self).bodies()[states[i].due[0]].ensures(
                                    (inner,),
                                    (),
                                )
                                &&& final(inner)@ == states[i + 1]
                            }
                    } else {
                        old(self).reacts(states[i].due[0], states[i].take_due(), states[i + 1])
                    }
                } by {
                    if i < runs {
                        assert(states[i] == earlier[i]);
                        assert(states[i + 1] == earlier[i + 1]);
                    } else {
                        assert(states[i] == before);
                        assert(states[i + 1] == self.inner@);
                        assert(before.registry == taken.registry);
                    }
                }
            }
            runs += 1;
        }
        runs
    }

    /// Tells the dependents of `signal_id`, as they are now, that it has
    /// changed, and runs the effects that are due, as `settle` does. Every
    /// memo reached is dirty before any effect runs; the effects reached run
    /// in the order in which they were reached, each once for every time it
    /// was reached, behind those that were due already.
    pub fn notify_observers(&mut self, signal_id: usize, budget: usize) -> (runs: usize)
        requires
            old(self).total(),
        ensures
            final(self).same_observers(old(self)),
            final(self).total(),
            runs <= budget,
            runs < budget ==> final(self).state().due.len() == 0,
            exists|states: Seq<RuntimeState<T>>|
                {
                    &&& states.len() == runs + 1
                    &&& states[0] == old(self).state().notify(signal_id)
                    &&& states[runs as int] == final(self).state()
                    &&& forall|i: int|
                        0 <= i < runs ==> {
                            &&& (#[trigger] states[i]).due.len() > 0
                            &&& if old(self).runs_body(states[i].due[0], states[i]) {
                                exists|inner: &mut RuntimeInner<T>|
                                    {
                                        &&& inner@ == states[i].take_due()
                                        &&& #[trigger] old(self).bodies()[states[i].due[0]].ensures(
                                            (inner,),
                                            (),
                                        )
                                        &&& final(inner)@ == states[i + 1]
                                    }
                            } else {
                                old(self).reacts(
                                    states[i].due[0],
                                    states[i].take_due(),
                                    states[i + 1],
                                )
                            }
                        }
                },
    {
        self.inner.invalidate(signal_id);
        assert(self.same_observers(old(self)));
        self.settle(budget)
    }

    /// Tells observer `observer_id` of a change, and runs the effects that
    /// are due, as `settle` does. A clean memo becomes dirty, and so does
    /// every memo reached from it, before any effect runs; a memo that is
    /// dirty already stops the propagation; an effect runs; any other id is
    /// passed over.
    pub fn mark_observer_dirty(&mut self, observer_id: usize, budget: usize) -> (runs: usize)
        requires
            old(self).total(),
        ensures
            final(self).same_observers(old(self)),
            final(self).total(),
            runs <= budget,
            runs < budget ==> final(self).state().due.len() == 0,
            exists|states: Seq<RuntimeState<T>>|
                {
                    &&& states.len() == runs + 1
                    &&& states[0] == old(self).state().mark_observer_dirty(observer_id)
                    &&& states[runs as int] == final(self).state()
                    &&& forall|i: int|
                        0 <= i < runs ==> {
                            &&& (#[trigger] states[i]).due.len() > 0
                            &&& if old(self).runs_body(states[i].due[0], states[i]) {
                                exists|inner: &mut RuntimeInner<T>|
                                    {
                                        &&& inner@ == states[i].take_due()
                                        &&& #[trigger] old(self).bodies()[states[i].due[0]].ensures(
                                            (inner,),
                                            (),
                                        )
                                        &&& final(inner)@ == states[i + 1]
                                    }
                            } else {
                                old(self).reacts(
                                    states[i].due[0],
                                    states[i].take_due(),
                                    states[i + 1],
                                )
                            }
                        }
                },
    {
        self.inner.invalidate_observer(observer_id);
        assert(self.same_observers(old(self)));
        self.settle(budget)
    }
}

} // verus!
