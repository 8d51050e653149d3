//! A runtime as mathematics: the registry, the payloads of the cells, the
//! cached values of the memos and the effects that are due.

use super::registry::Registry;
use vstd::prelude::*;

verus! {

/// The state of one runtime.
#[verifier::ext_equal]
pub struct RuntimeState<T> {
    /// The number by which guards recognise the runtime that issued them.
    pub serial: usize,
    /// The id that the next allocation hands out.
    pub next_id: usize,
    /// Edges, records and dirty flags.
    pub registry: Registry,
    /// The payload of each cell.
    pub values: Map<usize, T>,
    /// The value that each memo computed last.
    pub cached: Map<usize, T>,
    /// The effects that a change has reached and that have not run since;
    /// the first one is next.
    pub due: Seq<usize>,
}

impl<T> RuntimeState<T> {
    /// The state of a runtime in which nothing has happened yet.
    pub open spec fn fresh(serial: usize) -> Self {
        RuntimeState {
            serial,
            next_id: 0,
            registry: Registry::empty(),
            values: Map::empty(),
            cached: Map::empty(),
            due: Seq::empty(),
        }
    }

    /// The registry is well-formed.
    pub open spec fn wf(self) -> bool {
        self.registry.wf()
    }

    /// The same state around another registry.
    pub open spec fn with_registry(self, registry: Registry) -> Self {
        RuntimeState { registry, ..self }
    }

    /// The state after one id has been handed out. The counter wraps around
    /// at the largest id.
    pub open spec fn allocate(self) -> Self {
        RuntimeState {
            next_id: if self.next_id == usize::MAX {
                0
            } else {
                (self.next_id + 1) as usize
            },
            ..self
        }
    }

    /// The state after a reset: edges, records, dirty flags and the effects
    /// that were due are gone, and ids start from zero again. Payloads and
    /// cached values stay.
    pub open spec fn clear(self) -> Self {
        RuntimeState { next_id: 0, registry: Registry::empty(), due: Seq::empty(), ..self }
    }

    /// The state with `active` as the observer that reads are attributed to.
    pub open spec fn with_active(self, active: Option<usize>) -> Self {
        self.with_registry(self.registry.with_active(active))
    }

    /// The state after a read of `value`.
    pub open spec fn track_read(self, value: usize) -> Self {
        self.with_registry(self.registry.track_read(value))
    }

    /// The state without the edges that end in `observer`.
    pub open spec fn clear_dependencies(self, observer: usize) -> Self {
        self.with_registry(self.registry.clear_dependencies(observer))
    }

    /// The state with `observer` registered as an effect.
    pub open spec fn create_observer(self, observer: usize) -> Self {
        self.with_registry(self.registry.create_observer(observer))
    }

    /// The state without `observer`.
    pub open spec fn remove_observer(self, observer: usize) -> Self {
        self.with_registry(self.registry.remove_observer(observer))
    }

    /// The state with `memo` registered and dirty.
    pub open spec fn register_memo(self, memo: usize) -> Self {
        self.with_registry(self.registry.register_memo(memo))
    }

    /// The state with `memo` clean.
    pub open spec fn mark_memo_clean(self, memo: usize) -> Self {
        self.with_registry(self.registry.mark_memo_clean(memo))
    }

    /// The state with `value` as the payload of cell `cell`.
    pub open spec fn write(self, cell: usize, value: T) -> Self {
        RuntimeState { values: self.values.insert(cell, value), ..self }
    }

    /// The state with `value` as the cached value of memo `memo`.
    pub open spec fn cache(self, memo: usize, value: T) -> Self {
        RuntimeState { cached: self.cached.insert(memo, value), ..self }
    }

    /// The state in which a new effect runs for the first time: it has the next
    /// id, is registered, and is the active observer.
    pub open spec fn begin_effect(self) -> Self {
        self.allocate().create_observer(self.next_id).with_active(Some(self.next_id))
    }

    /// The state in which a new watcher of `cell` is called for the first
    /// time: it has the next id, is registered, and depends on `cell`.
    pub open spec fn begin_watch(self, cell: usize) -> Self {
        self.begin_effect().track_read(cell).with_active(self.registry.active)
    }

    /// The state after a cell has been derived from `source`: the read of
    /// `source` by the caller is recorded, the next id is a cell that holds
    /// `value`, and the id after that is an effect that depends on `source`
    /// and has written the cell once.
    pub open spec fn derive(self, source: usize, value: T) -> Self {
        let read = self.track_read(source);
        let cell = read.next_id;
        let made = read.allocate().write(cell, value);
        made.begin_effect().track_read(source).write(cell, value).notify(cell).with_active(
            self.registry.active,
        )
    }

    /// The state after a cell has been derived from `left` and `right`: as
    /// `derive`, with both cells read, `left` first.
    pub open spec fn derive_pair(self, left: usize, right: usize, value: T) -> Self {
        let read = self.track_read(left).track_read(right);
        let cell = read.next_id;
        let made = read.allocate().write(cell, value);
        made.begin_effect().track_read(left).track_read(right).write(cell, value).notify(
            cell,
        ).with_active(self.registry.active)
    }

    /// The state in which a dirty memo starts to recompute: the read of the
    /// memo is recorded, the memo has forgotten what it depended on, and it is
    /// the active observer.
    pub open spec fn begin_recompute(self, memo: usize) -> Self {
        self.track_read(memo).clear_dependencies(memo).with_active(Some(memo))
    }

    /// The state in which a recomputation of `memo` ends, where `self` is the
    /// state before the read and `computed` the state that the computation
    /// left: the observer that was active before is active again, `value` is
    /// cached and the memo is clean.
    pub open spec fn end_recompute(self, computed: Self, memo: usize, value: T) -> Self {
        computed.with_active(self.registry.active).cache(memo, value).mark_memo_clean(memo)
    }

    /// The state after the observers on `stack` have been told of a change:
    /// every memo reached is dirty, and the effects reached are due, behind
    /// those that were due already.
    pub open spec fn reach(self, stack: Seq<usize>) -> Self {
        RuntimeState {
            registry: self.registry.propagate(stack).0,
            due: self.due + self.registry.propagate(stack).1,
            ..self
        }
    }

    /// The state after `value` has changed: its dependents have been told, in
    /// the order in which they first read it.
    pub open spec fn notify(self, value: usize) -> Self {
        self.reach(self.registry.dependents(value).reverse())
    }

    /// The state after observer `observer` has been told of a change.
    pub open spec fn mark_observer_dirty(self, observer: usize) -> Self {
        self.reach(seq![observer])
    }

    /// The state without the effect that was due next.
    pub open spec fn take_due(self) -> Self {
        RuntimeState { due: self.due.drop_first(), ..self }
    }

    /// A cleared runtime hands out ids from zero, and a new runtime differs
    /// from a cleared one in its serial number, payloads and cached values
    /// alone.
    pub proof fn lemma_cleared_is_fresh(self, other: usize)
        ensures
            self.clear().next_id == 0,
            self.clear().allocate().next_id == 1,
            self.clear().registry == Registry::empty(),
            Self::fresh(other) == (RuntimeState {
                serial: other,
                values: Map::empty(),
                cached: Map::empty(),
                ..self.clear()
            }),
    {
    }

    /// Telling observers of a change touches only dirty flags and the effects
    /// that are due.
    pub proof fn lemma_reach_invalidates(self, stack: Seq<usize>)
        requires
            self.wf(),
        ensures
            self.registry.invalidated_to(self.reach(stack).registry),
            self.reach(stack).wf(),
            self.reach(stack).values == self.values,
            self.reach(stack).cached == self.cached,
            self.reach(stack).next_id == self.next_id,
            self.reach(stack).serial == self.serial,
    {
        self.registry.lemma_propagate_invalidates(stack);
    }

    /// A change of a value that nobody depends on changes nothing.
    pub proof fn lemma_notify_nobody(self, value: usize)
        requires
            self.wf(),
            self.registry.dependents(value).len() == 0,
        ensures
            self.notify(value) == self,
    {
        assert(self.registry.dependents(value).reverse() =~= Seq::<usize>::empty());
        assert(self.due + Seq::<usize>::empty() =~= self.due);
    }

    /// Telling one observer of a change: an effect that is no memo is due and
    /// nothing else changes; a memo that is dirty already, and an id that is
    /// neither memo nor effect, change nothing; a clean memo is dirty
    /// afterwards.
    pub proof fn lemma_mark_observer_dirty(self, observer: usize)
        requires
            self.wf(),
        ensures
            !self.registry.is_memo(observer) && self.registry.is_effect(observer)
                ==> self.mark_observer_dirty(observer) == (RuntimeState {
                due: self.due.push(observer),
                ..self
            }),
            !self.registry.is_memo(observer) && !self.registry.is_effect(observer)
                ==> self.mark_observer_dirty(observer) == self,
            self.registry.is_memo(observer) && self.registry.dirty[observer]
                ==> self.mark_observer_dirty(observer) == self,
            self.registry.is_memo(observer) ==> self.mark_observer_dirty(
                observer,
            ).registry.dirty[observer],
    {
        reveal_with_fuel(Registry::propagate, 3);
        let stack = seq![observer];
        assert(stack.drop_last() =~= Seq::<usize>::empty());
        assert(self.registry.propagate(Seq::<usize>::empty()) == (
            self.registry,
            Seq::<usize>::empty(),
        ));
        assert(self.due + Seq::<usize>::empty() =~= self.due);
        assert(self.due + (seq![observer] + Seq::<usize>::empty()) =~= self.due.push(observer));
        if self.registry.is_memo(observer) {
            self.registry.lemma_waiting_memos_invalidated(stack, 0);
        }
    }

    /// A write is read back: after `value` has been written to `cell` and the
    /// dependents of the cell have been told, `cell` holds `value`, and every
    /// other cell holds what it held.
    pub proof fn lemma_read_after_write(self, cell: usize, value: T)
        ensures
            self.write(cell, value).notify(cell).values == self.values.insert(cell, value),
            self.write(cell, value).notify(cell).values[cell] == value,
    {
    }

    /// A write to a value that no memo depends on makes the registered
    /// effects among its dependents due, each once and in the order in which
    /// they first read the value, and changes nothing else.
    pub proof fn lemma_write_reaches_each_effect_once(self, value: usize)
        requires
            self.wf(),
            forall|i: int|
                0 <= i < self.registry.dependents(value).len() ==> !self.registry.is_memo(
                    #[trigger] self.registry.dependents(value)[i],
                ),
        ensures
            self.notify(value) == (RuntimeState {
                due: self.due + self.registry.effects_among(self.registry.dependents(value)),
                ..self
            }),
            self.registry.effects_among(self.registry.dependents(value)).no_duplicates(),
    {
        self.registry.lemma_propagate_through_effects(self.registry.dependents(value));
    }

    /// One run per write: where an effect is among the dependents of a value
    /// that no memo depends on, a write to the value makes the effect due
    /// exactly once.
    pub proof fn lemma_effect_runs_once_per_write(self, value: usize, effect: usize)
        requires
            self.wf(),
            forall|i: int|
                0 <= i < self.registry.dependents(value).len() ==> !self.registry.is_memo(
                    #[trigger] self.registry.dependents(value)[i],
                ),
            self.registry.dependents(value).contains(effect),
            self.registry.is_effect(effect),
        ensures
            self.registry.propagate(self.registry.dependents(value).reverse()).1.contains(effect),
            self.registry.propagate(self.registry.dependents(value).reverse()).1.no_duplicates(),
    {
        self.registry.lemma_propagate_through_effects(self.registry.dependents(value));
        self.registry.lemma_effects_among(self.registry.dependents(value), effect);
    }

    /// A write to a value that no memo depends on does not reach an observer
    /// that is not among the dependents of the value.
    pub proof fn lemma_write_passes_by_others(self, value: usize, observer: usize)
        requires
            self.wf(),
            forall|i: int|
                0 <= i < self.registry.dependents(value).len() ==> !self.registry.is_memo(
                    #[trigger] self.registry.dependents(value)[i],
                ),
            !self.registry.dependents(value).contains(observer),
        ensures
            !self.registry.propagate(self.registry.dependents(value).reverse()).1.contains(
                observer,
            ),
    {
        self.registry.lemma_propagate_through_effects(self.registry.dependents(value));
        self.registry.lemma_effects_among(self.registry.dependents(value), observer);
    }

    /// No write makes an observer due that is not registered as an effect:
    /// once an observer has been removed, no write reaches it.
    pub proof fn lemma_removed_is_not_reached(self, value: usize, observer: usize)
        requires
            self.wf(),
        ensures
            !self.remove_observer(observer).registry.propagate(
                self.remove_observer(observer).registry.dependents(value).reverse(),
            ).1.contains(observer),
    {
        let removed = self.remove_observer(observer);
        self.registry.lemma_clear_dependencies_wf(observer);
        self.registry.lemma_removed_observer_is_gone(observer, value);
        removed.registry.lemma_unregistered_is_not_reached(
            removed.registry.dependents(value).reverse(),
            observer,
        );
    }

    /// A write makes the memos that depend on the value dirty.
    pub proof fn lemma_write_invalidates(self, value: usize, memo: usize)
        requires
            self.wf(),
            self.registry.dependents(value).contains(memo),
            self.registry.is_memo(memo),
        ensures
            self.notify(value).registry.dirty[memo],
            self.notify(value).registry.is_memo_dirty(memo),
    {
        let list = self.registry.dependents(value);
        let k = choose|k: int| 0 <= k < list.len() && list[k] == memo;
        assert(list.reverse()[list.len() - 1 - k] == memo);
        self.registry.lemma_waiting_memos_invalidated(list.reverse(), list.len() - 1 - k);
        self.registry.lemma_propagate_invalidates(list.reverse());
    }

    /// A write makes dirty what depends on a memo that it makes dirty: where
    /// a clean memo depends on the value and a second memo depends on the
    /// first, both are dirty after the write.
    pub proof fn lemma_write_invalidates_chain(self, value: usize, first: usize, second: usize)
        requires
            self.wf(),
            self.registry.dependents(value).contains(first),
            self.registry.is_memo(first),
            !self.registry.dirty[first],
            self.registry.dependents(first).contains(second),
            self.registry.is_memo(second),
        ensures
            self.notify(value).registry.dirty[first],
            self.notify(value).registry.dirty[second],
    {
        self.lemma_write_invalidates(value, first);
        self.registry.lemma_invalidation_reaches_dependents(
            self.registry.dependents(value).reverse(),
            first,
            second,
        );
    }
}

} // verus!
