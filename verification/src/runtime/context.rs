//! The executable registry and the state of a runtime built on it.

use super::registry::{lemma_without, lemma_without_contains, without, Registry};
use super::state::RuntimeState;
use std::collections::{HashMap, HashSet};
use vstd::prelude::*;

verus! {

broadcast use vstd::std_specs::hash::group_hash_axioms;

/// Whether `x` occurs in `list`.
fn list_contains(list: &Vec<usize>, x: usize) -> (found: bool)
    ensures
        found == list@.contains(x),
{
    let mut i: usize = 0;
    while i < list.len()
        invariant
            i <= list.len(),
            forall|j: int| 0 <= j < i ==> list@[j] != x,
        decreases list.len() - i,
    {
        if list[i] == x {
            return true;
        }
        i += 1;
    }
    false
}

/// A copy of `list` that leaves out `observer`.
fn list_without(list: &Vec<usize>, observer: usize) -> (out: Vec<usize>)
    ensures
        out@ == without(list@, observer),
{
    let mut out: Vec<usize> = Vec::new();
    let mut i: usize = 0;
    proof {
        reveal(Seq::filter);
        assert(list@.take(0) == Seq::<usize>::empty());
    }
    while i < list.len()
        invariant
            i <= list.len(),
            out@ == without(list@.take(i as int), observer),
        decreases list.len() - i,
    {
        proof {
            reveal(Seq::filter);
            let next = list@.take(i + 1);
            assert(next.drop_last() == list@.take(i as int));
            assert(next.last() == list@[i as int]);
        }
        if list[i] != observer {
            out.push(list[i]);
        }
        i += 1;
    }
    proof {
        assert(list@.take(list.len() as int) == list@);
    }
    out
}

/// The elements of a sequence with one more at its end.
proof fn lemma_push_to_set(s: Seq<usize>, x: usize)
    ensures
        s.push(x).to_set() == s.to_set().insert(x),
{
    let pushed = s.push(x);
    assert forall|v: usize| pushed.to_set().contains(v) <==> s.to_set().insert(x).contains(v) by {
        if pushed.contains(v) {
            let i = choose|i: int| 0 <= i < pushed.len() && pushed[i] == v;
            if i < s.len() {
                assert(s[i] == v);
            }
        }
        if s.contains(v) {
            let i = choose|i: int| 0 <= i < s.len() && s[i] == v;
            assert(pushed[i] == v);
        }
        if v == x {
            assert(pushed[pushed.len() - 1] == v);
        }
    }
    assert(pushed.to_set() =~= s.to_set().insert(x));
}

/// The tables that record who depends on what.
pub struct ReactiveContext {
    current_observer: Option<usize>,
    // From a value to the observers that depend on it, first reader first.
    dependencies: HashMap<usize, Vec<usize>>,
    // From an observer to the values it depends on.
    observer_deps: HashMap<usize, Vec<usize>>,
    // The registered effects.
    observers: HashSet<usize>,
    // From a memo to its dirty flag.
    memo_dirty: HashMap<usize, bool>,
}

impl View for ReactiveContext {
    type V = Registry;

    closed spec fn view(&self) -> Registry {
        assemble(
            self.current_observer,
            self.dependencies@,
            self.observer_deps@,
            self.observers@,
            self.memo_dirty@,
        )
    }
}

/// The tables of a context while they are being changed.
struct Tables {
    current_observer: Option<usize>,
    dependencies: HashMap<usize, Vec<usize>>,
    observer_deps: HashMap<usize, Vec<usize>>,
    observers: HashSet<usize>,
    memo_dirty: HashMap<usize, bool>,
}

impl View for Tables {
    type V = Registry;

    closed spec fn view(&self) -> Registry {
        assemble(
            self.current_observer,
            self.dependencies@,
            self.observer_deps@,
            self.observers@,
            self.memo_dirty@,
        )
    }
}

/// Empty tables stand for the empty registry.
proof fn lemma_assemble_empty()
    ensures
        assemble(None, Map::empty(), Map::empty(), Set::empty(), Map::empty()) == Registry::empty(),
        Registry::empty().wf(),
{
    let got = assemble(None, Map::empty(), Map::empty(), Set::empty(), Map::empty());
    assert(Seq::<usize>::empty().to_set() =~= Set::<usize>::empty());
    assert(got.forward =~= Registry::empty().forward);
    assert(got.reverse =~= Registry::empty().reverse);
}

/// The registry that the five tables stand for: the edge tables made total.
spec fn assemble(
    active: Option<usize>,
    dependencies: Map<usize, Vec<usize>>,
    observer_deps: Map<usize, Vec<usize>>,
    observers: Set<usize>,
    memo_dirty: Map<usize, bool>,
) -> Registry {
    Registry {
        active,
        forward: Map::total(|value: usize| listed(dependencies, value)),
        reverse: Map::total(|observer: usize| listed(observer_deps, observer).to_set()),
        effects: observers,
        dirty: memo_dirty,
    }
}

/// The list that `table` holds for `key`; the empty list where it holds none.
spec fn listed(table: Map<usize, Vec<usize>>, key: usize) -> Seq<usize> {
    if table.contains_key(key) {
        table[key]@
    } else {
        Seq::empty()
    }
}

impl ReactiveContext {
    #[verifier::type_invariant]
    spec fn inv(self) -> bool {
        self@.wf()
    }

    /// A context with no edge, no record and no active observer.
    pub fn new() -> (ctx: Self)
        ensures
            ctx@ == Registry::empty(),
    {
        proof {
            lemma_assemble_empty();
        }
        ReactiveContext {
            current_observer: None,
            dependencies: HashMap::new(),
            observer_deps: HashMap::new(),
            observers: HashSet::new(),
            memo_dirty: HashMap::new(),
        }
    }

    /// Forgets every edge, record and flag, and the active observer.
    pub fn clear(&mut self)
        ensures
            final(self)@ == Registry::empty(),
    {
        let mut fresh = ReactiveContext::new();
        std::mem::swap(self, &mut fresh);
    }

    /// Takes the tables out of the context, which is left empty, so that they
    /// can be changed one after the other.
    fn take(&mut self) -> (tables: Tables)
        ensures
            tables@ == old(self)@,
            tables@.wf(),
    {
        proof {
            use_type_invariant(&*self);
        }
        let mut taken = ReactiveContext::new();
        std::mem::swap(self, &mut taken);
        let ReactiveContext {
            current_observer,
            dependencies,
            observer_deps,
            observers,
            memo_dirty,
        } = taken;
        Tables { current_observer, dependencies, observer_deps, observers, memo_dirty }
    }

    /// Puts the tables back.
    fn put(&mut self, tables: Tables)
        requires
            tables@.wf(),
        ensures
            final(self)@ == tables@,
    {
        let Tables { current_observer, dependencies, observer_deps, observers, memo_dirty } =
            tables;
        *self = ReactiveContext {
            current_observer,
            dependencies,
            observer_deps,
            observers,
            memo_dirty,
        };
    }

    /// Records that the active observer, if there is one, has read `signal_id`.
    pub fn track_read(&mut self, signal_id: usize)
        ensures
            final(self)@ == old(self)@.track_read(signal_id),
    {
        if let Some(observer) = self.current_observer {
            let mut tables = self.take();
            let ghost before = tables@;
            let mut list = match tables.dependencies.remove(&signal_id) {
                Some(list) => list,
                None => Vec::new(),
            };
            assert(list@ == before.forward[signal_id]);
            if !list_contains(&list, observer) {
                list.push(observer);
                let mut sources = match tables.observer_deps.remove(&observer) {
                    Some(sources) => sources,
                    None => Vec::new(),
                };
                assert(sources@.to_set() == before.reverse[observer]);
                let ghost earlier = sources@;
                sources.push(signal_id);
                proof {
                    lemma_push_to_set(earlier, signal_id);
                }
                tables.observer_deps.insert(observer, sources);
            }
            tables.dependencies.insert(signal_id, list);
            proof {
                let want = before.track_read(signal_id);
                before.lemma_track_read_wf(signal_id);
                assert(tables@.forward =~= want.forward);
                assert(tables@.reverse =~= want.reverse);
                assert(tables@ == want);
            }
            self.put(tables);
        }
    }

    /// Drops every edge that ends in `observer_id`.
    pub fn clear_dependencies(&mut self, observer_id: usize)
        ensures
            final(self)@ == old(self)@.clear_dependencies(observer_id),
    {
        let mut tables = self.take();
        let ghost before = tables@;
        let sources = match tables.observer_deps.remove(&observer_id) {
            Some(sources) => sources,
            None => Vec::new(),
        };
        assert(sources@.to_set() == before.reverse[observer_id]);
        let mut i: usize = 0;
        while i < sources.len()
            invariant
                i <= sources.len(),
                before.wf(),
                sources@.to_set() == before.reverse[observer_id],
                tables.current_observer == before.active,
                tables.observers@ == before.effects,
                tables.memo_dirty@ == before.dirty,
                forall|observer: usize|
                    #![trigger listed(tables.observer_deps@, observer)]
                    listed(tables.observer_deps@, observer).to_set() == if observer == observer_id {
                        Set::empty()
                    } else {
                        before.reverse[observer]
                    },
                forall|value: usize|
                    #![trigger listed(tables.dependencies@, value)]
                    listed(tables.dependencies@, value) == if sources@.take(i as int).contains(
                        value,
                    ) {
                        without(before.forward[value], observer_id)
                    } else {
                        before.forward[value]
                    },
            decreases sources.len() - i,
        {
            let signal_id = sources[i];
            let ghost earlier = tables.dependencies@;
            if let Some(list) = tables.dependencies.remove(&signal_id) {
                let kept = list_without(&list, observer_id);
                tables.dependencies.insert(signal_id, kept);
            }
            proof {
                let done = sources@.take(i as int);
                let next = sources@.take(i + 1);
                assert(next == done.push(signal_id));
                lemma_without(before.forward[signal_id], observer_id);
                lemma_without_contains(before.forward[signal_id], observer_id, observer_id);
                lemma_without(without(before.forward[signal_id], observer_id), observer_id);
                lemma_without(Seq::<usize>::empty(), observer_id);
                assert forall|value: usize|
                    #![trigger listed(tables.dependencies@, value)]
                    listed(tables.dependencies@, value) == if next.contains(value) {
                        without(before.forward[value], observer_id)
                    } else {
                        before.forward[value]
                    } by {
                    assert(listed(earlier, value) == if done.contains(value) {
                        without(before.forward[value], observer_id)
                    } else {
                        before.forward[value]
                    });
                    if value == signal_id {
                        assert(next[i as int] == value);
                    } else {
                        if next.contains(value) {
                            let j = choose|j: int| 0 <= j < next.len() && next[j] == value;
                            assert(done[j] == value);
                        }
                        if done.contains(value) {
                            let j = choose|j: int| 0 <= j < done.len() && done[j] == value;
                            assert(next[j] == value);
                        }
                    }
                }
            }
            i += 1;
        }
        proof {
            assert(sources@.take(sources.len() as int) == sources@);
            let want = before.clear_dependencies(observer_id);
            before.lemma_clear_dependencies_wf(observer_id);
            assert forall|value: usize| tables@.forward[value] == want.forward[value] by {
                assert(listed(tables.dependencies@, value) == tables@.forward[value]);
                if !sources@.contains(value) {
                    assert(!before.reverse[observer_id].contains(value));
                    assert(!before.forward[value].contains(observer_id));
                    lemma_without(before.forward[value], observer_id);
                }
            }
            assert forall|observer: usize| tables@.reverse[observer] == want.reverse[observer] by {
                assert(listed(tables.observer_deps@, observer).to_set()
                    == tables@.reverse[observer]);
            }
            assert(tables@.forward =~= want.forward);
            assert(tables@.reverse =~= want.reverse);
            assert(tables@ == want);
        }
        self.put(tables);
    }

    /// Registers `observer_id` as an effect, after dropping the edges that an
    /// earlier use of the id left behind.
    pub fn create_observer(&mut self, observer_id: usize)
        ensures
            final(self)@ == old(self)@.create_observer(observer_id),
    {
        self.clear_dependencies(observer_id);
        let mut tables = self.take();
        tables.observers.insert(observer_id);
        self.put(tables);
    }

    /// Removes the record of `observer_id` and every edge that ends in it.
    pub fn remove_observer(&mut self, observer_id: usize)
        ensures
            final(self)@ == old(self)@.remove_observer(observer_id),
    {
        self.clear_dependencies(observer_id);
        let mut tables = self.take();
        tables.observers.remove(&observer_id);
        self.put(tables);
    }

    /// Registers `memo_id` as a memo that has not been computed yet.
    pub fn register_memo(&mut self, memo_id: usize)
        ensures
            final(self)@ == old(self)@.register_memo(memo_id),
    {
        let mut tables = self.take();
        tables.memo_dirty.insert(memo_id, true);
        self.put(tables);
    }

    /// Whether `memo_id` must be recomputed; an unknown memo counts as dirty.
    pub fn is_memo_dirty(&self, memo_id: usize) -> (dirty: bool)
        ensures
            dirty == self@.is_memo_dirty(memo_id),
    {
        match self.memo_dirty.get(&memo_id) {
            Some(flag) => *flag,
            None => true,
        }
    }

    /// Clears the dirty flag of `memo_id`.
    pub fn mark_memo_clean(&mut self, memo_id: usize)
        ensures
            final(self)@ == old(self)@.mark_memo_clean(memo_id),
    {
        let mut tables = self.take();
        tables.memo_dirty.insert(memo_id, false);
        self.put(tables);
    }

    /// Sets the dirty flag of `memo_id`.
    pub fn mark_memo_dirty(&mut self, memo_id: usize)
        ensures
            final(self)@ == old(self)@.mark_memo_dirty(memo_id),
    {
        let mut tables = self.take();
        tables.memo_dirty.insert(memo_id, true);
        self.put(tables);
    }

    /// Whether `observer_id` is a memo.
    pub fn is_memo(&self, observer_id: usize) -> (found: bool)
        ensures
            found == self@.is_memo(observer_id),
    {
        self.memo_dirty.contains_key(&observer_id)
    }

    /// Whether `observer_id` is a registered effect.
    pub fn is_effect(&self, observer_id: usize) -> (found: bool)
        ensures
            found == self@.is_effect(observer_id),
    {
        self.observers.contains(&observer_id)
    }

    /// The observer that reads are attributed to right now.
    pub fn active(&self) -> (active: Option<usize>)
        ensures
            active == self@.active,
    {
        self.current_observer
    }

    /// Makes `active` the observer that reads are attributed to, and returns
    /// the one that was.
    pub fn replace_active(&mut self, active: Option<usize>) -> (previous: Option<usize>)
        ensures
            previous == old(self)@.active,
            final(self)@ == old(self)@.with_active(active),
    {
        proof {
            use_type_invariant(&*self);
        }
        let previous = self.current_observer;
        self.current_observer = active;
        previous
    }

    /// A copy of the dependents of `value_id`, first reader first.
    pub fn dependents(&self, value_id: usize) -> (list: Vec<usize>)
        ensures
            list@ == self@.dependents(value_id),
    {
        match self.dependencies.get(&value_id) {
            Some(list) => list.clone(),
            None => Vec::new(),
        }
    }
}

/// Reverses `list` in place.
fn reverse(list: &mut Vec<usize>)
    ensures
        final(list)@ == old(list)@.reverse(),
{
    let n = list.len();
    let mut out: Vec<usize> = Vec::new();
    let mut i: usize = n;
    while i > 0
        invariant
            i <= n,
            n == list.len(),
            *list == *old(list),
            out@ == list@.reverse().take(n - i),
        decreases i,
    {
        i -= 1;
        out.push(list[i]);
        proof {
            let reversed = list@.reverse();
            assert(reversed.take(n - i) == reversed.take(n - i - 1).push(list@[i as int]));
        }
    }
    proof {
        assert(list@.reverse().take(n as int) == list@.reverse());
    }
    *list = out;
}

/// The state of a runtime apart from the bodies of its effects: the id
/// allocator, the registry, the payloads of the cells, the cached values of
/// the memos, and the effects that are due. This is what the closures of memos
/// and effects are handed, and what a guard needs to reach in order to remove
/// its observer.
pub struct RuntimeInner<T> {
    serial: usize,
    next_id: usize,
    context: ReactiveContext,
    values: HashMap<usize, T>,
    cached: HashMap<usize, T>,
    // A queue: the effect to run next is the first one.
    due: Vec<usize>,
}

impl<T> View for RuntimeInner<T> {
    type V = RuntimeState<T>;

    closed spec fn view(&self) -> RuntimeState<T> {
        RuntimeState {
            serial: self.serial,
            next_id: self.next_id,
            registry: self.context@,
            values: self.values@,
            cached: self.cached@,
            due: self.due@,
        }
    }
}

impl<T> RuntimeInner<T> {
    /// A runtime in which nothing has happened yet.
    pub fn new(serial: usize) -> (runtime: Self)
        ensures
            runtime@ == RuntimeState::<T>::fresh(serial),
    {
        RuntimeInner {
            serial,
            next_id: 0,
            context: ReactiveContext::new(),
            values: HashMap::new(),
            cached: HashMap::new(),
            due: Vec::new(),
        }
    }

    /// Does nothing; tells the caller that the runtime is well-formed.
    pub fn well_formed(&self)
        ensures
            self@.wf(),
    {
        proof {
            use_type_invariant(&self.context);
        }
    }

    /// Wipes all edges, records and dirty flags, forgets the effects that were
    /// due, and starts the ids from zero again. Payloads and cached values
    /// stay.
    pub fn clear(&mut self)
        ensures
            final(self)@ == old(self)@.clear(),
    {
        self.context.clear();
        self.next_id = 0;
        self.due.clear();
    }

    /// The number by which guards recognise this runtime.
    pub fn serial(&self) -> (serial: usize)
        ensures
            serial == self@.serial,
    {
        self.serial
    }

    /// Hands out the next id. Ids grow by one; after the largest id the
    /// counter starts from zero again.
    pub fn next_id(&mut self) -> (id: usize)
        ensures
            id == old(self)@.next_id,
            final(self)@ == old(self)@.allocate(),
            id < usize::MAX ==> final(self)@.next_id > id,
    {
        let id = self.next_id;
        self.next_id = if id == usize::MAX {
            0
        } else {
            id + 1
        };
        id
    }

    /// Records that the active observer, if there is one, has read `signal_id`.
    pub fn track_read(&mut self, signal_id: usize)
        ensures
            final(self)@ == old(self)@.track_read(signal_id),
    {
        self.context.track_read(signal_id);
    }

    /// Tells the dependents of `value_id`, as they are now, that it has
    /// changed: first reader first, and each memo's own dependents before the
    /// next one. Every memo reached becomes dirty; every effect reached is
    /// due, behind those that were due already.
    pub fn invalidate(&mut self, value_id: usize)
        ensures
            final(self)@ == old(self)@.notify(value_id),
            old(self)@.registry.invalidated_to(final(self)@.registry),
            final(self)@.values == old(self)@.values,
    {
        let mut stack = self.context.dependents(value_id);
        reverse(&mut stack);
        self.reach(stack);
    }

    /// Tells observer `observer_id` of a change. A clean memo becomes dirty
    /// and so does every memo reached from it; a memo that is dirty already
    /// stops the propagation; an effect is due; any other id is passed over.
    pub fn invalidate_observer(&mut self, observer_id: usize)
        ensures
            final(self)@ == old(self)@.mark_observer_dirty(observer_id),
            old(self)@.registry.invalidated_to(final(self)@.registry),
            final(self)@.values == old(self)@.values,
    {
        let mut stack: Vec<usize> = Vec::new();
        stack.push(observer_id);
        assert(stack@ =~= seq![observer_id]);
        self.reach(stack);
    }

    /// Tells the observers on `stack` of a change, the last one first.
    fn reach(&mut self, stack: Vec<usize>)
        ensures
            final(self)@ == old(self)@.reach(stack@),
            old(self)@.registry.invalidated_to(final(self)@.registry),
            final(self)@.values == old(self)@.values,
    {
        let ghost start = stack@;
        let mut stack = stack;
        self.well_formed();
        proof {
            self@.lemma_reach_invalidates(start);
        }
        while stack.len() > 0
            invariant
                self@.wf(),
                self@.reach(stack@) == old(self)@.reach(start),
            decreases self@.registry.clean_memos().len(), stack.len(),
        {
            let ghost before = self@;
            let ghost waiting = stack@;
            let observer = match stack.pop() {
                Some(observer) => observer,
                None => vstd::pervasive::unreached(),
            };
            assert(stack@ == waiting.drop_last());
            if self.context.is_memo(observer) {
                if !self.context.is_memo_dirty(observer) {
                    proof {
                        before.registry.lemma_mark_decreases(observer);
                    }
                    self.context.mark_memo_dirty(observer);
                    let mut dependents = self.context.dependents(observer);
                    reverse(&mut dependents);
                    let ghost rest = stack@;
                    stack.append(&mut dependents);
                    assert(stack@ == rest + before.registry.dependents(observer).reverse());
                }
            } else if self.context.is_effect(observer) {
                self.due.push(observer);
                proof {
                    let reached = before.registry.propagate(stack@).1;
                    assert(before.due + (seq![observer] + reached) =~= before.due.push(observer)
                        + reached);
                }
            }
            self.well_formed();
        }
        proof {
            assert(self@.due + Seq::<usize>::empty() =~= self@.due);
        }
    }

    /// A copy of the dependents of `value_id` as they are now, first reader
    /// first.
    pub fn dependents(&self, value_id: usize) -> (list: Vec<usize>)
        ensures
            list@ == self@.registry.dependents(value_id),
    {
        self.context.dependents(value_id)
    }

    /// Whether `observer_id` is a registered effect.
    pub fn is_effect(&self, observer_id: usize) -> (found: bool)
        ensures
            found == self@.registry.is_effect(observer_id),
    {
        self.context.is_effect(observer_id)
    }

    /// How many effects are due.
    pub fn due(&self) -> (count: usize)
        ensures
            count == self@.due.len(),
    {
        self.due.len()
    }

    /// Takes the effect that is due next off the queue.
    pub fn take_due(&mut self) -> (effect: Option<usize>)
        ensures
            effect == if old(self)@.due.len() > 0 {
                Some(old(self)@.due[0])
            } else {
                None
            },
            final(self)@ == if old(self)@.due.len() > 0 {
                old(self)@.take_due()
            } else {
                old(self)@
            },
    {
        if self.due.len() > 0 {
            let effect = self.due.remove(0);
            assert(self@.due =~= old(self)@.due.drop_first());
            Some(effect)
        } else {
            None
        }
    }

    /// Registers `observer_id` as an effect, after dropping the edges that an
    /// earlier use of the id left behind. The body of the effect is kept by
    /// the runtime around this state.
    pub fn create_observer(&mut self, observer_id: usize)
        ensures
            final(self)@ == old(self)@.create_observer(observer_id),
    {
        self.context.create_observer(observer_id);
    }

    /// Removes the record of `observer_id` and every edge that ends in it.
    pub fn remove_observer(&mut self, observer_id: usize)
        ensures
            final(self)@ == old(self)@.remove_observer(observer_id),
    {
        self.context.remove_observer(observer_id);
    }

    /// Drops every edge that ends in `observer_id`.
    pub fn clear_dependencies(&mut self, observer_id: usize)
        ensures
            final(self)@ == old(self)@.clear_dependencies(observer_id),
    {
        self.context.clear_dependencies(observer_id);
    }

    /// Runs `f` with `observer_id` as the active observer, so that the reads
    /// that `f` makes are attributed to it, and puts the observer that was
    /// active before back in place.
    pub fn with_observer<R, F: FnOnce(&mut RuntimeInner<T>) -> R>(
        &mut self,
        observer_id: usize,
        f: F,
    ) -> (result: R)
        requires
            forall|rt: &mut RuntimeInner<T>|
                rt@ == old(self)@.with_active(Some(observer_id)) ==> #[trigger] f.requires((rt,)),
        ensures
            exists|rt: &mut RuntimeInner<T>|
                {
                    &&& rt@ == old(self)@.with_active(Some(observer_id))
                    &&& #[trigger] f.ensures((rt,), result)
                    &&& final(self)@ == final(rt)@.with_active(old(self)@.registry.active)
                },
    {
        let previous = self.replace_active(Some(observer_id));
        let result = f(self);
        self.replace_active(previous);
        result
    }

    /// Makes `active` the observer that reads are attributed to, and returns
    /// the one that was.
    pub(crate) fn replace_active(&mut self, active: Option<usize>) -> (previous: Option<usize>)
        ensures
            previous == old(self)@.registry.active,
            final(self)@ == old(self)@.with_active(active),
    {
        self.context.replace_active(active)
    }

    /// The observer that reads are attributed to right now.
    pub fn active_observer(&self) -> (active: Option<usize>)
        ensures
            active == self@.registry.active,
    {
        self.context.active()
    }

    /// Registers `memo_id` as a memo that has not been computed yet.
    pub fn register_memo(&mut self, memo_id: usize)
        ensures
            final(self)@ == old(self)@.register_memo(memo_id),
    {
        self.context.register_memo(memo_id);
    }

    /// Whether `memo_id` must be recomputed; an unknown memo counts as dirty.
    pub fn is_memo_dirty(&self, memo_id: usize) -> (dirty: bool)
        ensures
            dirty == self@.registry.is_memo_dirty(memo_id),
    {
        self.context.is_memo_dirty(memo_id)
    }

    /// Clears the dirty flag of `memo_id`.
    pub fn mark_memo_clean(&mut self, memo_id: usize)
        ensures
            final(self)@ == old(self)@.mark_memo_clean(memo_id),
    {
        self.context.mark_memo_clean(memo_id);
    }

    /// Whether the runtime holds a payload for cell `cell_id`.
    pub fn has_value(&self, cell_id: usize) -> (found: bool)
        ensures
            found == self@.values.contains_key(cell_id),
    {
        self.values.contains_key(&cell_id)
    }

    /// The payload of cell `cell_id`, read without tracking.
    pub fn value(&self, cell_id: usize) -> (payload: Option<&T>)
        ensures
            payload == if self@.values.contains_key(cell_id) {
                Some(&self@.values[cell_id])
            } else {
                None
            },
    {
        self.values.get(&cell_id)
    }

    /// Makes `payload` the payload of cell `cell_id`, without notifying anyone.
    pub(crate) fn store_value(&mut self, cell_id: usize, payload: T)
        ensures
            final(self)@ == old(self)@.write(cell_id, payload),
    {
        self.values.insert(cell_id, payload);
    }

    /// Takes the payload of cell `cell_id` out of the runtime.
    pub(crate) fn take_value(&mut self, cell_id: usize) -> (payload: Option<T>)
        ensures
            payload == if old(self)@.values.contains_key(cell_id) {
                Some(old(self)@.values[cell_id])
            } else {
                None
            },
            final(self)@ == (RuntimeState {
                values: old(self)@.values.remove(cell_id),
                ..old(self)@
            }),
    {
        self.values.remove(&cell_id)
    }

    /// The value that memo `memo_id` computed last, if it has computed one.
    pub fn cached_value(&self, memo_id: usize) -> (value: Option<&T>)
        ensures
            value == if self@.cached.contains_key(memo_id) {
                Some(&self@.cached[memo_id])
            } else {
                None
            },
    {
        self.cached.get(&memo_id)
    }

    /// Makes `value` the cached value of memo `memo_id`.
    pub(crate) fn store_cached(&mut self, memo_id: usize, value: T)
        ensures
            final(self)@ == old(self)@.cache(memo_id, value),
    {
        self.cached.insert(memo_id, value);
    }
}

} // verus!
