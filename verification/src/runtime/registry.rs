//! The registry as mathematics: who depends on what, who is registered, and
//! which memos are stale. The executable registry is specified against it.

use vstd::prelude::*;

verus! {

/// The edges, records and dirty flags of one runtime.
#[verifier::ext_equal]
pub struct Registry {
    /// The observer to which reads are attributed right now, if any.
    pub active: Option<usize>,
    /// For every value, its dependents in the order in which they first read it.
    pub forward: Map<usize, Seq<usize>>,
    /// For every observer, the values it depends on.
    pub reverse: Map<usize, Set<usize>>,
    /// The registered push observers.
    pub effects: Set<usize>,
    /// The registered pull observers, each with its dirty flag.
    pub dirty: Map<usize, bool>,
}

/// The test that every id but `observer` passes.
pub open spec fn other_than(observer: usize) -> spec_fn(usize) -> bool {
    |o: usize| o != observer
}

/// `s` without every occurrence of `observer`.
pub open spec fn without(s: Seq<usize>, observer: usize) -> Seq<usize> {
    s.filter(other_than(observer))
}

impl Registry {
    /// The registry of a runtime in which nothing has happened yet.
    pub open spec fn empty() -> Registry {
        Registry {
            active: None,
            forward: Map::total(|value: usize| Seq::<usize>::empty()),
            reverse: Map::total(|observer: usize| Set::<usize>::empty()),
            effects: Set::empty(),
            dirty: Map::empty(),
        }
    }

    /// The observers that must react when `value` changes, first reader first.
    pub open spec fn dependents(self, value: usize) -> Seq<usize> {
        self.forward[value]
    }

    /// The values that `observer` currently depends on.
    pub open spec fn sources(self, observer: usize) -> Set<usize> {
        self.reverse[observer]
    }

    /// Both edge tables are total, no dependent is listed twice, and the two
    /// tables describe the same relation.
    pub open spec fn wf(self) -> bool {
        &&& forall|value: usize| self.forward.dom().contains(value)
        &&& forall|observer: usize| self.reverse.dom().contains(observer)
        &&& forall|value: usize| (#[trigger] self.forward[value]).no_duplicates()
        &&& forall|observer: usize| (#[trigger] self.reverse[observer]).finite()
        &&& forall|value: usize, observer: usize|
            #![trigger self.forward[value].contains(observer)]
            #![trigger self.reverse[observer].contains(value)]
            self.forward[value].contains(observer) <==> self.reverse[observer].contains(value)
        &&& self.dirty.dom().finite()
    }

    /// Whether `observer` is a memo.
    pub open spec fn is_memo(self, observer: usize) -> bool {
        self.dirty.contains_key(observer)
    }

    /// Whether `observer` is a registered effect.
    pub open spec fn is_effect(self, observer: usize) -> bool {
        self.effects.contains(observer)
    }

    /// The test that the registered effects pass.
    pub open spec fn registered(self) -> spec_fn(usize) -> bool {
        |observer: usize| self.is_effect(observer)
    }

    /// The registered effects among `observers`, in the same order.
    pub open spec fn effects_among(self, observers: Seq<usize>) -> Seq<usize> {
        observers.filter(self.registered())
    }

    /// Whether memo `memo` must be recomputed; an unknown memo counts as dirty.
    pub open spec fn is_memo_dirty(self, memo: usize) -> bool {
        if self.dirty.contains_key(memo) {
            self.dirty[memo]
        } else {
            true
        }
    }

    /// The memos whose cached value is up to date.
    pub open spec fn clean_memos(self) -> Set<usize> {
        self.dirty.dom().filter(|memo: usize| !self.dirty[memo])
    }

    /// The registry with `active` as the observer that reads are attributed to.
    pub open spec fn with_active(self, active: Option<usize>) -> Registry {
        Registry { active, ..self }
    }

    /// The registry with the edge from `value` to `observer`, added behind the
    /// dependents that `value` already has.
    pub open spec fn add_edge(self, value: usize, observer: usize) -> Registry {
        if self.forward[value].contains(observer) {
            self
        } else {
            Registry {
                forward: self.forward.insert(value, self.forward[value].push(observer)),
                reverse: self.reverse.insert(observer, self.reverse[observer].insert(value)),
                ..self
            }
        }
    }

    /// A read of `value`: an edge to the active observer, or nothing where no
    /// observer is active.
    pub open spec fn track_read(self, value: usize) -> Registry {
        match self.active {
            Some(observer) => self.add_edge(value, observer),
            None => self,
        }
    }

    /// The registry without any edge that ends in `observer`.
    pub open spec fn clear_dependencies(self, observer: usize) -> Registry {
        Registry {
            forward: Map::total(|value: usize| without(self.forward[value], observer)),
            reverse: self.reverse.insert(observer, Set::empty()),
            ..self
        }
    }

    /// `observer` registered as an effect, with none of its earlier edges.
    pub open spec fn create_observer(self, observer: usize) -> Registry {
        let cleared = self.clear_dependencies(observer);
        Registry { effects: cleared.effects.insert(observer), ..cleared }
    }

    /// `observer` gone: neither its record nor any of its edges is left.
    pub open spec fn remove_observer(self, observer: usize) -> Registry {
        let cleared = self.clear_dependencies(observer);
        Registry { effects: cleared.effects.remove(observer), ..cleared }
    }

    /// `memo` registered as a memo that has not been computed yet.
    pub open spec fn register_memo(self, memo: usize) -> Registry {
        Registry { dirty: self.dirty.insert(memo, true), ..self }
    }

    /// `memo` with its dirty flag cleared.
    pub open spec fn mark_memo_clean(self, memo: usize) -> Registry {
        Registry { dirty: self.dirty.insert(memo, false), ..self }
    }

    /// `memo` with its dirty flag set.
    pub open spec fn mark_memo_dirty(self, memo: usize) -> Registry {
        Registry { dirty: self.dirty.insert(memo, true), ..self }
    }
}

/// A filtered sequence holds exactly the elements that pass.
pub proof fn lemma_filter_contains(s: Seq<usize>, pass: spec_fn(usize) -> bool, o: usize)
    ensures
        s.filter(pass).contains(o) <==> (pass(o) && s.contains(o)),
    decreases s.len(),
{
    reveal(Seq::filter);
    let out = s.filter(pass);
    if s.len() > 0 {
        let front = s.drop_last();
        let last = s.last();
        let kept = front.filter(pass);
        lemma_filter_contains(front, pass, o);
        assert(out == if pass(last) {
            kept.push(last)
        } else {
            kept
        });
        if out.contains(o) {
            let i = choose|i: int| 0 <= i < out.len() && out[i] == o;
            if i < kept.len() {
                assert(kept[i] == o);
                assert(kept.contains(o));
                assert(front.contains(o));
                let j = choose|j: int| 0 <= j < front.len() && front[j] == o;
                assert(s[j] == o);
            } else {
                assert(o == last);
                assert(s[s.len() - 1] == o);
            }
        }
        if pass(o) && s.contains(o) {
            let j = choose|j: int| 0 <= j < s.len() && s[j] == o;
            if j < front.len() {
                assert(front[j] == o);
                assert(front.contains(o));
                assert(kept.contains(o));
                let i = choose|i: int| 0 <= i < kept.len() && kept[i] == o;
                assert(out[i] == o);
            } else {
                assert(last == o);
                assert(out[out.len() - 1] == o);
            }
        }
    } else {
        assert(out == s);
    }
}

/// Filtering adds no duplicate, and keeps everything where everything passes.
pub proof fn lemma_filter_keeps(s: Seq<usize>, pass: spec_fn(usize) -> bool)
    ensures
        s.no_duplicates() ==> s.filter(pass).no_duplicates(),
        (forall|i: int| 0 <= i < s.len() ==> pass(#[trigger] s[i])) ==> s.filter(pass) == s,
    decreases s.len(),
{
    reveal(Seq::filter);
    let out = s.filter(pass);
    if s.len() > 0 {
        let front = s.drop_last();
        let last = s.last();
        let kept = front.filter(pass);
        lemma_filter_keeps(front, pass);
        assert(out == if pass(last) {
            kept.push(last)
        } else {
            kept
        });
        assert(s == front.push(last));
        if s.no_duplicates() {
            assert forall|i: int, j: int| 0 <= i < front.len() && 0 <= j < front.len() && i != j
                implies front[i] != front[j] by {
                assert(s[i] != s[j]);
            }
            assert(front.no_duplicates());
            if pass(last) {
                lemma_filter_contains(front, pass, last);
                if front.contains(last) {
                    let j = choose|j: int| 0 <= j < front.len() && front[j] == last;
                    assert(s[j] == s[s.len() - 1]);
                }
                assert(!kept.contains(last));
                assert forall|i: int, j: int| 0 <= i < out.len() && 0 <= j < out.len() && i != j
                    implies out[i] != out[j] by {
                    if i < kept.len() && j < kept.len() {
                        assert(kept[i] != kept[j]);
                    } else if i < kept.len() {
                        assert(kept.contains(kept[i]));
                    } else {
                        assert(kept.contains(kept[j]));
                    }
                }
            }
        }
        if forall|i: int| 0 <= i < s.len() ==> pass(#[trigger] s[i]) {
            assert forall|i: int| 0 <= i < front.len() implies pass(#[trigger] front[i]) by {
                assert(front[i] == s[i]);
            }
            assert(pass(s[s.len() - 1]));
            assert(out == s);
        }
    } else {
        assert(out == s);
    }
}

/// `without` keeps exactly the elements other than `observer`.
pub proof fn lemma_without_contains(s: Seq<usize>, observer: usize, o: usize)
    ensures
        without(s, observer).contains(o) <==> (o != observer && s.contains(o)),
{
    lemma_filter_contains(s, other_than(observer), o);
}

/// `without` keeps the order and adds no duplicate; where `observer` does not
/// occur, it keeps everything.
pub proof fn lemma_without(s: Seq<usize>, observer: usize)
    ensures
        s.no_duplicates() ==> without(s, observer).no_duplicates(),
        !s.contains(observer) ==> without(s, observer) == s,
{
    lemma_filter_keeps(s, other_than(observer));
    if !s.contains(observer) {
        assert forall|i: int| 0 <= i < s.len() implies #[trigger] s[i] != observer by {
            assert(s.contains(s[i]));
        }
    }
}

impl Registry {
    /// The two edge tables of a well-formed registry describe one relation.
    pub proof fn lemma_edges_symmetric(self, value: usize, observer: usize)
        requires
            self.wf(),
        ensures
            self.dependents(value).contains(observer) <==> self.sources(observer).contains(value),
    {
    }

    /// The empty registry is well-formed.
    pub proof fn lemma_empty_wf()
        ensures
            Registry::empty().wf(),
    {
    }

    /// Adding an edge keeps the registry well-formed.
    pub proof fn lemma_add_edge_wf(self, value: usize, observer: usize)
        requires
            self.wf(),
        ensures
            self.add_edge(value, observer).wf(),
    {
        let next = self.add_edge(value, observer);
        if !self.forward[value].contains(observer) {
            let old_list = self.forward[value];
            let new_list = old_list.push(observer);
            assert(new_list.no_duplicates()) by {
                assert forall|i: int, j: int| 0 <= i < new_list.len() && 0 <= j < new_list.len() && i != j
                    implies new_list[i] != new_list[j] by {
                    if i < old_list.len() && j < old_list.len() {
                        assert(old_list[i] != old_list[j]);
                    } else if i < old_list.len() {
                        assert(old_list.contains(old_list[i]));
                    } else {
                        assert(old_list.contains(old_list[j]));
                    }
                }
            }
            assert forall|v: usize| (#[trigger] next.forward[v]).no_duplicates() by {
                if v != value {
                    assert(next.forward[v] == self.forward[v]);
                }
            }
            assert forall|v: usize, o: usize|
                #![trigger next.forward[v].contains(o)]
                #![trigger next.reverse[o].contains(v)]
                next.forward[v].contains(o) <==> next.reverse[o].contains(v) by {
                assert(self.forward[v].contains(o) <==> self.reverse[o].contains(v));
                if v == value {
                    if new_list.contains(o) {
                        let i = choose|i: int| 0 <= i < new_list.len() && new_list[i] == o;
                        if i < old_list.len() {
                            assert(old_list[i] == o);
                            assert(old_list.contains(o));
                        }
                    }
                    if old_list.contains(o) {
                        let i = choose|i: int| 0 <= i < old_list.len() && old_list[i] == o;
                        assert(new_list[i] == o);
                    }
                    if o == observer {
                        assert(new_list[new_list.len() - 1] == o);
                    }
                }
            }
            assert forall|o: usize| (#[trigger] next.reverse[o]).finite() by {
                assert(self.reverse[o].finite());
            }
        }
    }

    /// A read keeps the registry well-formed.
    pub proof fn lemma_track_read_wf(self, value: usize)
        requires
            self.wf(),
        ensures
            self.track_read(value).wf(),
    {
        match self.active {
            Some(observer) => {
                self.lemma_add_edge_wf(value, observer);
            },
            None => {},
        }
    }

    /// A read that no observer makes leaves no trace.
    pub proof fn lemma_untracked_read(self, value: usize)
        requires
            self.active is None,
        ensures
            self.track_read(value) == self,
    {
    }

    /// A removed observer has no record and no edge.
    pub proof fn lemma_removed_observer_is_gone(self, observer: usize, value: usize)
        requires
            self.wf(),
        ensures
            !self.remove_observer(observer).is_effect(observer),
            !self.remove_observer(observer).dependents(value).contains(observer),
            self.remove_observer(observer).sources(observer) == Set::<usize>::empty(),
    {
        lemma_without_contains(self.forward[value], observer, observer);
    }

    /// Dropping the edges of an observer keeps the registry well-formed, and
    /// leaves the dependents of a value it did not read as they were.
    pub proof fn lemma_clear_dependencies_wf(self, observer: usize)
        requires
            self.wf(),
        ensures
            self.clear_dependencies(observer).wf(),
            self.create_observer(observer).wf(),
            self.remove_observer(observer).wf(),
            forall|value: usize|
                !self.sources(observer).contains(value) ==> #[trigger] self.clear_dependencies(
                    observer,
                ).dependents(value) == self.dependents(value),
    {
        let next = self.clear_dependencies(observer);
        assert forall|v: usize| (#[trigger] next.forward[v]).no_duplicates() by {
            lemma_without(self.forward[v], observer);
        }
        assert forall|v: usize, o: usize|
            #![trigger next.forward[v].contains(o)]
            #![trigger next.reverse[o].contains(v)]
            next.forward[v].contains(o) <==> next.reverse[o].contains(v) by {
            lemma_without_contains(self.forward[v], observer, o);
            assert(self.forward[v].contains(o) <==> self.reverse[o].contains(v));
        }
        assert forall|o: usize| (#[trigger] next.reverse[o]).finite() by {
            assert(self.reverse[o].finite());
        }
        assert forall|value: usize| !self.sources(observer).contains(value) implies #[trigger] next.dependents(
            value,
        ) == self.dependents(value) by {
            lemma_without(self.forward[value], observer);
            assert(self.forward[value].contains(observer) <==> self.reverse[observer].contains(value));
        }
        let created = self.create_observer(observer);
        assert(created.forward == next.forward && created.reverse == next.reverse);
        let removed = self.remove_observer(observer);
        assert(removed.forward == next.forward && removed.reverse == next.reverse);
    }
}

} // verus!
