//! Propagation as a whole: which memos a change makes dirty, which effects it
//! reaches, and in which order.

use super::registry::{lemma_filter_contains, lemma_filter_keeps, Registry};
use vstd::prelude::*;

verus! {

impl Registry {
    /// Tells the observers on `stack` of a change, the last one first, and
    /// each memo's own dependents before what waited already. A clean memo
    /// becomes dirty and its dependents are told in the order in which they
    /// first read it; a memo that is dirty already stops the propagation; an
    /// effect is reached; any other id is passed over. The result is the
    /// registry afterwards and the effects reached, in the order in which
    /// they were reached.
    pub open spec fn propagate(self, stack: Seq<usize>) -> (Registry, Seq<usize>)
        decreases self.clean_memos().len(), stack.len(),
        when self.dirty.dom().finite()
    {
        if stack.len() == 0 {
            (self, Seq::empty())
        } else {
            let observer = stack.last();
            let rest = stack.drop_last();
            if self.is_memo(observer) {
                if self.dirty[observer] {
                    self.propagate(rest)
                } else {
                    proof {
                        self.lemma_mark_decreases(observer);
                    }
                    self.mark_memo_dirty(observer).propagate(
                        rest + self.dependents(observer).reverse(),
                    )
                }
            } else if self.is_effect(observer) {
                let (settled, reached) = self.propagate(rest);
                (settled, seq![observer] + reached)
            } else {
                self.propagate(rest)
            }
        }
    }

    /// Making a clean memo dirty leaves one clean memo less.
    pub proof fn lemma_mark_decreases(self, memo: usize)
        requires
            self.dirty.dom().finite(),
            self.is_memo(memo),
            !self.dirty[memo],
        ensures
            self.mark_memo_dirty(memo).dirty.dom().finite(),
            self.mark_memo_dirty(memo).clean_memos().len() < self.clean_memos().len(),
    {
        let marked = self.mark_memo_dirty(memo);
        let clean = self.clean_memos();
        assert(marked.dirty.dom() =~= self.dirty.dom());
        assert(marked.clean_memos() =~= clean.remove(memo));
        assert(clean.contains(memo));
        assert(clean.finite()) by {
            vstd::set_lib::lemma_len_subset(clean, self.dirty.dom());
        }
    }

    /// `later` is this registry but for memos that were clean and are dirty:
    /// edges, records and the active observer are the same, and no memo
    /// became clean.
    pub open spec fn invalidated_to(self, later: Registry) -> bool {
        &&& later.active == self.active
        &&& later.forward == self.forward
        &&& later.reverse == self.reverse
        &&& later.effects == self.effects
        &&& later.dirty.dom() == self.dirty.dom()
        &&& forall|memo: usize|
            self.dirty.contains_key(memo) && self.dirty[memo] ==> #[trigger] later.dirty[memo]
    }

    /// A propagation touches only dirty flags, and every effect it reaches is
    /// registered and is no memo.
    pub proof fn lemma_propagate_invalidates(self, stack: Seq<usize>)
        requires
            self.wf(),
        ensures
            self.invalidated_to(self.propagate(stack).0),
            self.propagate(stack).0.wf(),
            forall|i: int|
                0 <= i < self.propagate(stack).1.len() ==> {
                    &&& self.is_effect(#[trigger] self.propagate(stack).1[i])
                    &&& !self.is_memo(self.propagate(stack).1[i])
                },
        decreases self.clean_memos().len(), stack.len(),
    {
        if stack.len() > 0 {
            let observer = stack.last();
            let rest = stack.drop_last();
            if self.is_memo(observer) {
                if self.dirty[observer] {
                    self.lemma_propagate_invalidates(rest);
                } else {
                    self.lemma_mark_decreases(observer);
                    let marked = self.mark_memo_dirty(observer);
                    assert(marked.dirty.dom() =~= self.dirty.dom());
                    marked.lemma_propagate_invalidates(rest + self.dependents(observer).reverse());
                }
            } else if self.is_effect(observer) {
                self.lemma_propagate_invalidates(rest);
                let reached = self.propagate(stack).1;
                let later = self.propagate(rest).1;
                assert(reached == seq![observer] + later);
                assert forall|i: int| 0 <= i < reached.len() implies {
                    &&& self.is_effect(#[trigger] reached[i])
                    &&& !self.is_memo(reached[i])
                } by {
                    if i > 0 {
                        assert(reached[i] == later[i - 1]);
                    }
                }
            } else {
                self.lemma_propagate_invalidates(rest);
            }
        }
    }

    /// Every memo on the stack is dirty once the propagation is over.
    pub proof fn lemma_waiting_memos_invalidated(self, stack: Seq<usize>, i: int)
        requires
            self.wf(),
            0 <= i < stack.len(),
            self.is_memo(stack[i]),
        ensures
            self.propagate(stack).0.dirty[stack[i]],
        decreases self.clean_memos().len(), stack.len(),
    {
        let observer = stack.last();
        let rest = stack.drop_last();
        let next = if self.is_memo(observer) && !self.dirty[observer] {
            self.mark_memo_dirty(observer)
        } else {
            self
        };
        let more = if self.is_memo(observer) && !self.dirty[observer] {
            rest + self.dependents(observer).reverse()
        } else {
            rest
        };
        if self.is_memo(observer) && !self.dirty[observer] {
            self.lemma_mark_decreases(observer);
            assert(next.dirty.dom() =~= self.dirty.dom());
        }
        assert(self.propagate(stack).0 == next.propagate(more).0);
        if i < stack.len() - 1 {
            assert(more[i] == stack[i]);
            next.lemma_waiting_memos_invalidated(more, i);
        } else {
            assert(next.dirty[observer]);
            next.lemma_propagate_invalidates(more);
        }
    }

    /// Invalidation goes on to the dependents: where a propagation makes a
    /// clean memo dirty, every memo that depends on it is dirty once the
    /// propagation is over.
    pub proof fn lemma_invalidation_reaches_dependents(
        self,
        stack: Seq<usize>,
        memo: usize,
        dependent: usize,
    )
        requires
            self.wf(),
            self.is_memo(memo),
            !self.dirty[memo],
            self.propagate(stack).0.dirty[memo],
            self.dependents(memo).contains(dependent),
            self.is_memo(dependent),
        ensures
            self.propagate(stack).0.dirty[dependent],
        decreases self.clean_memos().len(), stack.len(),
    {
        if stack.len() > 0 {
            let observer = stack.last();
            let rest = stack.drop_last();
            if self.is_memo(observer) && !self.dirty[observer] {
                self.lemma_mark_decreases(observer);
                let marked = self.mark_memo_dirty(observer);
                let more = rest + self.dependents(observer).reverse();
                assert(marked.dirty.dom() =~= self.dirty.dom());
                if observer == memo {
                    let list = self.dependents(memo);
                    let k = choose|k: int| 0 <= k < list.len() && list[k] == dependent;
                    let at = rest.len() + (list.len() - 1 - k);
                    assert(list.reverse()[list.len() - 1 - k] == dependent);
                    assert(more[at] == dependent);
                    marked.lemma_waiting_memos_invalidated(more, at);
                } else {
                    marked.lemma_invalidation_reaches_dependents(more, memo, dependent);
                }
            } else {
                assert(self.propagate(stack).0 == self.propagate(rest).0);
                self.lemma_invalidation_reaches_dependents(rest, memo, dependent);
            }
        }
    }

    /// Where no memo is among `waiting`, a propagation through them reaches
    /// the registered effects among them, each once and in order, and changes
    /// nothing.
    pub proof fn lemma_propagate_through_effects(self, waiting: Seq<usize>)
        requires
            self.wf(),
            forall|i: int| 0 <= i < waiting.len() ==> !self.is_memo(#[trigger] waiting[i]),
        ensures
            self.propagate(waiting.reverse()) == (self, self.effects_among(waiting)),
            self.effects_among(waiting).no_duplicates() || !waiting.no_duplicates(),
        decreases waiting.len(),
    {
        let registered = self.registered();
        lemma_filter_keeps(waiting, registered);
        if waiting.len() == 0 {
            reveal(Seq::filter);
            assert(waiting.reverse() =~= Seq::<usize>::empty());
            assert(waiting.filter(registered) =~= Seq::<usize>::empty());
        } else {
            let first = waiting.first();
            let rest = waiting.drop_first();
            assert(waiting.reverse() =~= rest.reverse().push(first));
            assert(waiting.reverse().drop_last() =~= rest.reverse());
            assert(!self.is_memo(waiting[0]));
            assert forall|i: int| 0 <= i < rest.len() implies !self.is_memo(#[trigger] rest[i]) by {
                assert(rest[i] == waiting[i + 1]);
            }
            self.lemma_propagate_through_effects(rest);
            assert(waiting =~= seq![first] + rest);
            rest.lemma_filter_prepend(first, registered);
            if !self.is_effect(first) {
                assert(Seq::<usize>::empty() + rest.filter(registered) =~= rest.filter(
                    registered,
                ));
            }
        }
    }

    /// Whether `observer` is reached by a propagation is decided by the
    /// registered effects: one that is not registered is never reached.
    pub proof fn lemma_unregistered_is_not_reached(self, stack: Seq<usize>, observer: usize)
        requires
            self.wf(),
            !self.is_effect(observer),
        ensures
            !self.propagate(stack).1.contains(observer),
    {
        self.lemma_propagate_invalidates(stack);
    }

    /// The registered effects among a list: each that is in the list, and none
    /// twice where the list has none twice.
    pub proof fn lemma_effects_among(self, observers: Seq<usize>, observer: usize)
        ensures
            self.effects_among(observers).contains(observer) <==> (self.is_effect(observer)
                && observers.contains(observer)),
            observers.no_duplicates() ==> self.effects_among(observers).no_duplicates(),
    {
        lemma_filter_contains(observers, self.registered(), observer);
        lemma_filter_keeps(observers, self.registered());
    }
}

} // verus!
