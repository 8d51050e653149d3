//! Memos: pull observers with a cached value.

use crate::runtime::context::RuntimeInner;
use crate::runtime::state::RuntimeState;
use std::marker::PhantomData;
use vstd::prelude::*;

verus! {

/// A computation whose result is cached in the runtime. It is computed on
/// the first read and again on the first read after one of the values it read
/// has changed.
pub struct Memo<T, F> {
    id: usize,
    compute: F,
    _value: PhantomData<T>,
}

impl<T, F> View for Memo<T, F> {
    type V = usize;

    /// The id of the memo.
    closed spec fn view(&self) -> usize {
        self.id
    }
}

impl<T, F> Memo<T, F> {
    /// The computation that the memo was made with.
    pub closed spec fn computation(&self) -> F {
        self.compute
    }
}

impl<T, F: Clone> Clone for Memo<T, F> {
    /// Another handle to the same memo, with a copy of the computation.
    fn clone(&self) -> (copy: Self)
        ensures
            copy@ == self@,
            cloned(self.computation(), copy.computation()),
    {
        Memo { id: self.id, compute: self.compute.clone(), _value: PhantomData }
    }
}

impl<T: Clone, F: Fn(&mut RuntimeInner<T>) -> T> Memo<T, F> {
    /// What a read of the memo asks of the runtime: a clean memo has a cached
    /// value, and a dirty one can run its computation.
    pub open spec fn readable(&self, before: RuntimeState<T>) -> bool {
        if before.registry.is_memo_dirty(self@) {
            forall|rt: &mut RuntimeInner<T>|
                rt@ == before.begin_recompute(self@) ==> #[trigger] self.computation().requires(
                    (rt,),
                )
        } else {
            before.cached.contains_key(self@)
        }
    }

    /// Makes a memo under the next id of `rt`. Nothing is computed yet: the
    /// memo starts dirty.
    pub fn new(rt: &mut RuntimeInner<T>, compute: F) -> (memo: Self)
        ensures
            memo@ == old(rt)@.next_id,
            memo.computation() == compute,
            final(rt)@ == old(rt)@.allocate().register_memo(memo@),
    {
        let id = rt.next_id();
        rt.register_memo(id);
        Memo { id, compute, _value: PhantomData }
    }

    /// Brings the cached value up to date.
    fn refresh(&self, rt: &mut RuntimeInner<T>)
        requires
            self.readable(old(rt)@),
        ensures
            !old(rt)@.registry.is_memo_dirty(self@) ==> final(rt)@ == old(rt)@.track_read(self@),
            old(rt)@.registry.is_memo_dirty(self@) ==> exists|inner: &mut RuntimeInner<T>|
                {
                    &&& inner@ == old(rt)@.begin_recompute(self@)
                    &&& #[trigger] self.computation().ensures(
                        (inner,),
                        final(rt)@.cached[self@],
                    )
                    &&& final(rt)@ == old(rt)@.end_recompute(
                        final(inner)@,
                        self@,
                        final(rt)@.cached[self@],
                    )
                },
            final(rt)@.cached.contains_key(self@),
            !final(rt)@.registry.is_memo_dirty(self@),
    {
        rt.track_read(self.id);
        if rt.is_memo_dirty(self.id) {
            rt.clear_dependencies(self.id);
            let previous = rt.replace_active(Some(self.id));
            assert(self.computation() == self.compute);
            assert(rt@ == old(rt)@.begin_recompute(self@));
            let value = (self.compute)(rt);
            let ghost computed = rt@;
            rt.replace_active(previous);
            rt.store_cached(self.id, value);
            rt.mark_memo_clean(self.id);
            assert(rt@ == old(rt)@.end_recompute(computed, self@, value));
            assert(rt@.cached[self@] == value);
        }
    }

    /// A copy of the memo's value, recomputed first if the memo is dirty. The
    /// read is attributed to the active observer.
    pub fn get(&self, rt: &mut RuntimeInner<T>) -> (value: T)
        requires
            self.readable(old(rt)@),
        ensures
            !old(rt)@.registry.is_memo_dirty(self@) ==> final(rt)@ == old(rt)@.track_read(self@),
            old(rt)@.registry.is_memo_dirty(self@) ==> exists|inner: &mut RuntimeInner<T>|
                {
                    &&& inner@ == old(rt)@.begin_recompute(self@)
                    &&& #[trigger] self.computation().ensures(
                        (inner,),
                        final(rt)@.cached[self@],
                    )
                    &&& final(rt)@ == old(rt)@.end_recompute(
                        final(inner)@,
                        self@,
                        final(rt)@.cached[self@],
                    )
                },
            final(rt)@.cached.contains_key(self@),
            !final(rt)@.registry.is_memo_dirty(self@),
            cloned(final(rt)@.cached[self@], value),
    {
        self.refresh(rt);
        match rt.cached_value(self.id) {
            Some(value) => value.clone(),
            None => vstd::pervasive::unreached(),
        }
    }

    /// Hands the memo's value to `f` by reference, recomputed first if the
    /// memo is dirty, and returns what `f` returns.
    pub fn with<R, G: FnOnce(&T) -> R>(&self, rt: &mut RuntimeInner<T>, f: G) -> (result: R)
        requires
            self.readable(old(rt)@),
            !old(rt)@.registry.is_memo_dirty(self@) ==> f.requires((&old(rt)@.cached[self@],)),
            old(rt)@.registry.is_memo_dirty(self@) ==> forall|
                inner: &mut RuntimeInner<T>,
                value: T,
            |
                inner@ == old(rt)@.begin_recompute(self@) && #[trigger] self.computation().ensures(
                    (inner,),
                    value,
                ) ==> f.requires((&value,)),
        ensures
            !old(rt)@.registry.is_memo_dirty(self@) ==> final(rt)@ == old(rt)@.track_read(self@),
            old(rt)@.registry.is_memo_dirty(self@) ==> exists|inner: &mut RuntimeInner<T>|
                {
                    &&& inner@ == old(rt)@.begin_recompute(self@)
                    &&& #[trigger] self.computation().ensures(
                        (inner,),
                        final(rt)@.cached[self@],
                    )
                    &&& final(rt)@ == old(rt)@.end_recompute(
                        final(inner)@,
                        self@,
                        final(rt)@.cached[self@],
                    )
                },
            final(rt)@.cached.contains_key(self@),
            !final(rt)@.registry.is_memo_dirty(self@),
            f.ensures((&final(rt)@.cached[self@],), result),
    {
        self.refresh(rt);
        match rt.cached_value(self.id) {
            Some(value) => f(value),
            None => vstd::pervasive::unreached(),
        }
    }

    /// The id of the memo.
    pub fn id(&self) -> (id: usize)
        ensures
            id == self@,
    {
        self.id
    }
}

} // verus!
