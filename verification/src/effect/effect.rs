//! Effects: push observers.

use crate::runtime::context::RuntimeInner;
use crate::runtime::reactive::ReactiveRuntime;
use vstd::prelude::*;

verus! {

/// The registration of a side effect. The body belongs to the runtime, which
/// runs it once when the effect is made and again whenever a write reaches
/// the effect. The cells and memos that the body reads in its first run are
/// what the effect depends on from then on. `dispose` ends the registration.
pub struct Effect {
    id: usize,
    issuer: usize,
}

impl View for Effect {
    type V = usize;

    /// The id of the effect.
    closed spec fn view(&self) -> usize {
        self.id
    }
}

impl Effect {
    /// The serial number of the runtime that the effect was made in.
    pub closed spec fn issuer(&self) -> usize {
        self.issuer
    }

    /// Registers `effect` under the next id of `rt` and runs it once, as the
    /// active observer, so that what it reads becomes what it depends on.
    pub fn new<
        T: Clone,
        F: Fn(&mut RuntimeInner<T>),
        W: Fn(T),
        M: Fn(&T) -> T,
        Z: Fn(&T, &T) -> T,
    >(rt: &mut ReactiveRuntime<T, F, W, M, Z>, effect: F) -> (made: Self)
        requires
            forall|inner: &mut RuntimeInner<T>|
                inner@ == old(rt).state().begin_effect() ==> #[trigger] effect.requires((inner,)),
        ensures
            made@ == old(rt).state().next_id,
            made.issuer() == old(rt).state().serial,
            final(rt).bodies() == old(rt).bodies().insert(made@, effect),
            final(rt).watchers() == old(rt).watchers().remove(made@),
            final(rt).maps() == old(rt).maps().remove(made@),
            final(rt).zips() == old(rt).zips().remove(made@),
            old(rt).total() && (forall|inner: &mut RuntimeInner<T>| #[trigger]
                effect.requires((inner,))) ==> final(rt).total(),
            exists|inner: &mut RuntimeInner<T>|
                {
                    &&& inner@ == old(rt).state().begin_effect()
                    &&& #[trigger] effect.ensures((inner,), ())
                    &&& final(rt).state() == final(inner)@.with_active(
                        old(rt).state().registry.active,
                    )
                },
    {
        let issuer = rt.serial();
        let id = rt.effect(effect);
        Effect { id, issuer }
    }

    /// Runs the body once more, now. The active observer stays as it is, so
    /// that the reads of this run add nothing to what the effect depends on.
    /// Where the effect has been removed, nothing runs.
    pub fn run<
        T: Clone,
        F: Fn(&mut RuntimeInner<T>),
        W: Fn(T),
        M: Fn(&T) -> T,
        Z: Fn(&T, &T) -> T,
    >(&self, rt: &mut ReactiveRuntime<T, F, W, M, Z>)
        requires
            old(rt).total(),
        ensures
            final(rt).same_observers(old(rt)),
            if old(rt).runs_body(self@, old(rt).state()) {
                exists|inner: &mut RuntimeInner<T>|
                    {
                        &&& inner@ == old(rt).state()
                        &&& #[trigger] old(rt).bodies()[self@].ensures((inner,), ())
                        &&& final(inner)@ == final(rt).state()
                    }
            } else {
                old(rt).reacts(self@, old(rt).state(), final(rt).state())
            },
    {
        rt.run_observer(self.id);
    }

    /// Ends the registration: in the runtime that the effect was made in, its
    /// record, its body and all its edges are removed. Any other runtime is
    /// left as it is.
    pub fn dispose<
        T: Clone,
        F: Fn(&mut RuntimeInner<T>),
        W: Fn(T),
        M: Fn(&T) -> T,
        Z: Fn(&T, &T) -> T,
    >(self, rt: &mut ReactiveRuntime<T, F, W, M, Z>)
        ensures
            old(rt).state().serial == self.issuer() ==> {
                &&& final(rt).state() == old(rt).state().remove_observer(self@)
                &&& final(rt).bodies() == old(rt).bodies().remove(self@)
                &&& final(rt).watchers() == old(rt).watchers().remove(self@)
                &&& final(rt).maps() == old(rt).maps().remove(self@)
                &&& final(rt).zips() == old(rt).zips().remove(self@)
            },
            old(rt).state().serial != self.issuer() ==> {
                &&& final(rt).state() == old(rt).state()
                &&& final(rt).same_observers(old(rt))
            },
            old(rt).total() ==> final(rt).total(),
    {
        if rt.serial() == self.issuer {
            rt.remove_observer(self.id);
        }
    }

    /// The id of the effect.
    pub fn id(&self) -> (id: usize)
        ensures
            id == self@,
    {
        self.id
    }
}

} // verus!
