//! The constructor function for effects.

use crate::effect::Effect;
use crate::runtime::context::RuntimeInner;
use crate::runtime::reactive::ReactiveRuntime;
use vstd::prelude::*;

verus! {

/// Registers `effect` under the next id of `rt` and runs it once, as the
/// active observer: the same as `Effect::new`.
pub fn create_effect<
    T: Clone,
    F: Fn(&mut RuntimeInner<T>),
    W: Fn(T),
    M: Fn(&T) -> T,
    Z: Fn(&T, &T) -> T,
>(rt: &mut ReactiveRuntime<T, F, W, M, Z>, effect: F) -> (made: Effect)
    requires
        forall|inner: &mut RuntimeInner<T>|
            inner@ == old(rt).state().begin_effect() ==> #[trigger] effect.requires((inner,)),
    ensures
        made@ == old(rt).state().next_id,
        made.issuer() == old(rt).state().serial,
        final(rt).bodies() == old(rt).bodies().insert(made@, effect),
        final(rt).watchers() == old(rt).watchers().remove(made@),
        final(rt).maps() == old(rt).maps().remove(made@),
        final(rt).zips() == old(rt).zips().remove(made@),
        old(rt).total() && (forall|inner: &mut RuntimeInner<T>| #[trigger]
            effect.requires((inner,))) ==> final(rt).total(),
        exists|inner: &mut RuntimeInner<T>|
            {
                &&& inner@ == old(rt).state().begin_effect()
                &&& #[trigger] effect.ensures((inner,), ())
                &&& final(rt).state() == final(inner)@.with_active(
                    old(rt).state().registry.active,
                )
            },
{
    Effect::new(rt, effect)
}

} // verus!
