//! The store: no dependency tracking and nothing lazy. Every write calls
//! every subscriber, in the order in which they subscribed.

use vstd::prelude::*;

verus! {

/// A state together with its subscribers.
pub struct Store<T, F> {
    state: T,
    subscribers: Vec<F>,
}

impl<T: Clone, F: Fn(&T)> Store<T, F> {
    /// The state that the store holds.
    pub closed spec fn state(&self) -> T {
        self.state
    }

    /// The subscribers, first subscriber first.
    pub closed spec fn subscribers(&self) -> Seq<F> {
        self.subscribers@
    }

    /// Every subscriber accepts `state`.
    pub open spec fn accepts(&self, state: T) -> bool {
        forall|i: int|
            0 <= i < self.subscribers().len() ==> #[trigger] self.subscribers()[i].requires(
                (&state,),
            )
    }

    /// Every subscriber has been called with `state`.
    pub open spec fn heard(&self, state: T) -> bool {
        forall|i: int|
            0 <= i < self.subscribers().len() ==> #[trigger] self.subscribers()[i].ensures(
                (&state,),
                (),
            )
    }

    /// A store that holds `initial` and has no subscriber.
    pub fn new(initial: T) -> (store: Self)
        ensures
            store.state() == initial,
            store.subscribers() == Seq::<F>::empty(),
    {
        Store { state: initial, subscribers: Vec::new() }
    }

    /// A copy of the state.
    pub fn get(&self) -> (state: T)
        ensures
            cloned(self.state(), state),
    {
        self.state.clone()
    }

    /// Lets `f` change the state in place, then calls every subscriber with
    /// the new state.
    pub fn update<G: FnOnce(&mut T)>(&mut self, f: G)
        requires
            forall|state: &mut T| *state == old(self).state() ==> #[trigger] f.requires((state,)),
            forall|state: &mut T|
                *state == old(self).state() && #[trigger] f.ensures((state,), ()) ==> old(
                    self,
                ).accepts(*final(state)),
        ensures
            exists|state: &mut T|
                {
                    &&& *state == old(self).state()
                    &&& #[trigger] f.ensures((state,), ())
                    &&& final(self).state() == *final(state)
                },
            final(self).subscribers() == old(self).subscribers(),
            final(self).heard(final(self).state()),
    {
        f(&mut self.state);
        assert(self.subscribers() == old(self).subscribers());
        assert(old(self).accepts(self.state()));
        self.notify();
    }

    /// Replaces the state, then calls every subscriber with the new state.
    pub fn set(&mut self, new_state: T)
        requires
            old(self).accepts(new_state),
        ensures
            final(self).state() == new_state,
            final(self).subscribers() == old(self).subscribers(),
            final(self).heard(new_state),
    {
        self.state = new_state;
        self.notify();
    }

    /// Adds `callback` behind the subscribers that the store has. It is not
    /// called now.
    pub fn subscribe(&mut self, callback: F)
        ensures
            final(self).state() == old(self).state(),
            final(self).subscribers() == old(self).subscribers().push(callback),
    {
        self.subscribers.push(callback);
    }

    /// Calls every subscriber with the state, first subscriber first.
    fn notify(&self)
        requires
            self.accepts(self.state()),
        ensures
            self.heard(self.state()),
    {
        let mut i: usize = 0;
        while i < self.subscribers.len()
            invariant
                i <= self.subscribers.len(),
                self.accepts(self.state()),
                forall|j: int|
                    0 <= j < i ==> #[trigger] self.subscribers()[j].ensures((&self.state(),), ()),
            decreases self.subscribers.len() - i,
        {
            assert(self.subscribers()[i as int].requires((&self.state(),)));
            (self.subscribers[i])(&self.state);
            i += 1;
        }
    }

    /// Hands the state to `f` by reference and returns what `f` returns.
    pub fn read<R, G: FnOnce(&T) -> R>(&self, f: G) -> (result: R)
        requires
            f.requires((&self.state(),)),
        ensures
            f.ensures((&self.state(),), result),
    {
        f(&self.state)
    }
}

} // verus!
