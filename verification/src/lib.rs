//! A fine-grained reactive runtime with explicit contexts.
//!
//! Cells ([`Signal`]), cached computations ([`Memo`]) and side effects
//! ([`Effect`]) live in a [`runtime::ReactiveRuntime`]. The runtime finds out
//! at read time who depends on what: a read is attributed to the observer that
//! is active when it happens. Nothing here is ambient: every operation takes
//! the runtime it works on as an argument.
//!
//! A write replaces the payload of a cell and tells the cell's dependents, in
//! the order in which they first read it. A memo that hears of a change
//! becomes dirty and passes the news on to its own dependents; it is
//! recomputed when it is next read. An effect that hears of a change is due,
//! and the write runs the effects that are due before it returns. The runtime
//! keeps their bodies for that. Since nothing rules out an effect that sets
//! itself off again, every write takes a budget: the number of turns after
//! which it returns although effects are still due.
//!
//! A body is handed the state of the runtime, a [`runtime::RuntimeInner`]. It
//! reads and writes cells and memos through it. What it writes makes memos
//! dirty at once; the effects it reaches get their turn behind those that are
//! due already.
//!
//! [`runtime::Registry`] and [`runtime::RuntimeState`] describe the runtime
//! as mathematics; the contracts of the executable functions are stated over
//! them, and so is what holds of a propagation as a whole.

pub mod effect;
pub mod memo;
pub mod runtime;
pub mod signal;
pub mod store;

pub use effect::Effect;
pub use memo::Memo;
pub use signal::{Signal, WatchGuard};
pub use store::Store;
