//! The reactive primitives: cells, and the constructor functions for cells,
//! memos and effects.

pub mod effect;
pub mod memo;
pub mod signal;

pub use crate::effect::Effect;
pub use crate::memo::Memo;
pub use effect::create_effect;
pub use memo::create_memo;
pub use signal::{create_signal, Derived, Signal, WatchGuard};
