//! Side effects that run when what they read has changed.

pub mod effect;

pub use effect::Effect;
