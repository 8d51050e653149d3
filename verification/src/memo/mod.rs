//! Derived computations that are cached and recomputed on demand.

pub mod memo;

pub use memo::Memo;
