//! A plain broadcast container: a state and the callbacks that hear of every
//! write.

pub mod store;

pub use store::Store;
