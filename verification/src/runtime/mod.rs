//! The dependency registry, the propagation of changes through it, and the
//! runtimes that hold it.

pub mod context;
pub mod propagation;
pub mod reactive;
pub mod registry;
pub mod scope;
pub mod state;

pub use context::{ReactiveContext, RuntimeInner};
pub use reactive::{Mapping, ReactiveRuntime, Watcher, Zipping};
pub use registry::Registry;
pub use scope::{RuntimeStack, StackState};
pub use state::RuntimeState;
