//! A sync/async event dispatcher: listeners registered for many event shapes
//! share one ordered registry, and a dispatch reaches exactly the listeners
//! of the dispatched event's shape, in the order they were registered.
use vstd::prelude::*;

pub mod dispatchers;
pub mod handler;
pub mod registry;
pub mod shape;

pub use dispatchers::sync::Dispatcher as SyncDispatcher;

verus! {

/// Marks a type whose values can be dispatched as events.
pub trait Event {}

} // verus!
