use vstd::prelude::*;

verus! {

/// What a dispatch of the concurrent engine can report.
#[derive(Debug, PartialEq, Eq, Structural)]
pub enum Error {
    /// The event type is not registered with the dispatcher.
    UnregisteredEvent,
}

} // verus!
