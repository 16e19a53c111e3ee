//! The null engine: registration and queries behave as in the sequential
//! engine, but a dispatch delivers nothing.
use std::any::TypeId;
use vstd::prelude::*;

use super::sync;
use crate::Event;

verus! {

/// A dispatcher that keeps its listeners but never calls them.
pub struct Dispatcher {
    dispatcher: sync::Dispatcher,
}

impl Dispatcher {
    /// The shape each listener was registered for, in registration order.
    pub closed spec fn shapes(&self) -> Seq<TypeId> {
        self.dispatcher.shapes()
    }

    /// The engine it keeps its listeners in is well formed and has never
    /// called a listener.
    pub closed spec fn wf(&self) -> bool {
        &&& self.dispatcher.wf()
        &&& self.dispatcher.deliveries() == Seq::<int>::empty()
    }

    /// The listener calls made so far, through the engine it keeps.
    pub closed spec fn deliveries(&self) -> Seq<int> {
        self.dispatcher.deliveries()
    }

    /// Create a new null dispatcher.
    pub fn new() -> (r: Self)
        ensures
            r.wf(),
            r.shapes() == Seq::<TypeId>::empty(),
    {
        Dispatcher { dispatcher: sync::Dispatcher::new() }
    }

    /// Register an event listener with the dispatcher.
    pub fn listen<Ev: Event + 'static>(&mut self, on_event: impl FnMut(&mut Ev) + 'static) -> (r:
        Result<(), sync::Error>)
        requires
            old(self).wf(),
        ensures
            r == Ok::<(), sync::Error>(()),
            final(self).wf(),
            final(self).shapes().len() == old(self).shapes().len() + 1,
            final(self).shapes() == old(self).shapes().push(final(self).shapes().last()),
    {
        self.dispatcher.listen(on_event)
    }

    /// Determine if listeners were registered for the shape `shape`.
    pub fn has_listeners_for(&self, shape: &TypeId) -> (r: bool)
        ensures
            r == self.shapes().contains(*shape),
    {
        self.dispatcher.has_listeners_for(shape)
    }

    /// Determine if a given event has listeners.
    pub fn has_listeners<Ev: Event + 'static>(&self) -> (r: Result<bool, sync::Error>)
        ensures
            exists|shape: TypeId| r == Ok::<bool, sync::Error>(self.shapes().contains(shape)),
    {
        let r = self.dispatcher.has_listeners::<Ev>();
        proof {
            let shape = choose|shape: TypeId|
                r == Ok::<bool, sync::Error>(self.dispatcher.shapes().contains(shape));
            assert(r == Ok::<bool, sync::Error>(self.shapes().contains(shape)));
        }
        r
    }

    /// Don't fire an event: the event is left as it is and no listener runs.
    pub fn dispatch<Ev: Event + 'static>(&self, event: &mut Ev)
        requires
            self.wf(),
        ensures
            self.deliveries() == Seq::<int>::empty(),
            *final(event) == *old(event),
    {
    }
}

/// A null dispatcher that registered a listener for `shape` reports
/// listeners for `shape`, while no listener has ever been called through it,
/// however many dispatches followed.
pub proof fn lemma_null_suppression(before: Dispatcher, registered: Dispatcher, shape: TypeId)
    requires
        registered.wf(),
        registered.shapes() == before.shapes().push(shape),
    ensures
        registered.shapes().contains(shape),
        registered.deliveries() == Seq::<int>::empty(),
{
    assert(registered.shapes()[before.shapes().len() as int] == shape);
}

} // verus!
