//! The sequential engine: listeners run one at a time, in registration
//! order, each seeing what the previous one did to the event.
use std::any::TypeId;
use vstd::prelude::*;

use crate::registry::{
    lemma_matching_every_entry, lemma_matching_in_order, lemma_matching_only_shape,
    lemma_no_listener_no_match, matching_indices, Registry,
};
use crate::handler::{invoke, CallLog, Handler};
use crate::shape::shape_of;
use crate::Event;

verus! {

/// What a sequential dispatch can report.
#[derive(Debug, PartialEq, Eq, Structural)]
pub enum Error {
    /// The event type is not registered with the dispatcher.
    UnregisteredEvent,
    /// The listener lock is poisoned. Never produced here: a dispatcher is
    /// reached through `&mut`, so no lock is held and none can be poisoned.
    LockPoisoned,
}

/// What one complete dispatch for `shape` over the entries `shapes` adds to
/// the log of calls: every entry of that shape, once, in registration order.
pub open spec fn dispatched(before: Seq<int>, after: Seq<int>, shapes: Seq<TypeId>, shape: TypeId) -> bool {
    after == before + matching_indices(shapes, shape)
}

/// What one dispatch for `shape` did: on success it called every entry of
/// that shape in registration order; on failure a listener refused the event
/// after the entries before it had been called, and the dispatch stopped.
pub open spec fn dispatch_outcome(
    before: Seq<int>,
    after: Seq<int>,
    shapes: Seq<TypeId>,
    shape: TypeId,
    r: Result<(), Error>,
) -> bool {
    let reached = matching_indices(shapes, shape);
    match r {
        Ok(()) => dispatched(before, after, shapes, shape),
        Err(e) => e == Error::UnregisteredEvent && exists|n: int|
            0 < n <= reached.len() && after == before + reached.take(n),
    }
}

/// A dispatcher that runs the listeners of an event one after another.
pub struct Dispatcher {
    registry: Registry<Handler>,
    log: CallLog,
}

impl Dispatcher {
    /// The shape each listener was registered for, in registration order.
    pub closed spec fn shapes(&self) -> Seq<TypeId> {
        self.registry.shapes()
    }

    /// Every handler call made so far, accepted or refused, as positions in
    /// `shapes`, in order.
    pub closed spec fn deliveries(&self) -> Seq<int> {
        self.log@
    }

    /// Each handler carries its own position.
    pub closed spec fn wf(&self) -> bool {
        &&& self.registry.handlers().len() == self.shapes().len()
        &&& forall|i: int|
            0 <= i < self.shapes().len() ==> (#[trigger] self.registry.handlers()[i]).slot() == i
    }

    /// Create a new event dispatcher instance.
    pub fn new() -> (r: Self)
        ensures
            r.wf(),
            r.shapes() == Seq::<TypeId>::empty(),
            r.deliveries() == Seq::<int>::empty(),
    {
        Dispatcher { registry: Registry::new(), log: CallLog::new() }
    }

    /// Register an event listener with the dispatcher.
    pub fn listen<Ev: Event + 'static>(&mut self, on_event: impl FnMut(&mut Ev) + 'static) -> (r:
        Result<(), Error>)
        requires
            old(self).wf(),
        ensures
            r == Ok::<(), Error>(()),
            final(self).wf(),
            final(self).shapes().len() == old(self).shapes().len() + 1,
            final(self).shapes() == old(self).shapes().push(final(self).shapes().last()),
            final(self).deliveries() == old(self).deliveries(),
    {
        let shape = shape_of::<Ev>();
        let slot = self.registry.len();
        self.registry.register(shape, Handler::new(on_event, slot));
        assert forall|i: int| 0 <= i < self.shapes().len() implies (
        #[trigger] self.registry.handlers()[i]).slot() == i by {
            if i < old(self).shapes().len() {
                assert(self.registry.handlers()[i] == old(self).registry.handlers()[i]);
            }
        }
        Ok(())
    }

    /// Determine if listeners were registered for the shape `shape`.
    pub fn has_listeners_for(&self, shape: &TypeId) -> (r: bool)
        ensures
            r == self.shapes().contains(*shape),
    {
        self.registry.has_shape(shape)
    }

    /// Determine if a given event has listeners.
    pub fn has_listeners<Ev: Event + 'static>(&self) -> (r: Result<bool, Error>)
        ensures
            exists|shape: TypeId| r == Ok::<bool, Error>(self.shapes().contains(shape)),
    {
        let shape = shape_of::<Ev>();
        Ok(self.has_listeners_for(&shape))
    }

    /// Hand `event` to each listener registered for `shape`, in registration
    /// order, stopping at the first one that refuses it. A listener refuses
    /// an event of another type than its own.
    pub fn dispatch_to<Ev: Event + 'static>(&mut self, shape: &TypeId, event: &mut Ev) -> (r:
        Result<(), Error>)
        requires
            old(self).wf(),
        ensures
            final(self).wf(),
            final(self).shapes() == old(self).shapes(),
            dispatch_outcome(
                old(self).deliveries(),
                final(self).deliveries(),
                old(self).shapes(),
                *shape,
                r,
            ),
            matching_indices(old(self).shapes(), *shape).len() == 0 ==> {
                &&& r == Ok::<(), Error>(())
                &&& *final(event) == *old(event)
            },
    {
        let order = self.registry.matching(shape);
        let ghost reached = matching_indices(self.shapes(), *shape);
        let ghost start = self.log@;
        proof {
            lemma_matching_only_shape(self.shapes(), *shape);
        }
        let mut n: usize = 0;
        while n < order.len()
            invariant
                self.wf(),
                self.shapes() == old(self).shapes(),
                reached == matching_indices(self.shapes(), *shape),
                order@.map_values(|i: usize| i as int) == reached,
                n <= order@.len(),
                self.log@ == start + reached.take(n as int),
                start == old(self).deliveries(),
                n == 0 ==> *event == *old(event),
                forall|j: int|
                    0 <= j < reached.len() ==> 0 <= #[trigger] reached[j] < self.shapes().len(),
            decreases order@.len() - n,
        {
            let i = order[n];
            assert(reached[n as int] == i as int);
            let ghost before = self.registry.handlers();
            let accepted = invoke(self.registry.handler_mut(i), event, &mut self.log);
            assert forall|k: int| 0 <= k < self.shapes().len() implies (
            #[trigger] self.registry.handlers()[k]).slot() == k by {
                if k != i {
                    assert(self.registry.handlers()[k] == before[k]);
                }
            }
            assert(reached.take(n + 1) =~= reached.take(n as int).push(i as int));
            assert(self.log@ =~= start + reached.take(n + 1));
            if !accepted {
                return Err(Error::UnregisteredEvent);
            }
            n += 1;
        }
        assert(reached.take(n as int) =~= reached);
        assert(start + Seq::<int>::empty() =~= start);
        Ok(())
    }

    /// Fire an event and call its listeners, in registration order.
    pub fn dispatch<Ev: Event + 'static>(&mut self, event: &mut Ev) -> (r: Result<(), Error>)
        requires
            old(self).wf(),
        ensures
            final(self).wf(),
            final(self).shapes() == old(self).shapes(),
            exists|shape: TypeId|
                {
                    &&& dispatch_outcome(
                        old(self).deliveries(),
                        final(self).deliveries(),
                        old(self).shapes(),
                        shape,
                        r,
                    )
                    &&& matching_indices(old(self).shapes(), shape).len() == 0 ==> {
                        &&& r == Ok::<(), Error>(())
                        &&& *final(event) == *old(event)
                    }
                },
    {
        let shape = shape_of::<Ev>();
        self.dispatch_to(&shape, event)
    }
}

impl Default for Dispatcher {
    fn default() -> (r: Self)
        ensures
            r.wf(),
            r.shapes() == Seq::<TypeId>::empty(),
            r.deliveries() == Seq::<int>::empty(),
    {
        Self::new()
    }
}

/// The calls that one dispatch added to the log: what follows `before` in `after`.
pub open spec fn new_deliveries(before: Dispatcher, after: Dispatcher) -> Seq<int> {
    after.deliveries().subrange(before.deliveries().len() as int, after.deliveries().len() as int)
}

/// Once a listener is registered for `shape`, the dispatcher reports
/// listeners for `shape` for as long as it lives: a later state whose shapes
/// start with those of the registering state still holds `shape`.
pub proof fn lemma_registration_visible(registered: Dispatcher, later: Dispatcher, shape: TypeId)
    requires
        registered.shapes().len() > 0,
        registered.shapes().last() == shape,
        registered.shapes().len() <= later.shapes().len(),
        later.shapes().subrange(0, registered.shapes().len() as int) == registered.shapes(),
    ensures
        later.shapes().contains(shape),
{
    let i = registered.shapes().len() - 1;
    assert(later.shapes().subrange(0, registered.shapes().len() as int)[i] == later.shapes()[i]);
}

/// A dispatch for `shape` calls only listeners registered for `shape`: no
/// listener of another shape is ever reached.
pub proof fn lemma_dispatch_isolated(
    before: Dispatcher,
    after: Dispatcher,
    shape: TypeId,
    r: Result<(), Error>,
)
    requires
        dispatch_outcome(before.deliveries(), after.deliveries(), before.shapes(), shape, r),
    ensures
        before.deliveries().len() <= after.deliveries().len(),
        before.deliveries() == after.deliveries().subrange(0, before.deliveries().len() as int),
        forall|j: int|
            0 <= j < new_deliveries(before, after).len() ==> {
                let p = #[trigger] new_deliveries(before, after)[j];
                0 <= p < before.shapes().len() && before.shapes()[p] == shape
            },
{
    lemma_matching_only_shape(before.shapes(), shape);
    let reached = matching_indices(before.shapes(), shape);
    let n = new_deliveries(before, after).len() as int;
    assert(after.deliveries() == before.deliveries() + reached.take(n)) by {
        if r is Ok {
            assert(reached.take(reached.len() as int) =~= reached);
        }
    }
    assert(new_deliveries(before, after) =~= reached.take(n));
    assert(before.deliveries() =~= after.deliveries().subrange(0, before.deliveries().len() as int));
}

/// A dispatch calls every listener of its shape exactly once, in
/// registration order; what it calls depends only on the registered shapes,
/// so it is the same on every dispatch of that shape.
pub proof fn lemma_dispatch_in_order(before: Dispatcher, after: Dispatcher, shape: TypeId)
    requires
        dispatched(before.deliveries(), after.deliveries(), before.shapes(), shape),
    ensures
        new_deliveries(before, after) == matching_indices(before.shapes(), shape),
        forall|a: int, b: int|
            0 <= a < b < new_deliveries(before, after).len() ==> #[trigger] new_deliveries(
                before,
                after,
            )[a] < #[trigger] new_deliveries(before, after)[b],
        forall|p: int|
            0 <= p < before.shapes().len() && before.shapes()[p] == shape ==> new_deliveries(
                before,
                after,
            ).contains(p),
{
    lemma_matching_in_order(before.shapes(), shape);
    lemma_matching_every_entry(before.shapes(), shape);
    assert(new_deliveries(before, after) =~= matching_indices(before.shapes(), shape));
}

/// Dispatching an event that no listener was registered for calls nothing.
pub proof fn lemma_dispatch_without_listeners(before: Dispatcher, after: Dispatcher, shape: TypeId)
    requires
        !before.shapes().contains(shape),
        dispatched(before.deliveries(), after.deliveries(), before.shapes(), shape),
    ensures
        matching_indices(before.shapes(), shape).len() == 0,
        after.deliveries() == before.deliveries(),
{
    lemma_no_listener_no_match(before.shapes(), shape);
    assert(before.deliveries() + Seq::<int>::empty() =~= before.deliveries());
}

/// Once a listener for `shape` has been registered, the dispatcher reports
/// listeners for `shape` for as long as it lives: later states whose shapes
/// start with the registering state's shapes still hold `shape`.
pub proof fn lemma_listen_then_has_listeners(
    before: Dispatcher,
    registered: Dispatcher,
    later: Dispatcher,
    shape: TypeId,
)
    requires
        registered.shapes() == before.shapes().push(shape),
        registered.shapes().len() <= later.shapes().len(),
        later.shapes().subrange(0, registered.shapes().len() as int) == registered.shapes(),
    ensures
        registered.shapes().contains(shape),
        later.shapes().contains(shape),
{
    assert(registered.shapes().subrange(0, registered.shapes().len() as int) =~= registered.shapes());
    lemma_registration_visible(registered, later, shape);
    lemma_registration_visible(registered, registered, shape);
}

} // verus!
