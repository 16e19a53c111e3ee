//! Listeners with their event type erased, and the record of their calls.
use std::any::Any;
use vstd::prelude::*;

use crate::dispatchers::sync::Error;
use crate::Event;

verus! {

/// The boxed listener itself.
///
/// Opaque to Verus, which supports neither `dyn Any` nor a boxed `dyn FnMut`
/// with a result type; it is only made by `erase` and called by `invoke`.
#[verifier::external_body]
pub struct ErasedFn {
    call: Box<dyn FnMut(&mut dyn Any) -> Result<(), Error>>,
}

/// Relies on `Box::new` and `<dyn Any>::downcast_mut`: the boxed listener
/// hands an event of type `Ev` to `on_event` and refuses an event of any
/// other type.
#[verifier::external_body]
fn erase<Ev: Event + 'static, F: FnMut(&mut Ev) + 'static>(mut on_event: F) -> (r: ErasedFn) {
    ErasedFn {
        call: Box::new(move |event: &mut dyn Any| -> Result<(), Error> {
            (on_event)(event.downcast_mut().ok_or(Error::UnregisteredEvent)?);
            Ok(())
        }),
    }
}

/// The handler calls made through one registry, in the order they were
/// made, as positions in that registry: each call that reached a listener,
/// and each that was refused. Only `invoke` extends it.
pub struct CallLog {
    calls: Ghost<Seq<int>>,
}

impl View for CallLog {
    type V = Seq<int>;

    closed spec fn view(&self) -> Seq<int> {
        self.calls@
    }
}

impl CallLog {
    /// A log of no calls.
    pub fn new() -> (r: Self)
        ensures
            r@ == Seq::<int>::empty(),
    {
        CallLog { calls: Ghost(Seq::empty()) }
    }
}

/// A listener tagged with its position in the registry that holds it.
pub struct Handler {
    slot: Ghost<int>,
    call: ErasedFn,
}

impl Handler {
    /// The position this handler was made for.
    pub closed spec fn slot(&self) -> int {
        self.slot@
    }

    /// A handler that passes events of type `Ev` to `on_event`, to stand at
    /// position `slot`.
    pub fn new<Ev: Event + 'static, F: FnMut(&mut Ev) + 'static>(on_event: F, slot: usize) -> (r:
        Self)
        ensures
            r.slot() == slot,
    {
        Handler { slot: Ghost(slot as int), call: erase(on_event) }
    }
}

/// Relies on the call of a listener boxed by `erase`: an event of the
/// listener's own type reaches it and is accepted; any other is refused,
/// untouched. Either way the call is one entry of the log, at the handler's
/// position.
#[verifier::external_body]
pub(crate) fn invoke<Ev: Event + 'static>(
    handler: &mut Handler,
    event: &mut Ev,
    log: &mut CallLog,
) -> (accepted: bool)
    ensures
        !accepted ==> *final(event) == *old(event),
        final(handler).slot() == old(handler).slot(),
        final(log)@ == old(log)@.push(old(handler).slot()),
{
    (handler.call.call)(event).is_ok()
}

} // verus!
