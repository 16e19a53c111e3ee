use std::any::TypeId;
use std::cell::{Cell, RefCell};
use std::rc::Rc;

use epicenter::dispatchers::sync::{Dispatcher, Error};
use epicenter::Event;

#[derive(Debug, PartialEq)]
struct OrderShipped {
    order_id: u64,
}
impl Event for OrderShipped {}

#[derive(Debug, PartialEq)]
struct OrderCancelled {
    reason: u32,
}
impl Event for OrderCancelled {}

#[derive(Debug, PartialEq)]
struct Counter {
    x: u32,
}
impl Event for Counter {}

#[test]
fn test_sync_dispatcher() {
    let mut dispatcher = Dispatcher::new();

    dispatcher
        .listen(|event: &mut OrderShipped| {
            assert_eq!(event.order_id, 123);
        })
        .unwrap();

    dispatcher
        .dispatch(&mut OrderShipped { order_id: 123 })
        .unwrap();
}

#[test]
fn new_dispatcher_has_no_listeners() {
    let dispatcher = Dispatcher::new();
    assert_eq!(dispatcher.has_listeners::<OrderShipped>(), Ok(false));
    assert!(!dispatcher.has_listeners_for(&TypeId::of::<OrderShipped>()));
}

#[test]
fn registration_stays_visible() {
    let mut dispatcher = Dispatcher::new();
    dispatcher.listen(|_: &mut OrderShipped| {}).unwrap();
    assert_eq!(dispatcher.has_listeners::<OrderShipped>(), Ok(true));
    assert_eq!(dispatcher.has_listeners::<OrderCancelled>(), Ok(false));
    dispatcher.listen(|_: &mut OrderCancelled| {}).unwrap();
    dispatcher.dispatch(&mut OrderShipped { order_id: 1 }).unwrap();
    dispatcher.dispatch(&mut OrderCancelled { reason: 2 }).unwrap();
    assert_eq!(dispatcher.has_listeners::<OrderShipped>(), Ok(true));
    assert_eq!(dispatcher.has_listeners::<OrderCancelled>(), Ok(true));
    assert!(dispatcher.has_listeners_for(&TypeId::of::<OrderShipped>()));
}

#[test]
fn dispatch_reaches_only_its_shape() {
    let shipped = Rc::new(Cell::new(0u32));
    let cancelled = Rc::new(Cell::new(0u32));
    let mut dispatcher = Dispatcher::new();
    let s = shipped.clone();
    dispatcher.listen(move |_: &mut OrderShipped| s.set(s.get() + 1)).unwrap();
    let c = cancelled.clone();
    dispatcher.listen(move |_: &mut OrderCancelled| c.set(c.get() + 1)).unwrap();
    let s2 = shipped.clone();
    dispatcher.listen(move |_: &mut OrderShipped| s2.set(s2.get() + 10)).unwrap();

    dispatcher.dispatch(&mut OrderShipped { order_id: 7 }).unwrap();
    assert_eq!(shipped.get(), 11);
    assert_eq!(cancelled.get(), 0);

    dispatcher.dispatch(&mut OrderCancelled { reason: 3 }).unwrap();
    assert_eq!(shipped.get(), 11);
    assert_eq!(cancelled.get(), 1);
}

#[test]
fn listeners_run_in_registration_order() {
    let log = Rc::new(RefCell::new(Vec::new()));
    let mut dispatcher = Dispatcher::new();
    for tag in [1u32, 2, 3] {
        let l = log.clone();
        dispatcher.listen(move |_: &mut OrderShipped| l.borrow_mut().push(tag)).unwrap();
    }
    dispatcher.dispatch(&mut OrderShipped { order_id: 1 }).unwrap();
    assert_eq!(*log.borrow(), vec![1, 2, 3]);
    dispatcher.dispatch(&mut OrderShipped { order_id: 2 }).unwrap();
    assert_eq!(*log.borrow(), vec![1, 2, 3, 1, 2, 3]);
}

#[test]
fn mutation_threads_through_listeners() {
    let seen = Rc::new(Cell::new(0u32));
    let mut dispatcher = Dispatcher::new();
    dispatcher.listen(|event: &mut Counter| event.x = 1).unwrap();
    let s = seen.clone();
    dispatcher
        .listen(move |event: &mut Counter| {
            s.set(event.x);
            assert_eq!(event.x, 1);
            event.x = 2;
        })
        .unwrap();
    let mut event = Counter { x: 0 };
    dispatcher.dispatch(&mut event).unwrap();
    assert_eq!(seen.get(), 1);
    assert_eq!(event, Counter { x: 2 });
}

#[test]
fn dispatch_without_listeners_is_a_no_op() {
    let calls = Rc::new(Cell::new(0u32));
    let mut dispatcher = Dispatcher::new();
    let c = calls.clone();
    dispatcher.listen(move |_: &mut OrderCancelled| c.set(c.get() + 1)).unwrap();
    let mut event = OrderShipped { order_id: 5 };
    assert_eq!(dispatcher.dispatch(&mut event), Ok(()));
    assert_eq!(event, OrderShipped { order_id: 5 });
    assert_eq!(calls.get(), 0);
    assert_eq!(Dispatcher::new().dispatch(&mut event), Ok(()));
}

#[test]
fn order_shipped_listener_runs_once() {
    let calls = Rc::new(Cell::new(0u32));
    let mut dispatcher = Dispatcher::new();
    let c = calls.clone();
    dispatcher
        .listen(move |event: &mut OrderShipped| {
            assert_eq!(event.order_id, 123);
            c.set(c.get() + 1);
        })
        .unwrap();
    assert_eq!(dispatcher.dispatch(&mut OrderShipped { order_id: 123 }), Ok(()));
    assert_eq!(calls.get(), 1);
}

#[test]
fn dispatch_to_a_foreign_shape_is_refused() {
    let calls = Rc::new(Cell::new(0u32));
    let mut dispatcher = Dispatcher::new();
    let c = calls.clone();
    dispatcher.listen(move |_: &mut OrderShipped| c.set(c.get() + 1)).unwrap();
    let shipped = TypeId::of::<OrderShipped>();
    let mut other = OrderCancelled { reason: 9 };
    assert_eq!(dispatcher.dispatch_to(&shipped, &mut other), Err(Error::UnregisteredEvent));
    assert_eq!(calls.get(), 0);
    assert_eq!(dispatcher.dispatch_to(&TypeId::of::<OrderCancelled>(), &mut other), Ok(()));
    let mut event = OrderShipped { order_id: 1 };
    assert_eq!(dispatcher.dispatch_to(&shipped, &mut event), Ok(()));
    assert_eq!(calls.get(), 1);
}

#[test]
fn default_dispatcher_is_empty() {
    let mut dispatcher = Dispatcher::default();
    assert_eq!(dispatcher.has_listeners::<OrderShipped>(), Ok(false));
    assert_eq!(dispatcher.dispatch(&mut OrderShipped { order_id: 4 }), Ok(()));
}
