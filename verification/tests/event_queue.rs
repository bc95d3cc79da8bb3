use simkernel::event::Event;
use simkernel::event::EventWrapper;
use simkernel::event_queue::EventQueue;

/*
 * test helpers
 */
fn vector_has_event_testid(collection: &Vec<Event>, id: i32) -> bool {
    collection.iter().any(|event| match event {
        Event::Test(tid) => *tid == id,
        _ => false,
    })
}

fn future_has_event_wrapper_testid(collection: &Vec<EventWrapper>, id: i32) -> bool {
    collection.iter().any(|event_wrapper| match event_wrapper.event {
        Event::Test(tid) => tid == id,
        _ => false,
    })
}

fn event_has_testid_in(event: &Event, ids: Vec<i32>) -> bool {
    match event {
        Event::Test(id) => ids.contains(&id),
        _ => false,
    }
}

/*
 * tests
 */
#[test]
fn has_active_events_test_some() {
    let mut queue: EventQueue = EventQueue::new();

    queue.active.push(Event::Test(1));

    assert!(queue.has_active_events());
}

#[test]
fn has_active_events_test_none() {
    let queue: EventQueue = EventQueue::new();

    assert!(!queue.has_active_events());
}

#[test]
fn advance_time_test_progress() {
    let mut queue: EventQueue = EventQueue::new();
    queue.future.push(EventWrapper::new(1, Event::Test(1)));
    queue.future.push(EventWrapper::new(1, Event::Test(2)));
    queue.future.push(EventWrapper::new(2, Event::Test(3)));

    queue.advance_time();

    assert_eq!(queue.active.len(), 2, "<-- active contains 2 events");
    assert_eq!(queue.inactive.len(), 0, "<-- inactive contains 0 events");
    assert_eq!(queue.future.len(), 1, "<-- future contains 1 event");

    assert!(vector_has_event_testid(&queue.active, 1), "active contins event 1");
    assert!(vector_has_event_testid(&queue.active, 2), "active contins event 2");
    assert!(future_has_event_wrapper_testid(&queue.future, 3), "future contins event 3");

    assert_eq!(queue.time, 1);
}

#[test]
fn advance_time_test_end() {
    let mut queue: EventQueue = EventQueue::new();

    queue.advance_time();

    assert_eq!(queue.active.len(), 0, "<-- active contains 0 events");
    assert_eq!(queue.inactive.len(), 0, "<-- inactive contains 0 events");
    assert_eq!(queue.future.len(), 0, "<-- future contains 0 event");

    assert_eq!(queue.time, 0)
}

#[test]
fn has_inactive_events_test_some() {
    let mut queue: EventQueue = EventQueue::new();

    queue.inactive.push(Event::Test(1));

    assert!(queue.has_inactive_events());
}

#[test]
fn has_inactive_events_test_none() {
    let queue: EventQueue = EventQueue::new();

    assert!(!queue.has_inactive_events());
}

#[test]
fn activate_inactive_events_test() {
    let mut queue: EventQueue = EventQueue::new();

    queue.inactive.push(Event::Test(1));
    queue.inactive.push(Event::Test(2));
    queue.future.push(EventWrapper::new(2, Event::Test(3)));

    queue.activate_inactive_events();

    assert_eq!(queue.active.len(), 2, "<-- active contains 2 events");
    assert_eq!(queue.inactive.len(), 0, "<-- inactive contains 0 events");
    assert_eq!(queue.future.len(), 1, "<-- future contains 1 event");

    assert!(vector_has_event_testid(&queue.active, 1), "active contins event 1");
    assert!(vector_has_event_testid(&queue.active, 2), "active contins event 2");
    assert!(future_has_event_wrapper_testid(&queue.future, 3), "future contins event 3");
}

#[test]
fn activate_inactive_events_test_empty_inactive() {
    let mut queue: EventQueue = EventQueue::new();

    queue.future.push(EventWrapper::new(1, Event::Test(1)));

    queue.activate_inactive_events();

    assert_eq!(queue.active.len(), 0, "<-- active contains 2 events");
    assert_eq!(queue.inactive.len(), 0, "<-- inactive contains 0 events");
    assert_eq!(queue.future.len(), 1, "<-- future contains 1 event");

    assert!(future_has_event_wrapper_testid(&queue.future, 1), "future contins event 1");
}

#[test]
fn activate_inactive_events_existing_active() {
    let mut queue: EventQueue = EventQueue::new();

    queue.active.push(Event::Test(1));
    queue.inactive.push(Event::Test(2));
    queue.inactive.push(Event::Test(3));
    queue.activate_inactive_events();

    assert_eq!(queue.active.len(), 3, "<-- active contains 3 events");
    assert_eq!(queue.inactive.len(), 0, "<-- inactive contains 0 events");
    assert_eq!(queue.future.len(), 0, "<-- future contains 0 event");

    assert!(vector_has_event_testid(&queue.active, 1), "active contins event 1");
    assert!(vector_has_event_testid(&queue.active, 2), "active contins event 2");
    assert!(vector_has_event_testid(&queue.active, 3), "active contins event 3");
}

#[test]
fn next_active_test() {
    let mut queue: EventQueue = EventQueue::new();

    queue.active.push(Event::Test(1));
    queue.active.push(Event::Test(2));
    queue.active.push(Event::Test(3));

    let event = queue.next_active().unwrap();

    assert!(event_has_testid_in(&event, vec![1, 2, 3]));
}

#[test]
fn next_active_test_no_active() {
    let mut queue: EventQueue = EventQueue::new();

    assert_eq!(queue.next_active(), None);
}

#[test]
fn schedule_now() {
    let mut queue: EventQueue = EventQueue::new();
    queue.time = 1;

    queue.schedule(1, Event::Test(1));

    assert!(vector_has_event_testid(&queue.inactive, 1));
    assert_eq!(queue.time, 1);
}

#[test]
fn schedule_later() {
    let mut queue: EventQueue = EventQueue::new();
    queue.time = 0;

    queue.schedule(1, Event::Test(1));

    assert!(future_has_event_wrapper_testid(&queue.future, 1));
    assert_eq!(queue.time, 0);
}
