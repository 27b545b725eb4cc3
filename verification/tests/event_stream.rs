use messenger_core::events::{BackendEvent, EventService, ListenerPool};
use messenger_core::models::Message;

fn msg(id: i64) -> Message {
    Message { id, from_id: 1, chat_id: 2, text: Some("hi".to_string()), created_at: 0 }
}

fn sent(id: i64) -> BackendEvent {
    BackendEvent::MessageSent(msg(id))
}

fn event_id(e: &BackendEvent) -> i64 {
    match e {
        BackendEvent::MessageSent(m) => m.id,
    }
}

#[test]
fn publish_reaches_every_listener_of_the_identity_and_no_other() {
    let mut svc = EventService::new(ListenerPool::new());
    let mut r1 = svc.get_user_stream(1);
    let mut r2 = svc.get_user_stream(1);
    let mut r3 = svc.get_user_stream(2);

    svc.notify(1, sent(10));

    assert_eq!(event_id(&r1.try_recv().unwrap()), 10);
    assert_eq!(event_id(&r2.try_recv().unwrap()), 10);
    assert!(r3.try_recv().is_err());
}

#[test]
fn events_arrive_in_publish_order() {
    let mut svc = EventService::new(ListenerPool::new());
    let mut r = svc.get_user_stream(5);
    svc.notify(5, sent(1));
    svc.notify(5, sent(2));
    svc.notify(5, sent(3));
    assert_eq!(event_id(&r.try_recv().unwrap()), 1);
    assert_eq!(event_id(&r.try_recv().unwrap()), 2);
    assert_eq!(event_id(&r.try_recv().unwrap()), 3);
    assert!(r.try_recv().is_err());
}

#[test]
fn dead_listener_is_pruned_on_next_publish_to_that_identity() {
    let mut svc = EventService::new(ListenerPool::new());
    let r1 = svc.get_user_stream(1);
    let _r2 = svc.get_user_stream(1);
    let _r3 = svc.get_user_stream(2);
    assert_eq!(svc.pool.listeners.len(), 3);

    drop(r1);
    // the dead listener lingers until the next publish to identity 1
    assert_eq!(svc.pool.listeners.len(), 3);
    svc.notify(1, sent(10));
    assert_eq!(svc.pool.listeners.len(), 2);

    // a publish to another identity never prunes identity 1's listeners
    drop(_r2);
    svc.notify(2, sent(11));
    assert_eq!(svc.pool.listeners.len(), 2);
    svc.notify(1, sent(12));
    assert_eq!(svc.pool.listeners.len(), 1);
}

#[test]
fn unsubscribe_is_idempotent() {
    let mut pool = ListenerPool::new();
    let (tx1, _rx1) = tokio::sync::mpsc::channel(4);
    let (tx2, _rx2) = tokio::sync::mpsc::channel(4);
    let id1 = pool.add_listener(1, tx1);
    let id2 = pool.add_listener(1, tx2);
    assert_ne!(id1, id2);
    assert_eq!(pool.listeners.len(), 2);
    pool.remove_listener(id1);
    assert_eq!(pool.listeners.len(), 1);
    pool.remove_listener(id1);
    assert_eq!(pool.listeners.len(), 1);
    pool.remove_listener(id2);
    assert_eq!(pool.listeners.len(), 0);
}

#[test]
fn each_subscription_gets_a_fresh_id() {
    let mut pool = ListenerPool::new();
    let (tx1, _rx1) = tokio::sync::mpsc::channel(4);
    let (tx2, _rx2) = tokio::sync::mpsc::channel(4);
    let id1 = pool.add_listener(1, tx1);
    pool.remove_listener(id1);
    let id2 = pool.add_listener(1, tx2);
    // no resurrection: a removed id is never handed out again
    assert_ne!(id1, id2);
}
