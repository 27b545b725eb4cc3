use messenger_core::events::{EventService, ListenerPool};
use messenger_core::message::{ImplMessageService, MessageRequest, MessageServiceError};
use messenger_core::models::User;
use messenger_core::store::Storage;

fn req(text: &str) -> MessageRequest {
    MessageRequest { text: text.to_string() }
}

fn events() -> EventService {
    EventService::new(ListenerPool::new())
}

fn add_user(store: &mut Storage, email: &str, username: Option<&str>, first: &str) -> User {
    store.create_user(email, username, first, None, 10).unwrap()
}

#[test]
fn first_contact_by_username_creates_known_both_ways() {
    let svc = ImplMessageService::new();
    let mut store = Storage::new();
    let mut ev = events();
    let ann = add_user(&mut store, "a@x.com", None, "Ann");
    let bob = add_user(&mut store, "b@x.com", Some("bob"), "Bob");

    let m = svc.send_message_to_username(&mut store, &mut ev, ann.id, "bob", &req("hi"), 100)
        .unwrap();
    assert_eq!(m.from_id, ann.id);
    assert_eq!(m.chat_id, bob.id);
    assert_eq!(m.text.as_deref(), Some("hi"));
    assert!(store.is_known(ann.id, bob.id).unwrap());
    assert!(store.is_known(bob.id, ann.id).unwrap());

    // the relation now exists, so an id-addressed reply succeeds
    let back = svc.send_message(&mut store, &mut ev, bob.id, ann.id, &req("hello"), 101);
    assert!(back.is_ok());
    // and so does a follow-up by id from the original sender
    let again = svc.send_message(&mut store, &mut ev, ann.id, bob.id, &req("again"), 102);
    assert!(again.is_ok());
}

#[test]
fn username_resolution_is_case_insensitive() {
    let svc = ImplMessageService::new();
    let mut store = Storage::new();
    let mut ev = events();
    let ann = add_user(&mut store, "a@x.com", None, "Ann");
    let bob = add_user(&mut store, "b@x.com", Some("Bob"), "Bob");
    let m = svc.send_message_to_username(&mut store, &mut ev, ann.id, "bOB", &req("hi"), 100)
        .unwrap();
    assert_eq!(m.chat_id, bob.id);
}

#[test]
fn send_by_unknown_username_fails() {
    let svc = ImplMessageService::new();
    let mut store = Storage::new();
    let mut ev = events();
    let ann = add_user(&mut store, "a@x.com", None, "Ann");
    let r = svc.send_message_to_username(&mut store, &mut ev, ann.id, "nobody", &req("hi"), 100);
    assert!(matches!(r, Err(MessageServiceError::InvalidChat)));
}

#[test]
fn send_by_id_requires_known_relation_even_if_identity_exists() {
    let svc = ImplMessageService::new();
    let mut store = Storage::new();
    let mut ev = events();
    let ann = add_user(&mut store, "a@x.com", None, "Ann");
    // create identities until one carries id 42
    let mut chat42: Option<User> = None;
    for i in 0..50 {
        let u = add_user(&mut store, &format!("u{}@x.com", i), None, "U");
        if u.id == 42 {
            chat42 = Some(u);
            break;
        }
    }
    let target = chat42.expect("an identity with id 42");
    assert_eq!(target.id, 42);
    let r = svc.auto_send_message(&mut store, &mut ev, ann.id, Some(42), None, &req("hi"), 100);
    assert!(matches!(r, Err(MessageServiceError::InvalidChat)));
    // the message store is untouched by the refusal
    assert!(store.get_message(42).unwrap().is_none());
}

#[test]
fn send_by_id_to_missing_identity_fails() {
    let svc = ImplMessageService::new();
    let mut store = Storage::new();
    let mut ev = events();
    let ann = add_user(&mut store, "a@x.com", None, "Ann");
    store.set_known(ann.id, 999).unwrap();
    let r = svc.send_message(&mut store, &mut ev, ann.id, 999, &req("hi"), 100);
    assert!(matches!(r, Err(MessageServiceError::InvalidChat)));
}

#[test]
fn auto_send_prefers_chat_id_over_username() {
    let svc = ImplMessageService::new();
    let mut store = Storage::new();
    let mut ev = events();
    let ann = add_user(&mut store, "a@x.com", None, "Ann");
    let bob = add_user(&mut store, "b@x.com", Some("bob"), "Bob");
    let carol = add_user(&mut store, "c@x.com", Some("carol"), "Carol");
    svc.send_message_to_username(&mut store, &mut ev, ann.id, "bob", &req("hi"), 100).unwrap();

    let m = svc.auto_send_message(
        &mut store,
        &mut ev,
        ann.id,
        Some(bob.id),
        Some("carol"),
        &req("to whom?"),
        101,
    ).unwrap();
    assert_eq!(m.chat_id, bob.id);
    assert_ne!(m.chat_id, carol.id);
}

#[test]
fn auto_send_without_destination_fails() {
    let svc = ImplMessageService::new();
    let mut store = Storage::new();
    let mut ev = events();
    let ann = add_user(&mut store, "a@x.com", None, "Ann");
    let r = svc.auto_send_message(&mut store, &mut ev, ann.id, None, None, &req("hi"), 100);
    assert!(matches!(r, Err(MessageServiceError::InvalidChat)));
}

#[test]
fn messages_get_fresh_ids_and_are_retrievable() {
    let svc = ImplMessageService::new();
    let mut store = Storage::new();
    let mut ev = events();
    let ann = add_user(&mut store, "a@x.com", None, "Ann");
    let _bob = add_user(&mut store, "b@x.com", Some("bob"), "Bob");
    let m1 = svc.send_message_to_username(&mut store, &mut ev, ann.id, "bob", &req("one"), 100)
        .unwrap();
    let m2 = svc.send_message_to_username(&mut store, &mut ev, ann.id, "bob", &req("two"), 101)
        .unwrap();
    assert_ne!(m1.id, m2.id);
    let got = store.get_message(m1.id).unwrap().unwrap();
    assert_eq!(got.text.as_deref(), Some("one"));
    assert_eq!(got.created_at, 100);
}

#[test]
fn full_scenario_otp_to_message() {
    let users = messenger_core::user::ImplUserService::new(b"SECRET-REDACTED".to_vec());
    let messages = ImplMessageService::new();
    let mut store = Storage::new();
    let mut ev = events();

    // bob must end up with id 7: six identities first, bob seventh
    for i in 0..6 {
        add_user(&mut store, &format!("u{}@x.com", i), None, "U");
    }
    let bob = add_user(&mut store, "bob@x.com", Some("bob"), "Bob");
    assert_eq!(bob.id, 7);

    store.store_otp("a@x.com", "048213", 1000).unwrap();
    let token = users.verify_otp(&mut store, "a@x.com", "048213", 1010).unwrap();
    let ann = users.create_user(&mut store, &token, "Ann", None, 1020).unwrap();

    let m = messages.auto_send_message(
        &mut store,
        &mut ev,
        ann.id,
        None,
        Some("bob"),
        &req("hi"),
        1030,
    ).unwrap();
    assert_eq!(m.from_id, ann.id);
    assert_eq!(m.chat_id, 7);
    assert_eq!(m.text.as_deref(), Some("hi"));
    assert!(store.is_known(ann.id, 7).unwrap());
    assert!(store.is_known(7, ann.id).unwrap());
}
