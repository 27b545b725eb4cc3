//! The message router: resolves a destination by id or username, persists
//! the message, establishes the mutual "known" relation, and triggers
//! fan-out to the recipient's listeners.

use vstd::prelude::*;

use crate::events::{order_preserved, BackendEvent, EventService};
use crate::models::Message;
use crate::store::{
    clone_message, has_user_id, has_username, known_pair, user_by_username, Storage, StorageError,
};

verus! {

/// Failure of a send operation.
#[derive(Debug, Clone, Copy)]
pub enum MessageServiceError {
    Storage(StorageError),
    InvalidMessage,
    InvalidChat,
}

impl From<StorageError> for MessageServiceError {
    fn from(storage_error: StorageError) -> (r: Self) {
        MessageServiceError::Storage(storage_error)
    }
}

impl vstd::std_specs::convert::FromSpecImpl<StorageError> for MessageServiceError {
    open spec fn obeys_from_spec() -> bool {
        true
    }

    open spec fn from_spec(v: StorageError) -> Self {
        MessageServiceError::Storage(v)
    }
}

/// The body of a message to send.
#[derive(Debug, Clone)]
pub struct MessageRequest {
    pub text: String,
}

/// Why an id-addressed send fails, or `None` when it is owed success:
/// the sender must already know the chat, the chat must resolve to an
/// identity, and the id space must not be exhausted.
pub open spec fn send_by_id_err(s: Storage, from_id: i64, chat_id: i64) -> Option<
    MessageServiceError,
> {
    if !known_pair(s.known@, from_id, chat_id) {
        Some(MessageServiceError::InvalidChat)
    } else if !has_user_id(s.users@, chat_id) {
        Some(MessageServiceError::InvalidChat)
    } else if s.next_item_id == i64::MAX {
        Some(MessageServiceError::Storage(StorageError::Internal))
    } else {
        None
    }
}

/// Why a username-addressed send fails, or `None` when it is owed success:
/// the username must resolve (no prior relation is needed; this path
/// establishes first contact).
pub open spec fn send_by_username_err(s: Storage, username: Seq<char>) -> Option<
    MessageServiceError,
> {
    if !has_username(s.users@, username) {
        Some(MessageServiceError::InvalidChat)
    } else if s.next_item_id == i64::MAX {
        Some(MessageServiceError::Storage(StorageError::Internal))
    } else {
        None
    }
}

/// A successful send from `from_id` to `peer`: the message is persisted
/// under a fresh id, the "known" relation holds in both directions and no
/// other pair changed, and nothing else in the store moved.
pub open spec fn sent_ok(
    pre: Storage,
    post: Storage,
    from_id: i64,
    peer: i64,
    text: Seq<char>,
    now: u64,
    m: Message,
) -> bool {
    &&& m.id == pre.next_item_id
    &&& m.from_id == from_id
    &&& m.chat_id == peer
    &&& (m.text matches Some(t) && t@ == text)
    &&& m.created_at == now
    &&& post.messages@ == pre.messages@.push(m)
    &&& post.next_item_id == pre.next_item_id + 1
    &&& post.users == pre.users
    &&& post.otps == pre.otps
    &&& known_pair(post.known@, from_id, peer)
    &&& known_pair(post.known@, peer, from_id)
    &&& forall|a: i64, b: i64|
        #![trigger known_pair(post.known@, a, b)]
        !((a == from_id && b == peer) || (a == peer && b == from_id)) ==> known_pair(
            post.known@,
            a,
            b,
        ) == known_pair(pre.known@, a, b)
}

/// The effect of one publish on the listener registry: the event is
/// recorded as published to `target` after everything published before,
/// ids stay unique, nothing new appears, and every listener of another
/// identity survives. Which listeners of `target` survive depends on their
/// channels.
pub open spec fn notify_post(
    pre: EventService,
    post: EventService,
    target: i64,
    event: BackendEvent,
) -> bool {
    &&& post.pool.published@ == pre.pool.published@.push((target, event))
    &&& post.pool.wf()
    &&& post.pool.next_id == pre.pool.next_id
    &&& forall|k: int|
        #![trigger post.pool.entries()[k]]
        0 <= k < post.pool.entries().len() ==> pre.pool.entries().contains(post.pool.entries()[k])
    &&& forall|k: int|
        #![trigger pre.pool.entries()[k]]
        0 <= k < pre.pool.entries().len() && pre.pool.entries()[k].1 != target
            ==> post.pool.entries().contains(pre.pool.entries()[k])
    &&& order_preserved(pre.pool.entries(), post.pool.entries())
}

/// Everything an id-addressed send promises.
pub open spec fn send_by_id_post(
    pre_s: Storage,
    post_s: Storage,
    pre_e: EventService,
    post_e: EventService,
    from_id: i64,
    chat_id: i64,
    text: Seq<char>,
    now: u64,
    r: Result<Message, MessageServiceError>,
) -> bool {
    &&& post_s.wf()
    &&& match send_by_id_err(pre_s, from_id, chat_id) {
        Option::Some(e) => r == Err::<Message, MessageServiceError>(e) && post_s == pre_s && post_e
            == pre_e,
        Option::None => {
            &&& r matches Ok(m)
            &&& sent_ok(pre_s, post_s, from_id, chat_id, text, now, m)
            &&& notify_post(pre_e, post_e, chat_id, BackendEvent::MessageSent(m))
        },
    }
}

/// Everything a username-addressed send promises; the peer is the identity
/// the username resolves to.
pub open spec fn send_by_username_post(
    pre_s: Storage,
    post_s: Storage,
    pre_e: EventService,
    post_e: EventService,
    from_id: i64,
    username: Seq<char>,
    text: Seq<char>,
    now: u64,
    r: Result<Message, MessageServiceError>,
) -> bool {
    &&& post_s.wf()
    &&& match send_by_username_err(pre_s, username) {
        Option::Some(e) => r == Err::<Message, MessageServiceError>(e) && post_s == pre_s && post_e
            == pre_e,
        Option::None => {
            &&& r matches Ok(m)
            &&& sent_ok(
                pre_s,
                post_s,
                from_id,
                user_by_username(pre_s.users@, username).id,
                text,
                now,
                m,
            )
            &&& notify_post(
                pre_e,
                post_e,
                user_by_username(pre_s.users@, username).id,
                BackendEvent::MessageSent(m),
            )
        },
    }
}

/// The message router.
pub struct ImplMessageService {}

impl ImplMessageService {
    pub fn new() -> (r: Self) {
        ImplMessageService {  }
    }

    /// Sends to the identity a username resolves to, establishing the
    /// mutual "known" relation as a side effect (first contact goes through
    /// this path), and publishes the message to the recipient's listeners.
    pub fn send_message_to_username(
        &self,
        storage: &mut Storage,
        events: &mut EventService,
        from_id: i64,
        username: &str,
        message_request: &MessageRequest,
        now: u64,
    ) -> (r: Result<Message, MessageServiceError>)
        requires
            old(storage).wf(),
            old(events).pool.wf(),
        ensures
            send_by_username_post(
                *old(storage),
                *final(storage),
                *old(events),
                *final(events),
                from_id,
                username@,
                message_request.text@,
                now,
                r,
            ),
    {
        let peer = match storage.get_user_by_username(username) {
            Ok(Some(u)) => u,
            Ok(None) => {
                return Err(MessageServiceError::InvalidChat);
            },
            Err(e) => {
                return Err(MessageServiceError::Storage(e));
            },
        };
        let m = match storage.create_message(from_id, peer.id, message_request.text.as_str(), now) {
            Ok(m) => m,
            Err(e) => {
                return Err(MessageServiceError::Storage(e));
            },
        };
        match storage.set_known(from_id, peer.id) {
            Ok(()) => {},
            Err(e) => {
                return Err(MessageServiceError::Storage(e));
            },
        }
        match storage.set_known(peer.id, from_id) {
            Ok(()) => {},
            Err(e) => {
                return Err(MessageServiceError::Storage(e));
            },
        }
        events.notify(peer.id, BackendEvent::MessageSent(clone_message(&m)));
        Ok(m)
    }

    /// Sends to an identity the sender already knows; fails `InvalidChat`
    /// when no relation exists yet, even if the identity does.
    pub fn send_message(
        &self,
        storage: &mut Storage,
        events: &mut EventService,
        from_id: i64,
        chat_id: i64,
        message_request: &MessageRequest,
        now: u64,
    ) -> (r: Result<Message, MessageServiceError>)
        requires
            old(storage).wf(),
            old(events).pool.wf(),
        ensures
            send_by_id_post(
                *old(storage),
                *final(storage),
                *old(events),
                *final(events),
                from_id,
                chat_id,
                message_request.text@,
                now,
                r,
            ),
    {
        let already = match storage.is_known(from_id, chat_id) {
            Ok(b) => b,
            Err(e) => {
                return Err(MessageServiceError::Storage(e));
            },
        };
        if !already {
            return Err(MessageServiceError::InvalidChat);
        }
        let chat = match storage.get_user(chat_id) {
            Ok(Some(u)) => u,
            Ok(None) => {
                return Err(MessageServiceError::InvalidChat);
            },
            Err(e) => {
                return Err(MessageServiceError::Storage(e));
            },
        };
        let m = match storage.create_message(from_id, chat.id, message_request.text.as_str(), now) {
            Ok(m) => m,
            Err(e) => {
                return Err(MessageServiceError::Storage(e));
            },
        };
        match storage.set_known(from_id, chat.id) {
            Ok(()) => {},
            Err(e) => {
                return Err(MessageServiceError::Storage(e));
            },
        }
        match storage.set_known(chat.id, from_id) {
            Ok(()) => {},
            Err(e) => {
                return Err(MessageServiceError::Storage(e));
            },
        }
        events.notify(chat.id, BackendEvent::MessageSent(clone_message(&m)));
        Ok(m)
    }

    /// Routes by explicit id when one is given, else by username, else
    /// fails: an id takes precedence when both are present.
    pub fn auto_send_message(
        &self,
        storage: &mut Storage,
        events: &mut EventService,
        from_id: i64,
        chat_id: Option<i64>,
        username: Option<&str>,
        message_request: &MessageRequest,
        now: u64,
    ) -> (r: Result<Message, MessageServiceError>)
        requires
            old(storage).wf(),
            old(events).pool.wf(),
        ensures
            chat_id matches Some(c) ==> send_by_id_post(
                *old(storage),
                *final(storage),
                *old(events),
                *final(events),
                from_id,
                c,
                message_request.text@,
                now,
                r,
            ),
            chat_id is None ==> (username matches Some(un) ==> send_by_username_post(
                *old(storage),
                *final(storage),
                *old(events),
                *final(events),
                from_id,
                un@,
                message_request.text@,
                now,
                r,
            )),
            chat_id is None && username is None ==> r == Err::<Message, MessageServiceError>(
                MessageServiceError::InvalidChat,
            ) && *final(storage) == *old(storage) && *final(events) == *old(events),
    {
        if let Some(c) = chat_id {
            return self.send_message(storage, events, from_id, c, message_request, now);
        }
        if let Some(un) = username {
            return self.send_message_to_username(
                storage,
                events,
                from_id,
                un,
                message_request,
                now,
            );
        }
        Err(MessageServiceError::InvalidChat)
    }
}

} // verus!
