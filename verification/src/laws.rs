//! The cross-function guarantees of the core, stated over the same spec
//! functions that the operations' contracts use.

use vstd::prelude::*;

use crate::message::{send_by_id_err, sent_ok};
use crate::models::User;
use crate::store::{
    dec_digits, has_otp, has_user_email, has_user_id, has_username, known_pair,
    lemma_dec_digits_value, otp_live, otp_record, parsed_u64, user_by_email, user_by_username,
    username_matches, Storage, OTP_TTL_SECS,
};
use crate::user::{authenticate_spec, jwt_claims_of, otp_pending, UserServiceError};

verus! {

/// Issuing an OTP twice without verifying fails the second call until the
/// first OTP's TTL elapses: a store that `send_otp` filled at `t1` still
/// has that OTP pending at every `t2` before `t1 + OTP_TTL_SECS`, and on a
/// pending OTP `send_otp`'s contract forces the `OTPNotSent` refusal with
/// the store unchanged.
pub proof fn otp_pending_blocks_reissue(s: Storage, email: Seq<char>, t1: u64, t2: u64)
    requires
        has_otp(s.otps@, email),
        otp_record(s.otps@, email).created_at == t1,
        t1 <= t2 < t1 + OTP_TTL_SECS,
    ensures
        otp_pending(s, email, t2),
{
    assert(otp_live(otp_record(s.otps@, email), t2));
}

/// A verified OTP is single use: `verify_otp`'s contract deletes the OTP
/// on a match, and a store without an OTP for the email has none pending
/// at any time, so an immediately repeated verify meets the `InvalidOTP`
/// refusal of `verify_otp`'s contract.
pub proof fn verified_otp_not_reusable(s: Storage, email: Seq<char>, t: u64)
    requires
        !has_otp(s.otps@, email),
    ensures
        !otp_pending(s, email, t),
{
}

/// A token minted for an email resolves, before its expiry, to `Some` of
/// the email's profile iff one exists and to `None` otherwise — never to an
/// error. `verify_otp`'s contract guarantees the premise
/// `jwt_claims_of(token, secret) == Some((sub, exp))` for every token it
/// returns.
pub proof fn minted_token_resolves(
    users: Seq<User>,
    secret: Seq<u8>,
    token: Seq<char>,
    sub: Seq<char>,
    exp: u64,
    now: u64,
)
    requires
        jwt_claims_of(token, secret) == Some((sub, exp)),
        now < exp,
    ensures
        authenticate_spec(users, secret, token, now) matches Ok(opt) && (opt matches Some(u) ==> u
            == user_by_email(users, sub)),
        has_user_email(users, sub) ==> authenticate_spec(users, secret, token, now) == Ok::<
            Option<User>,
            UserServiceError,
        >(Some(user_by_email(users, sub))),
        !has_user_email(users, sub) ==> authenticate_spec(users, secret, token, now) == Ok::<
            Option<User>,
            UserServiceError,
        >(None),
{
}

/// First contact by username creates the "known" relation in both
/// directions atomically with the send, so a subsequent id-addressed send
/// to the new peer is owed success (as long as the id space is not
/// exhausted): none of `send_message`'s refusal conditions holds.
pub proof fn first_contact_enables_reply(
    pre: Storage,
    post: Storage,
    from_id: i64,
    username: Seq<char>,
    text: Seq<char>,
    now: u64,
    m: crate::models::Message,
)
    requires
        pre.wf(),
        has_username(pre.users@, username),
        sent_ok(pre, post, from_id, user_by_username(pre.users@, username).id, text, now, m),
        post.next_item_id < i64::MAX,
    ensures
        known_pair(post.known@, from_id, user_by_username(pre.users@, username).id),
        known_pair(post.known@, user_by_username(pre.users@, username).id, from_id),
        send_by_id_err(post, from_id, user_by_username(pre.users@, username).id) is None,
{
    let peer = user_by_username(pre.users@, username).id;
    let c = choose|i: int| 0 <= i < pre.users@.len() && username_matches(pre.users@[i], username);
    assert(pre.users@[c].id == peer);
    assert(has_user_id(pre.users@, peer));
}

/// An id-addressed send to an identity the sender does not know yet is
/// refused, even when the identity exists: `send_by_id_err` yields
/// `InvalidChat`, and `send_message`'s contract turns that into the error
/// with the store untouched.
pub proof fn unknown_chat_refused(s: Storage, from_id: i64, chat_id: i64)
    requires
        !known_pair(s.known@, from_id, chat_id),
    ensures
        send_by_id_err(s, from_id, chat_id) == Some(
            crate::message::MessageServiceError::InvalidChat,
        ),
{
}

/// The cache's wire form reads back to the record it was written from, for
/// any code free of the separator: in `DbOTP::encode`'s output, the first
/// colon sits right after the code, everything before it is the code, and
/// the tail parses to the issue time — the witnesses `DbOTP::parse`'s
/// contract asks for.
pub proof fn cache_wire_form_round_trips(otp: Seq<char>, created_at: u64)
    requires
        forall|i: int| 0 <= i < otp.len() ==> #[trigger] otp[i] != ':',
    ensures
        ({
            let s = otp + seq![':'] + dec_digits(created_at as nat);
            let ci = otp.len() as int;
            &&& 0 <= ci < s.len() && s[ci] == ':'
            &&& forall|j: int| 0 <= j < ci ==> s[j] != ':'
            &&& s.subrange(0, ci) == otp
            &&& parsed_u64(s.subrange(ci + 1, s.len() as int)) == created_at
        }),
{
    lemma_dec_digits_value(created_at as nat);
    let s = otp + seq![':'] + dec_digits(created_at as nat);
    let ci = otp.len() as int;
    assert(s[ci] == ':');
    assert forall|j: int| 0 <= j < ci implies s[j] != ':' by {
        assert(s[j] == otp[j]);
    }
    assert(s.subrange(0, ci) =~= otp);
    assert(s.subrange(ci + 1, s.len() as int) =~= dec_digits(created_at as nat));
}

} // verus!
