//! In-memory record store and ephemeral OTP cache: identities, messages,
//! the symmetric "known" relation, and at most one outstanding OTP per email.
//!
//! All ids (user and message alike) are drawn from one id space by a single
//! counter, so an identity and a message never share an id.

use vstd::prelude::*;
use vstd::string::*;

use crate::models::{lower, lower_char_exec, Message, User};

verus! {

/// Failure of the record store; every storage fault surfaces uniformly.
#[derive(Debug, Clone, Copy)]
pub enum StorageError {
    Internal,
}

/// A row of the "known" relation: `user_id` has exchanged a message with
/// `item_id`.
#[derive(Debug, Clone)]
pub struct DbKnown {
    pub id: i64,
    pub user_id: i64,
    pub item_id: i64,
}

/// An OTP record as the ephemeral cache holds it.
#[derive(Debug, Clone)]
pub struct DbOTP {
    pub otp: String,
    pub created_at: u64,
}

/// The character for one decimal digit value.
pub open spec fn digit_char_of(d: nat) -> char
    recommends
        d < 10,
{
    ((48 + d) as u8) as char
}

/// The decimal digit value of a character, zero off the digits.
pub open spec fn char_digit(c: char) -> nat {
    if '0' <= c && c <= '9' {
        ((c as int) - 48) as nat
    } else {
        0
    }
}

/// The decimal digits of `n`, most significant first; empty for zero.
pub open spec fn dec_rec(n: nat) -> Seq<char>
    decreases n,
{
    if n == 0 {
        Seq::<char>::empty()
    } else {
        dec_rec(n / 10) + seq![digit_char_of(n % 10)]
    }
}

/// The decimal notation of `n`: its digits, with zero written "0".
pub open spec fn dec_digits(n: nat) -> Seq<char> {
    if n == 0 {
        seq!['0']
    } else {
        dec_rec(n)
    }
}

pub open spec fn all_digits(t: Seq<char>) -> bool {
    forall|i: int| 0 <= i < t.len() ==> ('0' <= #[trigger] t[i] && t[i] <= '9')
}

/// The number a digit string denotes, read left to right.
pub open spec fn dec_value(t: Seq<char>) -> nat
    decreases t.len(),
{
    if t.len() == 0 {
        0
    } else {
        dec_value(t.drop_last()) * 10 + char_digit(t.last())
    }
}

/// What `str::parse::<u64>` hands a caller that falls back to zero: the
/// denoted number for a non-empty all-digit string that fits in `u64`, and
/// zero otherwise.
pub open spec fn parsed_u64(t: Seq<char>) -> nat {
    if t.len() > 0 && all_digits(t) && dec_value(t) <= u64::MAX {
        dec_value(t)
    } else {
        0
    }
}

/// A longer digit string never denotes a smaller number.
pub proof fn lemma_dec_value_prefix_le(t: Seq<char>, k: int)
    requires
        0 <= k <= t.len(),
    ensures
        dec_value(t.subrange(0, k)) <= dec_value(t),
    decreases t.len() - k,
{
    if k < t.len() {
        lemma_dec_value_prefix_le(t, k + 1);
        let a = t.subrange(0, k);
        let b = t.subrange(0, k + 1);
        assert(b.drop_last() =~= a);
        assert(dec_value(b) == dec_value(a) * 10 + char_digit(b.last()));
    } else {
        assert(t.subrange(0, k) =~= t);
    }
}

/// Decimal notation denotes the number it was written from, in digits only.
pub proof fn lemma_dec_rec_value(n: nat)
    ensures
        dec_value(dec_rec(n)) == n,
        all_digits(dec_rec(n)),
        n > 0 ==> dec_rec(n).len() > 0,
    decreases n,
{
    if n > 0 {
        lemma_dec_rec_value(n / 10);
        let s = dec_rec(n);
        assert(s =~= dec_rec(n / 10) + seq![digit_char_of(n % 10)]);
        assert(s.drop_last() =~= dec_rec(n / 10));
        assert(s.last() == digit_char_of(n % 10));
        assert(char_digit(digit_char_of(n % 10)) == n % 10);
        assert(dec_value(s) == (n / 10) * 10 + n % 10);
    }
}

/// As [`lemma_dec_rec_value`], for the zero-padded notation.
pub proof fn lemma_dec_digits_value(n: nat)
    ensures
        dec_value(dec_digits(n)) == n,
        all_digits(dec_digits(n)),
        dec_digits(n).len() > 0,
        parsed_u64(dec_digits(n)) == n || n > u64::MAX,
{
    lemma_dec_rec_value(n);
    if n == 0 {
        assert(dec_digits(0) =~= seq!['0']);
        assert(dec_digits(0 as nat).drop_last() =~= Seq::<char>::empty());
        assert(char_digit('0') == 0);
    }
}

/// One cache slot: the email the OTP was issued to, and its record.
#[derive(Debug, Clone)]
pub struct OtpSlot {
    pub email: String,
    pub record: DbOTP,
}

/// The characters of a reversed digit-byte buffer, unreversed.
pub open spec fn rev_chars(bs: Seq<u8>) -> Seq<char> {
    Seq::new(bs.len(), |i: int| bs[bs.len() - 1 - i] as char)
}

/// Renders `n` in decimal.
pub fn u64_to_decimal(n: u64) -> (r: String)
    ensures
        r@ == dec_digits(n as nat),
{
    let mut rev: Vec<u8> = Vec::new();
    if n == 0 {
        rev.push(48);
        proof {
            assert(rev_chars(rev@) =~= seq!['0']);
        }
    } else {
        let mut m = n;
        while m > 0
            invariant
                dec_rec(n as nat) =~= dec_rec(m as nat) + rev_chars(rev@),
                m == 0 ==> rev@.len() > 0,
                forall|i: int| 0 <= i < rev@.len() ==> 48 <= #[trigger] rev@[i] <= 57,
            decreases m,
        {
            let ghost pre = rev@;
            let d: u8 = (m % 10) as u8;
            rev.push(48 + d);
            proof {
                assert(rev_chars(rev@) =~= seq![digit_char_of((m as nat) % 10)] + rev_chars(pre));
                assert(dec_rec(m as nat) =~= dec_rec((m as nat) / 10) + seq![
                    digit_char_of((m as nat) % 10),
                ]);
                assert(dec_rec(n as nat) =~= dec_rec((m as nat) / 10) + rev_chars(rev@));
            }
            m = m / 10;
        }
        proof {
            assert(dec_rec(n as nat) =~= rev_chars(rev@));
        }
    }
    let len = rev.len();
    let mut bytes: Vec<u8> = Vec::new();
    let mut i: usize = 0;
    while i < len
        invariant
            len == rev@.len(),
            i <= len,
            bytes@.len() == i,
            forall|j: int| 0 <= j < i ==> #[trigger] bytes@[j] == rev@[len - 1 - j],
            forall|j: int| 0 <= j < rev@.len() ==> 48 <= #[trigger] rev@[j] <= 57,
        decreases len - i,
    {
        bytes.push(rev[len - 1 - i]);
        i += 1;
    }
    let r = crate::random::string_from_ascii(bytes);
    proof {
        assert(r@ =~= rev_chars(rev@));
    }
    r
}

impl DbOTP {
    /// The cache's wire form of this record: the code, a colon, and the
    /// issue time in decimal.
    pub fn encode(&self) -> (r: String)
        ensures
            r@ == self.otp@ + seq![':'] + dec_digits(self.created_at as nat),
    {
        let mut out = self.otp.clone();
        out.append(":");
        let digits = u64_to_decimal(self.created_at);
        out.append(digits.as_str());
        proof {
            reveal_strlit(":");
            assert(":"@ =~= seq![':']);
        }
        out
    }

    /// Reads a record back from its wire form: the code is everything up to
    /// the first colon, the issue time is the decimal tail, read as zero
    /// when it is empty, holds a non-digit, or overflows. A string without
    /// a colon is no record.
    pub fn parse(s: &str) -> (r: Option<DbOTP>)
        ensures
            r is None <==> !(exists|i: int| 0 <= i < s@.len() && s@[i] == ':'),
            r matches Some(o) ==> exists|ci: int|
                0 <= ci < s@.len() && #[trigger] s@[ci] == ':' && (forall|j: int|
                    0 <= j < ci ==> s@[j] != ':') && o.otp@ == s@.subrange(0, ci) && o.created_at
                    as nat == parsed_u64(s@.subrange(ci + 1, s@.len() as int)),
    {
        let n = s.unicode_len();
        let mut ci: usize = 0;
        let mut found = false;
        while ci < n && !found
            invariant
                n == s@.len(),
                ci <= n,
                found ==> ci < n && s@[ci as int] == ':',
                forall|j: int| 0 <= j < ci ==> s@[j] != ':',
            decreases n - ci, (if found { 0int } else { 1int }),
        {
            if s.get_char(ci) == ':' {
                found = true;
            } else {
                ci += 1;
            }
        }
        if !found {
            return None;
        }
        let otp = s.substring_char(0, ci).to_owned();
        let tail = s.substring_char(ci + 1, n);
        let created_at = parse_u64_or_zero(tail);
        proof {
            assert(tail@ =~= s@.subrange(ci + 1, s@.len() as int));
        }
        Some(DbOTP { otp, created_at })
    }
}

/// Reads a decimal `u64`, falling back to zero for an empty string, a
/// non-digit, or a value past `u64::MAX`.
pub fn parse_u64_or_zero(t: &str) -> (r: u64)
    ensures
        r as nat == parsed_u64(t@),
{
    let n = t.unicode_len();
    if n == 0 {
        return 0;
    }
    let mut acc: u64 = 0;
    let mut i: usize = 0;
    while i < n
        invariant
            n == t@.len(),
            i <= n,
            all_digits(t@.subrange(0, i as int)),
            acc as nat == dec_value(t@.subrange(0, i as int)),
        decreases n - i,
    {
        let c = t.get_char(i);
        if c < '0' || c > '9' {
            // a non-digit: the whole string reads as zero
            return 0;
        }
        let d: u64 = (c as u32 as u64) - 48;
        if acc > (u64::MAX - d) / 10 {
            proof {
                // what was read so far already exceeds u64::MAX once this
                // digit is appended, so the whole string does too
                let p = t@.subrange(0, i + 1);
                assert(p.drop_last() =~= t@.subrange(0, i as int));
                assert(dec_value(p) == (acc as nat) * 10 + char_digit(c));
                assert(dec_value(p) > u64::MAX);
                lemma_dec_value_prefix_le(t@, i + 1);
            }
            return 0;
        }
        proof {
            let p = t@.subrange(0, i + 1);
            assert(p.drop_last() =~= t@.subrange(0, i as int));
            assert(p.last() == c);
        }
        acc = acc * 10 + d;
        i += 1;
    }
    proof {
        assert(t@.subrange(0, n as int) =~= t@);
    }
    acc
}

/// Seconds an OTP stays valid after issuance.
pub const OTP_TTL_SECS: u64 = 300;

/// The in-memory store backing every component.
pub struct Storage {
    pub users: Vec<User>,
    pub messages: Vec<Message>,
    pub otps: Vec<OtpSlot>,
    pub known: Vec<DbKnown>,
    pub next_item_id: i64,
    pub next_known_id: i64,
}

// ---------------------------------------------------------------------------
// Lookup specifications
// ---------------------------------------------------------------------------

pub open spec fn has_user_id(users: Seq<User>, id: i64) -> bool {
    exists|i: int| 0 <= i < users.len() && users[i].id == id
}

pub open spec fn user_by_id(users: Seq<User>, id: i64) -> User {
    users[choose|i: int| 0 <= i < users.len() && users[i].id == id]
}

pub open spec fn has_user_email(users: Seq<User>, email: Seq<char>) -> bool {
    exists|i: int| 0 <= i < users.len() && users[i].email@ == email
}

pub open spec fn user_by_email(users: Seq<User>, email: Seq<char>) -> User {
    users[choose|i: int| 0 <= i < users.len() && users[i].email@ == email]
}

/// Does this user carry a username that equals `name` case-insensitively?
pub open spec fn username_matches(u: User, name: Seq<char>) -> bool {
    u.username matches Some(n) && lower(n@) == lower(name)
}

pub open spec fn has_username(users: Seq<User>, name: Seq<char>) -> bool {
    exists|i: int| 0 <= i < users.len() && username_matches(users[i], name)
}

pub open spec fn user_by_username(users: Seq<User>, name: Seq<char>) -> User {
    users[choose|i: int| 0 <= i < users.len() && username_matches(users[i], name)]
}

pub open spec fn has_message_id(msgs: Seq<Message>, id: i64) -> bool {
    exists|i: int| 0 <= i < msgs.len() && msgs[i].id == id
}

pub open spec fn message_by_id(msgs: Seq<Message>, id: i64) -> Message {
    msgs[choose|i: int| 0 <= i < msgs.len() && msgs[i].id == id]
}

pub open spec fn has_otp(otps: Seq<OtpSlot>, email: Seq<char>) -> bool {
    exists|i: int| 0 <= i < otps.len() && otps[i].email@ == email
}

pub open spec fn otp_record(otps: Seq<OtpSlot>, email: Seq<char>) -> DbOTP {
    otps[choose|i: int| 0 <= i < otps.len() && otps[i].email@ == email].record
}

/// Is a stored OTP still inside its TTL at time `now`?
pub open spec fn otp_live(rec: DbOTP, now: u64) -> bool {
    now < rec.created_at + OTP_TTL_SECS
}

/// Does the store record that `a` knows `b`?
pub open spec fn known_pair(known: Seq<DbKnown>, a: i64, b: i64) -> bool {
    exists|i: int| 0 <= i < known.len() && known[i].user_id == a && known[i].item_id == b
}

/// The OTP slots of every email but `email` look the same in `post` as in
/// `pre`.
pub open spec fn otps_unchanged_except(
    pre: Seq<OtpSlot>,
    post: Seq<OtpSlot>,
    email: Seq<char>,
) -> bool {
    forall|e: Seq<char>|
        #![trigger has_otp(post, e)]
        #![trigger has_otp(pre, e)]
        e != email ==> (has_otp(post, e) == has_otp(pre, e) && (has_otp(pre, e) ==> otp_record(
            post,
            e,
        ) == otp_record(pre, e)))
}

/// No identity other than `id` holds a username that collides
/// (case-insensitively) with `uname`.
pub open spec fn username_free_for(users: Seq<User>, id: i64, uname: Option<String>) -> bool {
    forall|k: int|
        #![trigger users[k]]
        0 <= k < users.len() ==> !(users[k].id != id && users[k].username is Some
            && uname is Some && lower(users[k].username->Some_0@) == lower(uname->Some_0@))
}

// ---------------------------------------------------------------------------
// Well-formedness
// ---------------------------------------------------------------------------

pub open spec fn user_ids_unique(users: Seq<User>) -> bool {
    forall|i: int, j: int| 0 <= i < j < users.len() ==> users[i].id != users[j].id
}

pub open spec fn user_emails_unique(users: Seq<User>) -> bool {
    forall|i: int, j: int| 0 <= i < j < users.len() ==> users[i].email@ != users[j].email@
}

pub open spec fn usernames_unique(users: Seq<User>) -> bool {
    forall|i: int, j: int|
        0 <= i < j < users.len() && users[i].username is Some && users[j].username is Some
            ==> lower(users[i].username->Some_0@) != lower(users[j].username->Some_0@)
}

pub open spec fn message_ids_unique(msgs: Seq<Message>) -> bool {
    forall|i: int, j: int| 0 <= i < j < msgs.len() ==> msgs[i].id != msgs[j].id
}

pub open spec fn otp_emails_unique(otps: Seq<OtpSlot>) -> bool {
    forall|i: int, j: int| 0 <= i < j < otps.len() ==> otps[i].email@ != otps[j].email@
}

pub open spec fn known_pairs_unique(known: Seq<DbKnown>) -> bool {
    forall|i: int, j: int|
        0 <= i < j < known.len()
            ==> !(known[i].user_id == known[j].user_id && known[i].item_id == known[j].item_id)
}

impl Storage {
    /// The store's invariant: ids fit under the counter and never collide,
    /// emails are unique, usernames are unique case-insensitively, and each
    /// email has at most one outstanding OTP.
    pub open spec fn wf(self) -> bool {
        &&& 1 <= self.next_item_id
        &&& 1 <= self.next_known_id
        &&& forall|i: int|
            0 <= i < self.users@.len() ==> 1 <= #[trigger] self.users@[i].id < self.next_item_id
        &&& forall|i: int|
            0 <= i < self.messages@.len() ==> 1 <= #[trigger] self.messages@[i].id
                < self.next_item_id
        &&& forall|i: int, j: int|
            0 <= i < self.users@.len() && 0 <= j < self.messages@.len()
                ==> #[trigger] self.users@[i].id != #[trigger] self.messages@[j].id
        &&& user_ids_unique(self.users@)
        &&& user_emails_unique(self.users@)
        &&& usernames_unique(self.users@)
        &&& message_ids_unique(self.messages@)
        &&& otp_emails_unique(self.otps@)
        &&& known_pairs_unique(self.known@)
    }
}

// ---------------------------------------------------------------------------
// Uniqueness gives each lookup a single witness
// ---------------------------------------------------------------------------

pub proof fn lemma_user_by_id_is(users: Seq<User>, id: i64, i: int)
    requires
        user_ids_unique(users),
        0 <= i < users.len(),
        users[i].id == id,
    ensures
        has_user_id(users, id),
        user_by_id(users, id) == users[i],
{
    let j = choose|j: int| 0 <= j < users.len() && users[j].id == id;
}

pub proof fn lemma_user_by_email_is(users: Seq<User>, email: Seq<char>, i: int)
    requires
        user_emails_unique(users),
        0 <= i < users.len(),
        users[i].email@ == email,
    ensures
        has_user_email(users, email),
        user_by_email(users, email) == users[i],
{
    let j = choose|j: int| 0 <= j < users.len() && users[j].email@ == email;
}

pub proof fn lemma_user_by_username_is(users: Seq<User>, name: Seq<char>, i: int)
    requires
        usernames_unique(users),
        0 <= i < users.len(),
        username_matches(users[i], name),
    ensures
        has_username(users, name),
        user_by_username(users, name) == users[i],
{
    let j = choose|j: int| 0 <= j < users.len() && username_matches(users[j], name);
}

pub proof fn lemma_message_by_id_is(msgs: Seq<Message>, id: i64, i: int)
    requires
        message_ids_unique(msgs),
        0 <= i < msgs.len(),
        msgs[i].id == id,
    ensures
        has_message_id(msgs, id),
        message_by_id(msgs, id) == msgs[i],
{
    let j = choose|j: int| 0 <= j < msgs.len() && msgs[j].id == id;
}

pub proof fn lemma_otp_record_is(otps: Seq<OtpSlot>, email: Seq<char>, i: int)
    requires
        otp_emails_unique(otps),
        0 <= i < otps.len(),
        otps[i].email@ == email,
    ensures
        has_otp(otps, email),
        otp_record(otps, email) == otps[i].record,
{
    let j = choose|j: int| 0 <= j < otps.len() && otps[j].email@ == email;
}

// ---------------------------------------------------------------------------
// Cloning records field by field keeps their values visible to the verifier
// ---------------------------------------------------------------------------

pub fn clone_opt_string(s: &Option<String>) -> (r: Option<String>)
    ensures
        r == *s,
{
    match s {
        Some(x) => Some(x.clone()),
        None => None,
    }
}

pub fn clone_user(u: &User) -> (r: User)
    ensures
        r == *u,
{
    User {
        id: u.id,
        email: u.email.clone(),
        username: clone_opt_string(&u.username),
        first_name: u.first_name.clone(),
        last_name: clone_opt_string(&u.last_name),
        created_at: u.created_at,
    }
}

pub fn clone_message(m: &Message) -> (r: Message)
    ensures
        r == *m,
{
    Message {
        id: m.id,
        from_id: m.from_id,
        chat_id: m.chat_id,
        text: clone_opt_string(&m.text),
        created_at: m.created_at,
    }
}

/// Content equality of two string slices.
pub fn str_eq(a: &str, b: &str) -> (r: bool)
    ensures
        r == (a@ == b@),
{
    let sa: String = a.to_owned();
    let sb: String = b.to_owned();
    sa == sb
}

/// Case-insensitive equality of two string slices, under the ASCII lowering
/// that usernames are compared with.
pub fn str_eq_ci(a: &str, b: &str) -> (r: bool)
    ensures
        r == (lower(a@) == lower(b@)),
{
    let la = a.unicode_len();
    let lb = b.unicode_len();
    if la != lb {
        proof {
            assert(lower(a@).len() != lower(b@).len());
        }
        return false;
    }
    let mut i: usize = 0;
    while i < la
        invariant
            la == a@.len(),
            la == b@.len(),
            i <= la,
            forall|j: int| 0 <= j < i ==> lower(a@)[j] == lower(b@)[j],
        decreases la - i,
    {
        let ca = lower_char_exec(a.get_char(i));
        let cb = lower_char_exec(b.get_char(i));
        if ca != cb {
            proof {
                assert(lower(a@)[i as int] != lower(b@)[i as int]);
            }
            return false;
        }
        i += 1;
    }
    proof {
        assert(lower(a@) =~= lower(b@));
    }
    true
}

impl Storage {
    /// A fresh, empty store.
    pub fn new() -> (s: Self)
        ensures
            s.wf(),
            s.users@ =~= Seq::<User>::empty(),
            s.messages@ =~= Seq::<Message>::empty(),
            s.otps@ =~= Seq::<OtpSlot>::empty(),
            s.known@ =~= Seq::<DbKnown>::empty(),
            s.next_item_id == 1,
    {
        Storage {
            users: Vec::new(),
            messages: Vec::new(),
            otps: Vec::new(),
            known: Vec::new(),
            next_item_id: 1,
            next_known_id: 1,
        }
    }

    /// Creates an identity with a fresh id from the shared id space.
    /// Fails when the email is already registered, when the requested
    /// username is already held (case-insensitively) by another identity,
    /// or when the id space is exhausted.
    pub fn create_user(
        &mut self,
        email: &str,
        username: Option<&str>,
        first_name: &str,
        last_name: Option<&str>,
        now: u64,
    ) -> (r: Result<User, StorageError>)
        requires
            old(self).wf(),
        ensures
            final(self).wf(),
            r is Err ==> *final(self) == *old(self),
            r is Ok <==> !has_user_email(old(self).users@, email@) && (username matches Some(n)
                ==> !has_username(old(self).users@, n@)) && old(self).next_item_id < i64::MAX,
            r matches Ok(u) ==> u.id == old(self).next_item_id && u.email@ == email@
                && (match username {
                Some(n) => u.username matches Some(m) && m@ == n@,
                None => u.username is None,
            }) && u.first_name@ == first_name@ && (match last_name {
                Some(n) => u.last_name matches Some(m) && m@ == n@,
                None => u.last_name is None,
            }) && u.created_at == now,
            r matches Ok(u) ==> final(self).users@ == old(self).users@.push(u)
                && final(self).next_item_id == old(self).next_item_id + 1
                && has_user_email(final(self).users@, email@)
                && user_by_email(final(self).users@, email@) == u
                && has_user_id(final(self).users@, u.id)
                && user_by_id(final(self).users@, u.id) == u,
            final(self).messages == old(self).messages,
            final(self).otps == old(self).otps,
            final(self).known == old(self).known,
            final(self).next_known_id == old(self).next_known_id,
    {
        match self.get_user_by_email(email) {
            Ok(Some(_)) => {
                return Err(StorageError::Internal);
            },
            _ => {},
        }
        if let Some(n) = username {
            match self.get_user_by_username(n) {
                Ok(Some(_)) => {
                    return Err(StorageError::Internal);
                },
                _ => {},
            }
        }
        if self.next_item_id == i64::MAX {
            return Err(StorageError::Internal);
        }
        let u = User {
            id: self.next_item_id,
            email: email.to_owned(),
            username: match username {
                Some(n) => Some(n.to_owned()),
                None => None,
            },
            first_name: first_name.to_owned(),
            last_name: match last_name {
                Some(n) => Some(n.to_owned()),
                None => None,
            },
            created_at: now,
        };
        let ghost pre = self.users@;
        let ret = clone_user(&u);
        self.users.push(u);
        self.next_item_id = self.next_item_id + 1;
        proof {
            let last = self.users@.len() - 1;
            assert forall|k: int| 0 <= k < last implies #[trigger] self.users@[k] == pre[k] by {}
            assert forall|k: int| 0 <= k < last implies #[trigger] self.users@[k].email@ != email@ by {
                if self.users@[k].email@ == email@ {
                    assert(has_user_email(pre, email@));
                }
            }
            if self.users@[last].username is Some {
                let m = self.users@[last].username->Some_0;
                assert forall|k: int|
                    0 <= k < last && #[trigger] self.users@[k].username is Some implies lower(
                    self.users@[k].username->Some_0@,
                ) != lower(m@) by {
                    if lower(self.users@[k].username->Some_0@) == lower(m@) {
                        assert(username_matches(pre[k], m@));
                        assert(has_username(pre, m@));
                    }
                }
            }
            lemma_user_by_email_is(self.users@, email@, last);
            lemma_user_by_id_is(self.users@, self.users@[last].id, last);
        }
        Ok(ret)
    }

    /// Creates a message with a fresh id from the shared id space.
    pub fn create_message(&mut self, from_id: i64, chat_id: i64, text: &str, now: u64) -> (r:
        Result<Message, StorageError>)
        requires
            old(self).wf(),
        ensures
            final(self).wf(),
            r is Err ==> *final(self) == *old(self),
            r is Ok <==> old(self).next_item_id < i64::MAX,
            r matches Ok(m) ==> m.id == old(self).next_item_id && m.from_id == from_id && m.chat_id
                == chat_id && (m.text matches Some(t) && t@ == text@) && m.created_at == now,
            r matches Ok(m) ==> final(self).messages@ == old(self).messages@.push(m)
                && final(self).next_item_id == old(self).next_item_id + 1
                && has_message_id(final(self).messages@, m.id)
                && message_by_id(final(self).messages@, m.id) == m,
            final(self).users == old(self).users,
            final(self).otps == old(self).otps,
            final(self).known == old(self).known,
            final(self).next_known_id == old(self).next_known_id,
    {
        if self.next_item_id == i64::MAX {
            return Err(StorageError::Internal);
        }
        let m = Message {
            id: self.next_item_id,
            from_id,
            chat_id,
            text: Some(text.to_owned()),
            created_at: now,
        };
        let ghost pre = self.messages@;
        let ret = clone_message(&m);
        self.messages.push(m);
        self.next_item_id = self.next_item_id + 1;
        proof {
            let last = self.messages@.len() - 1;
            assert forall|k: int| 0 <= k < last implies #[trigger] self.messages@[k] == pre[k] by {}
            lemma_message_by_id_is(self.messages@, self.messages@[last].id, last);
        }
        Ok(ret)
    }

    /// Overwrites the mutable profile fields (first name, last name,
    /// username) of the stored identity with `user.id`; the stored email and
    /// creation time stay. Fails when the id is unknown or the new username
    /// is held (case-insensitively) by another identity.
    pub fn update_user(&mut self, user: &User) -> (r: Result<User, StorageError>)
        requires
            old(self).wf(),
        ensures
            final(self).wf(),
            r is Err ==> *final(self) == *old(self),
            r is Ok <==> has_user_id(old(self).users@, user.id) && username_free_for(
                old(self).users@,
                user.id,
                user.username,
            ),
            r matches Ok(u) ==> u.id == user.id && u.email@ == user_by_id(
                old(self).users@,
                user.id,
            ).email@ && u.created_at == user_by_id(old(self).users@, user.id).created_at
                && u.username == user.username && u.first_name@ == user.first_name@ && u.last_name
                == user.last_name,
            r matches Ok(u) ==> has_user_id(final(self).users@, user.id) && user_by_id(
                final(self).users@,
                user.id,
            ) == u && forall|id: i64|
                id != user.id ==> (#[trigger] has_user_id(final(self).users@, id) == has_user_id(
                    old(self).users@,
                    id,
                ) && (has_user_id(old(self).users@, id) ==> user_by_id(final(self).users@, id)
                    == user_by_id(old(self).users@, id))),
            final(self).messages == old(self).messages,
            final(self).otps == old(self).otps,
            final(self).known == old(self).known,
            final(self).next_item_id == old(self).next_item_id,
            final(self).next_known_id == old(self).next_known_id,
    {
        // refuse a username already held by someone else
        let cnt = self.users.len();
        let mut j: usize = 0;
        while j < cnt
            invariant
                *self == *old(self),
                cnt == self.users@.len(),
                j <= cnt,
                old(self).wf(),
                forall|k: int|
                    #![trigger self.users@[k]]
                    0 <= k < j ==> !(self.users@[k].id != user.id && self.users@[k].username
                        is Some && user.username is Some && lower(
                        self.users@[k].username->Some_0@,
                    ) == lower(user.username->Some_0@)),
            decreases cnt - j,
        {
            if self.users[j].id != user.id {
                let clash: bool = match (&self.users[j].username, &user.username) {
                    (Some(m), Some(nn)) => str_eq_ci(m.as_str(), nn.as_str()),
                    _ => false,
                };
                if clash {
                    proof {
                        let uj = old(self).users@[j as int];
                        assert(uj.id != user.id && uj.username is Some && user.username is Some
                            && lower(uj.username->Some_0@) == lower(user.username->Some_0@));
                        assert(!username_free_for(old(self).users@, user.id, user.username));
                    }
                    return Err(StorageError::Internal);
                }
            }
            j += 1;
        }
        proof {
            assert(username_free_for(self.users@, user.id, user.username));
        }
        let n = self.users.len();
        let mut i: usize = 0;
        while i < n
            invariant
                *self == *old(self),
                n == self.users@.len(),
                i <= n,
                old(self).wf(),
                username_free_for(self.users@, user.id, user.username),
                forall|k: int| 0 <= k < i ==> #[trigger] self.users@[k].id != user.id,
            decreases n - i,
        {
            if self.users[i].id == user.id {
                proof {
                    lemma_user_by_id_is(self.users@, user.id, i as int);
                }
                let stored = &self.users[i];
                let updated = User {
                    id: user.id,
                    email: stored.email.clone(),
                    username: clone_opt_string(&user.username),
                    first_name: user.first_name.clone(),
                    last_name: clone_opt_string(&user.last_name),
                    created_at: stored.created_at,
                };
                let ret = clone_user(&updated);
                let ghost pre = self.users@;
                self.users.remove(i);
                self.users.insert(i, updated);
                proof {
                    assert(self.users@ =~= pre.update(i as int, ret));
                    assert forall|k: int| 0 <= k < self.users@.len() && k != i implies #[trigger] self.users@[k]
                        == pre[k] by {}
                    assert(user_ids_unique(self.users@));
                    assert(user_emails_unique(self.users@));
                    assert forall|k: int, l: int|
                        0 <= k < l < self.users@.len() && self.users@[k].username is Some
                            && self.users@[l].username is Some implies lower(
                        self.users@[k].username->Some_0@,
                    ) != lower(self.users@[l].username->Some_0@) by {
                        if k == i as int {
                            assert(pre[l].id != user.id);
                            assert(pre[l] == self.users@[l]);
                        } else if l == i as int {
                            assert(pre[k].id != user.id);
                            assert(pre[k] == self.users@[k]);
                        } else {
                            assert(pre[k] == self.users@[k]);
                            assert(pre[l] == self.users@[l]);
                        }
                    }
                    assert(usernames_unique(self.users@));
                    lemma_user_by_id_is(self.users@, user.id, i as int);
                    assert forall|id: i64| id != user.id implies (#[trigger] has_user_id(
                        self.users@,
                        id,
                    ) == has_user_id(pre, id) && (has_user_id(pre, id) ==> user_by_id(
                        self.users@,
                        id,
                    ) == user_by_id(pre, id))) by {
                        if has_user_id(self.users@, id) {
                            let k = choose|k: int|
                                0 <= k < self.users@.len() && self.users@[k].id == id;
                            assert(k != i);
                            lemma_user_by_id_is(pre, id, k);
                            lemma_user_by_id_is(self.users@, id, k);
                        } else if has_user_id(pre, id) {
                            let k = choose|k: int| 0 <= k < pre.len() && pre[k].id == id;
                            assert(k != i);
                            assert(self.users@[k].id == id);
                        }
                    }
                }
                return Ok(ret);
            }
            i += 1;
        }
        Err(StorageError::Internal)
    }

    /// Looks an identity up by its id.
    pub fn get_user(&self, item_id: i64) -> (r: Result<Option<User>, StorageError>)
        requires
            self.wf(),
        ensures
            r matches Ok(opt),
            r->Ok_0 matches Some(u) ==> has_user_id(self.users@, item_id) && u == user_by_id(
                self.users@,
                item_id,
            ),
            r->Ok_0 is None <==> !has_user_id(self.users@, item_id),
    {
        let n = self.users.len();
        let mut i: usize = 0;
        while i < n
            invariant
                n == self.users@.len(),
                i <= n,
                self.wf(),
                forall|j: int| 0 <= j < i ==> #[trigger] self.users@[j].id != item_id,
            decreases n - i,
        {
            if self.users[i].id == item_id {
                proof {
                    lemma_user_by_id_is(self.users@, item_id, i as int);
                }
                return Ok(Some(clone_user(&self.users[i])));
            }
            i += 1;
        }
        Ok(None)
    }

    /// Looks an identity up by its unique email.
    pub fn get_user_by_email(&self, email: &str) -> (r: Result<Option<User>, StorageError>)
        requires
            self.wf(),
        ensures
            r matches Ok(opt),
            r->Ok_0 matches Some(u) ==> has_user_email(self.users@, email@) && u == user_by_email(
                self.users@,
                email@,
            ),
            r->Ok_0 is None <==> !has_user_email(self.users@, email@),
    {
        let n = self.users.len();
        let mut i: usize = 0;
        while i < n
            invariant
                n == self.users@.len(),
                i <= n,
                self.wf(),
                forall|j: int| 0 <= j < i ==> #[trigger] self.users@[j].email@ != email@,
            decreases n - i,
        {
            if str_eq(self.users[i].email.as_str(), email) {
                proof {
                    lemma_user_by_email_is(self.users@, email@, i as int);
                }
                return Ok(Some(clone_user(&self.users[i])));
            }
            i += 1;
        }
        Ok(None)
    }

    /// Looks an identity up by username, case-insensitively.
    pub fn get_user_by_username(&self, username: &str) -> (r: Result<Option<User>, StorageError>)
        requires
            self.wf(),
        ensures
            r matches Ok(opt),
            r->Ok_0 matches Some(u) ==> has_username(self.users@, username@) && u
                == user_by_username(self.users@, username@),
            r->Ok_0 is None <==> !has_username(self.users@, username@),
    {
        let n = self.users.len();
        let mut i: usize = 0;
        while i < n
            invariant
                n == self.users@.len(),
                i <= n,
                self.wf(),
                forall|j: int| 0 <= j < i ==> !username_matches(#[trigger] self.users@[j], username@),
            decreases n - i,
        {
            let matched: bool = match &self.users[i].username {
                Some(name) => str_eq_ci(name.as_str(), username),
                None => false,
            };
            if matched {
                proof {
                    lemma_user_by_username_is(self.users@, username@, i as int);
                }
                return Ok(Some(clone_user(&self.users[i])));
            }
            i += 1;
        }
        Ok(None)
    }

    /// Looks a message up by its id.
    pub fn get_message(&self, item_id: i64) -> (r: Result<Option<Message>, StorageError>)
        requires
            self.wf(),
        ensures
            r matches Ok(opt),
            r->Ok_0 matches Some(m) ==> has_message_id(self.messages@, item_id) && m
                == message_by_id(self.messages@, item_id),
            r->Ok_0 is None <==> !has_message_id(self.messages@, item_id),
    {
        let n = self.messages.len();
        let mut i: usize = 0;
        while i < n
            invariant
                n == self.messages@.len(),
                i <= n,
                self.wf(),
                forall|j: int| 0 <= j < i ==> #[trigger] self.messages@[j].id != item_id,
            decreases n - i,
        {
            if self.messages[i].id == item_id {
                proof {
                    lemma_message_by_id_is(self.messages@, item_id, i as int);
                }
                return Ok(Some(clone_message(&self.messages[i])));
            }
            i += 1;
        }
        Ok(None)
    }

    /// Removes any outstanding OTP for `email`. Idempotent.
    pub fn delete_otp(&mut self, email: &str) -> (r: Result<(), StorageError>)
        requires
            old(self).wf(),
        ensures
            r is Ok,
            final(self).wf(),
            !has_otp(final(self).otps@, email@),
            otps_unchanged_except(old(self).otps@, final(self).otps@, email@),
            final(self).users == old(self).users,
            final(self).messages == old(self).messages,
            final(self).known == old(self).known,
            final(self).next_item_id == old(self).next_item_id,
            final(self).next_known_id == old(self).next_known_id,
    {
        let n = self.otps.len();
        let mut i: usize = 0;
        while i < n
            invariant
                *self == *old(self),
                n == self.otps@.len(),
                i <= n,
                old(self).wf(),
                forall|j: int| 0 <= j < i ==> #[trigger] self.otps@[j].email@ != email@,
            decreases n - i,
        {
            if str_eq(self.otps[i].email.as_str(), email) {
                let ghost pre = self.otps@;
                self.otps.remove(i);
                proof {
                    pre.remove_ensures(i as int);
                    assert forall|k: int| 0 <= k < self.otps@.len() implies (#[trigger] self.otps@[k]
                        == if k < i { pre[k] } else { pre[k + 1] }) by {}
                    assert(otp_emails_unique(self.otps@));
                    assert forall|k: int| 0 <= k < self.otps@.len() implies #[trigger] self.otps@[k].email@
                        != email@ by {}
                    assert forall|e: Seq<char>|
                        #![trigger has_otp(self.otps@, e)]
                        #![trigger has_otp(pre, e)]
                        e != email@ implies (has_otp(self.otps@, e) == has_otp(pre, e) && (has_otp(
                        pre,
                        e,
                    ) ==> otp_record(self.otps@, e) == otp_record(pre, e))) by {
                        if has_otp(self.otps@, e) {
                            let k = choose|k: int|
                                0 <= k < self.otps@.len() && self.otps@[k].email@ == e;
                            let k0: int = if k < i { k } else { k + 1 };
                            lemma_otp_record_is(pre, e, k0);
                            lemma_otp_record_is(self.otps@, e, k);
                        } else if has_otp(pre, e) {
                            let k = choose|k: int| 0 <= k < pre.len() && pre[k].email@ == e;
                            if k < i {
                                assert(self.otps@[k].email@ == e);
                            } else {
                                assert(self.otps@[k - 1].email@ == e);
                            }
                            assert(false);
                        }
                    }
                    assert(otps_unchanged_except(pre, self.otps@, email@));
                }
                return Ok(());
            }
            i += 1;
        }
        Ok(())
    }

    /// Stores a fresh OTP for `email`, replacing any previous one; the cache
    /// keeps at most one per email.
    pub fn store_otp(&mut self, email: &str, otp: &str, now: u64) -> (r: Result<(), StorageError>)
        requires
            old(self).wf(),
        ensures
            r is Ok,
            final(self).wf(),
            has_otp(final(self).otps@, email@),
            otp_record(final(self).otps@, email@).otp@ == otp@,
            otp_record(final(self).otps@, email@).created_at == now,
            otps_unchanged_except(old(self).otps@, final(self).otps@, email@),
            final(self).users == old(self).users,
            final(self).messages == old(self).messages,
            final(self).known == old(self).known,
            final(self).next_item_id == old(self).next_item_id,
            final(self).next_known_id == old(self).next_known_id,
    {
        let _ = self.delete_otp(email);
        let ghost mid = self.otps@;
        self.otps.push(
            OtpSlot {
                email: email.to_owned(),
                record: DbOTP { otp: otp.to_owned(), created_at: now },
            },
        );
        proof {
            let last = self.otps@.len() - 1;
            assert(forall|k: int| 0 <= k < mid.len() ==> #[trigger] mid[k].email@ != email@);
            assert(otp_emails_unique(self.otps@));
            lemma_otp_record_is(self.otps@, email@, last);
            assert forall|e: Seq<char>|
                #![trigger has_otp(self.otps@, e)]
                #![trigger has_otp(old(self).otps@, e)]
                e != email@ implies (has_otp(self.otps@, e) == has_otp(old(self).otps@, e) && (
            has_otp(old(self).otps@, e) ==> otp_record(self.otps@, e) == otp_record(
                old(self).otps@,
                e,
            ))) by {
                assert(has_otp(mid, e) == has_otp(old(self).otps@, e));
                if has_otp(self.otps@, e) {
                    let k = choose|k: int| 0 <= k < self.otps@.len() && self.otps@[k].email@ == e;
                    assert(k < last);
                    assert(mid[k] == self.otps@[k]);
                    lemma_otp_record_is(mid, e, k);
                    lemma_otp_record_is(self.otps@, e, k);
                }
                if has_otp(mid, e) {
                    let k = choose|k: int| 0 <= k < mid.len() && mid[k].email@ == e;
                    assert(self.otps@[k] == mid[k]);
                }
            }
            assert(otps_unchanged_except(old(self).otps@, self.otps@, email@));
        }
        Ok(())
    }

    /// Reads the outstanding OTP for `email`, if one exists and its TTL has
    /// not elapsed at time `now`.
    pub fn get_otp(&self, email: &str, now: u64) -> (r: Result<
        Option<(String, u64)>,
        StorageError,
    >)
        requires
            self.wf(),
        ensures
            r matches Ok(opt),
            r->Ok_0 matches Some(p) ==> has_otp(self.otps@, email@) && otp_live(
                otp_record(self.otps@, email@),
                now,
            ) && p.0@ == otp_record(self.otps@, email@).otp@ && p.1 == otp_record(
                self.otps@,
                email@,
            ).created_at,
            r->Ok_0 is None <==> !(has_otp(self.otps@, email@) && otp_live(
                otp_record(self.otps@, email@),
                now,
            )),
    {
        let n = self.otps.len();
        let mut i: usize = 0;
        while i < n
            invariant
                n == self.otps@.len(),
                i <= n,
                self.wf(),
                forall|j: int| 0 <= j < i ==> #[trigger] self.otps@[j].email@ != email@,
            decreases n - i,
        {
            if str_eq(self.otps[i].email.as_str(), email) {
                proof {
                    lemma_otp_record_is(self.otps@, email@, i as int);
                }
                let rec = &self.otps[i].record;
                let live: bool = if now >= rec.created_at {
                    now - rec.created_at < OTP_TTL_SECS
                } else {
                    true
                };
                if live {
                    return Ok(Some((rec.otp.clone(), rec.created_at)));
                } else {
                    return Ok(None);
                }
            }
            i += 1;
        }
        Ok(None)
    }

    /// Does the store record that `user_id` knows `item_id`?
    pub fn is_known(&self, user_id: i64, item_id: i64) -> (r: Result<bool, StorageError>)
        requires
            self.wf(),
        ensures
            r matches Ok(b) && b == known_pair(self.known@, user_id, item_id),
    {
        let n = self.known.len();
        let mut i: usize = 0;
        while i < n
            invariant
                n == self.known@.len(),
                i <= n,
                forall|j: int|
                    0 <= j < i ==> !(#[trigger] self.known@[j].user_id == user_id
                        && self.known@[j].item_id == item_id),
            decreases n - i,
        {
            if self.known[i].user_id == user_id && self.known[i].item_id == item_id {
                return Ok(true);
            }
            i += 1;
        }
        Ok(false)
    }

    /// Records that `user_id` knows `item_id`. Idempotent; one direction only,
    /// callers establish both.
    pub fn set_known(&mut self, user_id: i64, item_id: i64) -> (r: Result<(), StorageError>)
        requires
            old(self).wf(),
        ensures
            final(self).wf(),
            r is Ok,
            known_pair(final(self).known@, user_id, item_id),
            forall|a: i64, b: i64|
                !(a == user_id && b == item_id) ==> #[trigger] known_pair(
                    final(self).known@,
                    a,
                    b,
                ) == known_pair(old(self).known@, a, b),
            final(self).users == old(self).users,
            final(self).messages == old(self).messages,
            final(self).otps == old(self).otps,
            final(self).next_item_id == old(self).next_item_id,
    {
        let already = match self.is_known(user_id, item_id) {
            Ok(b) => b,
            Err(_) => false,
        };
        if already {
            return Ok(());
        }
        let ghost pre = self.known@;
        let row = DbKnown { id: self.next_known_id, user_id, item_id };
        if self.next_known_id < i64::MAX {
            self.next_known_id = self.next_known_id + 1;
        }
        self.known.push(row);
        proof {
            let last = self.known@.len() - 1;
            assert(self.known@[last].user_id == user_id && self.known@[last].item_id == item_id);
            assert(known_pair(self.known@, user_id, item_id));
            assert forall|a: i64, b: i64| !(a == user_id && b == item_id) implies #[trigger] known_pair(
                self.known@,
                a,
                b,
            ) == known_pair(pre, a, b) by {
                if known_pair(self.known@, a, b) {
                    let k = choose|k: int|
                        0 <= k < self.known@.len() && self.known@[k].user_id == a
                            && self.known@[k].item_id == b;
                    assert(k < last);
                    assert(pre[k] == self.known@[k]);
                }
                if known_pair(pre, a, b) {
                    let k = choose|k: int|
                        0 <= k < pre.len() && pre[k].user_id == a && pre[k].item_id == b;
                    assert(self.known@[k] == pre[k]);
                }
            }
            assert forall|i: int, j: int| 0 <= i < j < self.known@.len() implies !(self.known@[i].user_id
                == self.known@[j].user_id && self.known@[i].item_id == self.known@[j].item_id) by {
                if j == last {
                    assert(self.known@[i] == pre[i]);
                    if self.known@[i].user_id == user_id && self.known@[i].item_id == item_id {
                        assert(known_pair(pre, user_id, item_id));
                    }
                } else {
                    assert(self.known@[i] == pre[i]);
                    assert(self.known@[j] == pre[j]);
                }
            }
        }
        Ok(())
    }
}

} // verus!
