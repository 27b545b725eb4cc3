//! The token authority: OTP issuance and verification, bearer-token minting
//! and validation, and profile creation and patching.

use vstd::prelude::*;
use vstd::string::*;

use crate::email::{EmailService, EmailServiceError};
use crate::models::User;
use crate::random::{generate_otp, hex_of, is_otp_code, is_word_char, random_hash, sha256_of};
use crate::store::{
    clone_opt_string, has_otp, has_user_email, has_user_id, has_username, lemma_user_by_id_is,
    lemma_user_by_username_is, otp_live, otp_record, otps_unchanged_except, str_eq, user_by_email,
    user_by_id, user_by_username, username_free_for, username_matches, Storage, StorageError,
};

verus! {

/// Failure of an operation of the token authority.
#[derive(Debug, Clone, Copy)]
pub enum UserServiceError {
    Storage(StorageError),
    Email(EmailServiceError),
    InvalidEmail,
    InvalidOTP,
    OTPNotSent,
    InvalidAuthentication,
    UserAlreadyExists,
    UsernameUsed,
    InvalidUsername,
}

impl From<StorageError> for UserServiceError {
    fn from(storage_error: StorageError) -> (r: Self) {
        UserServiceError::Storage(storage_error)
    }
}

impl vstd::std_specs::convert::FromSpecImpl<StorageError> for UserServiceError {
    open spec fn obeys_from_spec() -> bool {
        true
    }

    open spec fn from_spec(v: StorageError) -> Self {
        UserServiceError::Storage(v)
    }
}

impl From<EmailServiceError> for UserServiceError {
    fn from(email_error: EmailServiceError) -> (r: Self) {
        UserServiceError::Email(email_error)
    }
}

impl vstd::std_specs::convert::FromSpecImpl<EmailServiceError> for UserServiceError {
    open spec fn obeys_from_spec() -> bool {
        true
    }

    open spec fn from_spec(v: EmailServiceError) -> Self {
        UserServiceError::Email(v)
    }
}

/// One profile patch: a field name and the value to put there, `None` to
/// clear it.
#[derive(Debug, Clone)]
pub struct PatchUserField {
    pub name: String,
    pub value: Option<String>,
}

/// Seconds a bearer token stays valid after minting.
pub const TOKEN_TTL_SECS: u64 = 3600;

/// An email address the authority accepts: non-empty and holding an '@'.
pub open spec fn valid_email(e: Seq<char>) -> bool {
    e.len() > 0 && exists|i: int| 0 <= i < e.len() && e[i] == '@'
}

/// A username the authority accepts: 3 to 20 characters, each an ASCII
/// letter, an ASCII digit, or an underscore — the alphabet that the ASCII
/// case folding of [`crate::models::lower`] treats exactly.
pub open spec fn valid_username(s: Seq<char>) -> bool {
    3 <= s.len() <= 20 && forall|i: int|
        0 <= i < s.len() ==> (#[trigger] s[i] == '_' || is_word_char(s[i]))
}

/// An unexpired OTP is outstanding for this email at time `now`.
pub open spec fn otp_pending(s: Storage, email: Seq<char>, now: u64) -> bool {
    has_otp(s.otps@, email) && otp_live(otp_record(s.otps@, email), now)
}

/// The signed bearer token that encodes the claims (subject, expiry) under
/// a signing key; a function of those three alone.
pub uninterp spec fn jwt_of(sub: Seq<char>, exp: u64, secret: Seq<u8>) -> Seq<char>;

/// The claims that token validation recovers from a token string under a
/// signing key: `None` for a token that is malformed, wrongly signed, or
/// whose claims do not carry a string `sub` and an integral `exp` (or that
/// names an audience, which this service never sets); a function of token
/// and key alone.
pub uninterp spec fn jwt_claims_of(token: Seq<char>, secret: Seq<u8>) -> Option<(Seq<char>, u64)>;

/// Relies on jsonwebtoken's `encode` with the default HS256 header. The
/// call cannot fail here: the key family matches the header's, HMAC-SHA256
/// accepts a key of any length, and a plain JSON map always serializes —
/// so the token is a pure function of claims and key, and decoding with
/// the same key recovers the claims.
#[verifier::external_body]
fn jwt_encode(sub: &str, exp: u64, secret: &[u8]) -> (r: String)
    ensures
        r@ == jwt_of(sub@, exp, secret@),
        jwt_claims_of(r@, secret@) == Some((sub@, exp)),
{
    let mut claims = serde_json::Map::new();
    claims.insert("sub".to_string(), serde_json::Value::String(sub.to_string()));
    claims.insert("exp".to_string(), serde_json::Value::from(exp));
    jsonwebtoken::encode(
        &jsonwebtoken::Header::default(),
        &claims,
        &jsonwebtoken::EncodingKey::from_secret(secret),
    ).unwrap()
}

/// Relies on jsonwebtoken's `decode` with HS256, signature check on, expiry
/// check off: expiry is judged by the caller against its own clock.
#[verifier::external_body]
fn jwt_decode(token: &str, secret: &[u8]) -> (r: Option<(String, u64)>)
    ensures
        r matches Some(p) ==> jwt_claims_of(token@, secret@) == Some((p.0@, p.1)),
        r is None ==> jwt_claims_of(token@, secret@) is None,
{
    let mut validation = jsonwebtoken::Validation::new(jsonwebtoken::Algorithm::HS256);
    validation.validate_exp = false;
    validation.required_spec_claims = std::collections::HashSet::new();
    let data = jsonwebtoken::decode::<serde_json::Value>(
        token,
        &jsonwebtoken::DecodingKey::from_secret(secret),
        &validation,
    ).ok()?;
    let sub = data.claims.get("sub")?.as_str()?.to_string();
    let exp = data.claims.get("exp")?.as_u64()?;
    Some((sub, exp))
}

/// What `authenticate` returns: an error for a malformed, wrongly signed or
/// expired token; otherwise the profile of the token's subject, or `None`
/// when the subject has none yet.
pub open spec fn authenticate_spec(
    users: Seq<User>,
    secret: Seq<u8>,
    token: Seq<char>,
    now: u64,
) -> Result<Option<User>, UserServiceError> {
    match jwt_claims_of(token, secret) {
        Option::None => Err(UserServiceError::InvalidAuthentication),
        Option::Some((sub, exp)) => if exp <= now {
            Err(UserServiceError::InvalidAuthentication)
        } else if has_user_email(users, sub) {
            Ok(Some(user_by_email(users, sub)))
        } else {
            Ok(None)
        },
    }
}

/// What `authenticate_with_user` returns: as `authenticate`, with a missing
/// profile turned into an authentication error.
pub open spec fn authenticate_user_spec(
    users: Seq<User>,
    secret: Seq<u8>,
    token: Seq<char>,
    now: u64,
) -> Result<User, UserServiceError> {
    match authenticate_spec(users, secret, token, now) {
        Ok(Option::Some(u)) => Ok(u),
        Ok(Option::None) => Err(UserServiceError::InvalidAuthentication),
        Err(e) => Err(e),
    }
}

/// The first name after a list of patches has been applied in order.
pub open spec fn patched_first(fields: Seq<PatchUserField>, init: Seq<char>) -> Seq<char>
    decreases fields.len(),
{
    if fields.len() == 0 {
        init
    } else {
        let prev = patched_first(fields.drop_last(), init);
        let f = fields.last();
        if f.name@ == "first_name"@ {
            match f.value {
                Option::Some(v) => v@,
                Option::None => Seq::<char>::empty(),
            }
        } else {
            prev
        }
    }
}

/// The view of an optional string.
pub open spec fn opt_view(o: Option<String>) -> Option<Seq<char>> {
    match o {
        Option::Some(s) => Some(s@),
        Option::None => None,
    }
}

/// The last name after a list of patches has been applied in order.
pub open spec fn patched_last(fields: Seq<PatchUserField>, init: Option<Seq<char>>) -> Option<
    Seq<char>,
>
    decreases fields.len(),
{
    if fields.len() == 0 {
        init
    } else {
        let prev = patched_last(fields.drop_last(), init);
        let f = fields.last();
        if f.name@ == "last_name"@ {
            opt_view(f.value)
        } else {
            prev
        }
    }
}

/// The username after a list of patches has been applied in order.
pub open spec fn patched_username(fields: Seq<PatchUserField>, init: Option<Seq<char>>) -> Option<
    Seq<char>,
>
    decreases fields.len(),
{
    if fields.len() == 0 {
        init
    } else {
        let prev = patched_username(fields.drop_last(), init);
        let f = fields.last();
        if f.name@ == "username"@ {
            opt_view(f.value)
        } else {
            prev
        }
    }
}

/// Accepts exactly the emails with an '@'.
pub fn is_valid_email(email: &str) -> (r: bool)
    ensures
        r == valid_email(email@),
{
    let n = email.unicode_len();
    if n == 0 {
        return false;
    }
    let mut i: usize = 0;
    while i < n
        invariant
            n == email@.len(),
            i <= n,
            forall|j: int| 0 <= j < i ==> email@[j] != '@',
        decreases n - i,
    {
        if email.get_char(i) == '@' {
            return true;
        }
        i += 1;
    }
    false
}

/// The token authority. It owns the key that signs bearer tokens; state
/// lives in the record store it is handed.
pub struct ImplUserService {
    pub secret: Vec<u8>,
}

impl ImplUserService {
    pub fn new(secret: Vec<u8>) -> (r: Self)
        ensures
            r.secret == secret,
    {
        ImplUserService { secret }
    }

    /// Mints a bearer token for `email` expiring `TOKEN_TTL_SECS` after
    /// `now`.
    fn create_jwt_token(&self, email: &str, now: u64) -> (r: String)
        requires
            now + TOKEN_TTL_SECS <= u64::MAX,
        ensures
            r@ == jwt_of(email@, (now + TOKEN_TTL_SECS) as u64, self.secret@),
            jwt_claims_of(r@, self.secret@) == Some((email@, (now + TOKEN_TTL_SECS) as u64)),
    {
        jwt_encode(email, now + TOKEN_TTL_SECS, self.secret.as_slice())
    }

    /// Recovers the claims of a token signed with this authority's key.
    fn verify_jwt_token(&self, token: &str) -> (r: Option<(String, u64)>)
        ensures
            r matches Some(p) ==> jwt_claims_of(token@, self.secret@) == Some((p.0@, p.1)),
            r is None ==> jwt_claims_of(token@, self.secret@) is None,
    {
        jwt_decode(token, self.secret.as_slice())
    }

    /// Accepts exactly the valid usernames; see [`valid_username`].
    pub fn check_username(&self, username: &str) -> (r: Result<(), UserServiceError>)
        ensures
            r is Ok <==> valid_username(username@),
            r is Err ==> r == Err::<(), UserServiceError>(UserServiceError::InvalidUsername),
    {
        let n = username.unicode_len();
        if n < 3 || n > 20 {
            return Err(UserServiceError::InvalidUsername);
        }
        let mut i: usize = 0;
        while i < n
            invariant
                n == username@.len(),
                i <= n,
                forall|j: int|
                    0 <= j < i ==> (#[trigger] username@[j] == '_' || is_word_char(username@[j])),
            decreases n - i,
        {
            let c = username.get_char(i);
            let word_char = (c >= 'a' && c <= 'z') || (c >= 'A' && c <= 'Z') || (c >= '0' && c
                <= '9');
            if !(c == '_' || word_char) {
                return Err(UserServiceError::InvalidUsername);
            }
            i += 1;
        }
        Ok(())
    }

    /// Issues an OTP for `email`: rejects a malformed email, refuses while
    /// an unexpired OTP is outstanding, otherwise stores a fresh 6-digit
    /// code with its issue time, hands it to the dispatcher, and returns the
    /// salted confirmation hash of the code. A dispatch failure surfaces
    /// after the code is stored.
    pub fn send_otp<T: EmailService>(
        &self,
        storage: &mut Storage,
        email: &str,
        email_service: &T,
        now: u64,
    ) -> (r: Result<String, UserServiceError>)
        requires
            old(storage).wf(),
        ensures
            final(storage).wf(),
            !valid_email(email@) ==> r == Err::<String, UserServiceError>(
                UserServiceError::InvalidEmail,
            ) && *final(storage) == *old(storage),
            valid_email(email@) && otp_pending(*old(storage), email@, now) ==> r == Err::<
                String,
                UserServiceError,
            >(UserServiceError::OTPNotSent) && *final(storage) == *old(storage),
            valid_email(email@) && !otp_pending(*old(storage), email@, now) ==> (r matches Ok(_)
                || r matches Err(UserServiceError::Email(_))) && has_otp(
                final(storage).otps@,
                email@,
            ) && otp_record(final(storage).otps@, email@).created_at == now && is_otp_code(
                otp_record(final(storage).otps@, email@).otp@,
            ) && otps_unchanged_except(old(storage).otps@, final(storage).otps@, email@) && final(storage).users == old(storage).users && final(storage).messages == old(storage).messages
                && final(storage).known == old(storage).known && final(storage).next_item_id == old(storage).next_item_id,
            r matches Ok(h) ==> h@.len() == 64 && exists|salt: Seq<u8>|
                salt.len() == 16 && h@ == hex_of(sha256_of(
                    #[trigger] (salt + vstd::utf8::encode_utf8(
                        otp_record(final(storage).otps@, email@).otp@,
                    )),
                )),
    {
        if !is_valid_email(email) {
            return Err(UserServiceError::InvalidEmail);
        }
        let pending = match storage.get_otp(email, now) {
            Ok(o) => o,
            Err(e) => {
                return Err(UserServiceError::Storage(e));
            },
        };
        if pending.is_some() {
            return Err(UserServiceError::OTPNotSent);
        }
        let otp = generate_otp();
        match storage.store_otp(email, otp.as_str(), now) {
            Ok(()) => {},
            Err(e) => {
                return Err(UserServiceError::Storage(e));
            },
        }
        match email_service.send_otp(email, otp.as_str()) {
            Ok(()) => {},
            Err(e) => {
                return Err(UserServiceError::Email(e));
            },
        }
        let h = random_hash(otp.as_str());
        Ok(h)
    }

    /// Verifies the outstanding OTP for `email`: on a match, deletes it
    /// (single use) and mints a bearer token for `email` expiring
    /// `TOKEN_TTL_SECS` after `now`.
    pub fn verify_otp(&self, storage: &mut Storage, email: &str, otp: &str, now: u64) -> (r:
        Result<String, UserServiceError>)
        requires
            old(storage).wf(),
            now + TOKEN_TTL_SECS <= u64::MAX,
        ensures
            final(storage).wf(),
            !valid_email(email@) ==> r == Err::<String, UserServiceError>(
                UserServiceError::InvalidEmail,
            ) && *final(storage) == *old(storage),
            valid_email(email@) && !otp_pending(*old(storage), email@, now) ==> r == Err::<
                String,
                UserServiceError,
            >(UserServiceError::InvalidOTP) && *final(storage) == *old(storage),
            valid_email(email@) && otp_pending(*old(storage), email@, now) && otp_record(
                old(storage).otps@,
                email@,
            ).otp@ != otp@ ==> r == Err::<String, UserServiceError>(UserServiceError::InvalidOTP)
                && *final(storage) == *old(storage),
            valid_email(email@) && otp_pending(*old(storage), email@, now) && otp_record(
                old(storage).otps@,
                email@,
            ).otp@ == otp@ ==> !has_otp(final(storage).otps@, email@) && otps_unchanged_except(
                old(storage).otps@,
                final(storage).otps@,
                email@,
            ) && final(storage).users == old(storage).users && final(storage).messages == old(storage).messages && final(storage).known == old(storage).known && final(storage).next_item_id
                == old(storage).next_item_id && (r matches Ok(t) && t@ == jwt_of(
                email@,
                (now + TOKEN_TTL_SECS) as u64,
                self.secret@,
            ) && jwt_claims_of(t@, self.secret@) == Some(
                (email@, (now + TOKEN_TTL_SECS) as u64),
            )),
    {
        if !is_valid_email(email) {
            return Err(UserServiceError::InvalidEmail);
        }
        let stored = match storage.get_otp(email, now) {
            Ok(o) => o,
            Err(e) => {
                return Err(UserServiceError::Storage(e));
            },
        };
        let (stored_otp, _created_at) = match stored {
            Some(p) => p,
            None => {
                return Err(UserServiceError::InvalidOTP);
            },
        };
        if !str_eq(stored_otp.as_str(), otp) {
            return Err(UserServiceError::InvalidOTP);
        }
        match storage.delete_otp(email) {
            Ok(()) => {},
            Err(e) => {
                return Err(UserServiceError::Storage(e));
            },
        }
        Ok(self.create_jwt_token(email, now))
    }

    /// Validates a bearer token. A well-formed, correctly signed, unexpired
    /// token never yields an error: it yields the subject's profile, or
    /// `None` when the subject has no profile yet.
    pub fn authenticate(&self, storage: &Storage, token: &str, now: u64) -> (r: Result<
        Option<User>,
        UserServiceError,
    >)
        requires
            storage.wf(),
        ensures
            r == authenticate_spec(storage.users@, self.secret@, token@, now),
    {
        match self.verify_jwt_token(token) {
            None => Err(UserServiceError::InvalidAuthentication),
            Some((sub, exp)) => {
                if exp <= now {
                    return Err(UserServiceError::InvalidAuthentication);
                }
                match storage.get_user_by_email(sub.as_str()) {
                    Ok(opt) => Ok(opt),
                    Err(e) => Err(UserServiceError::Storage(e)),
                }
            },
        }
    }

    /// As [`Self::authenticate`], but a subject without a profile is an
    /// authentication error.
    pub fn authenticate_with_user(&self, storage: &Storage, token: &str, now: u64) -> (r: Result<
        User,
        UserServiceError,
    >)
        requires
            storage.wf(),
        ensures
            r == authenticate_user_spec(storage.users@, self.secret@, token@, now),
    {
        match self.authenticate(storage, token, now) {
            Ok(Some(u)) => Ok(u),
            Ok(None) => Err(UserServiceError::InvalidAuthentication),
            Err(e) => Err(e),
        }
    }

    /// Creates the profile of the token's subject: fails on a bad token and
    /// when the subject already has one; the new profile has no username
    /// yet.
    pub fn create_user(
        &self,
        storage: &mut Storage,
        token: &str,
        first_name: &str,
        last_name: Option<&str>,
        now: u64,
    ) -> (r: Result<User, UserServiceError>)
        requires
            old(storage).wf(),
        ensures
            final(storage).wf(),
            r is Err ==> *final(storage) == *old(storage),
            match jwt_claims_of(token@, self.secret@) {
                Option::None => r == Err::<User, UserServiceError>(
                    UserServiceError::InvalidAuthentication,
                ),
                Option::Some((sub, exp)) => {
                    if exp <= now {
                        r == Err::<User, UserServiceError>(UserServiceError::InvalidAuthentication)
                    } else if has_user_email(old(storage).users@, sub) {
                        r == Err::<User, UserServiceError>(UserServiceError::UserAlreadyExists)
                    } else if old(storage).next_item_id == i64::MAX {
                        r == Err::<User, UserServiceError>(
                            UserServiceError::Storage(StorageError::Internal),
                        )
                    } else {
                        &&& r matches Ok(u)
                        &&& u.id == old(storage).next_item_id
                        &&& u.email@ == sub
                        &&& u.username is None
                        &&& u.first_name@ == first_name@
                        &&& (match last_name {
                            Some(n) => u.last_name matches Some(m) && m@ == n@,
                            None => u.last_name is None,
                        })
                        &&& u.created_at == now
                        &&& final(storage).users@ == old(storage).users@.push(u)
                        &&& has_user_email(final(storage).users@, sub)
                        &&& user_by_email(final(storage).users@, sub) == u
                        &&& final(storage).next_item_id == old(storage).next_item_id + 1
                        &&& final(storage).messages == old(storage).messages
                        &&& final(storage).otps == old(storage).otps
                        &&& final(storage).known == old(storage).known
                    }
                },
            },
    {
        let (sub, exp) = match self.verify_jwt_token(token) {
            Some(p) => p,
            None => {
                return Err(UserServiceError::InvalidAuthentication);
            },
        };
        if exp <= now {
            return Err(UserServiceError::InvalidAuthentication);
        }
        let existing = match storage.get_user_by_email(sub.as_str()) {
            Ok(o) => o,
            Err(e) => {
                return Err(UserServiceError::Storage(e));
            },
        };
        if existing.is_some() {
            return Err(UserServiceError::UserAlreadyExists);
        }
        match storage.create_user(sub.as_str(), None, first_name, last_name, now) {
            Ok(u) => Ok(u),
            Err(e) => Err(UserServiceError::Storage(e)),
        }
    }

    /// Applies profile patches in order: recognized field names overwrite
    /// the profile's first name, last name or username; unrecognized names
    /// are ignored. A username that ends up set must be valid and not held
    /// (case-insensitively) by anyone else.
    pub fn patch_me(&self, storage: &mut Storage, token: &str, fields: Vec<PatchUserField>, now:
        u64) -> (r: Result<User, UserServiceError>)
        requires
            old(storage).wf(),
        ensures
            final(storage).wf(),
            r is Err ==> *final(storage) == *old(storage),
            match authenticate_user_spec(old(storage).users@, self.secret@, token@, now) {
                Err(e) => r == Err::<User, UserServiceError>(e),
                Ok(u0) => {
                    let fv = patched_first(fields@, u0.first_name@);
                    let lv = patched_last(fields@, opt_view(u0.last_name));
                    let uv = patched_username(fields@, opt_view(u0.username));
                    if uv matches Some(nv) && !valid_username(nv) {
                        r == Err::<User, UserServiceError>(UserServiceError::InvalidUsername)
                    } else if uv matches Some(nv) && has_username(old(storage).users@, nv)
                        && user_by_username(old(storage).users@, nv).id != u0.id {
                        r == Err::<User, UserServiceError>(UserServiceError::UsernameUsed)
                    } else {
                        &&& r matches Ok(u)
                        &&& u.id == u0.id
                        &&& u.email@ == u0.email@
                        &&& u.created_at == u0.created_at
                        &&& u.first_name@ == fv
                        &&& opt_view(u.last_name) == lv
                        &&& opt_view(u.username) == uv
                        &&& has_user_id(final(storage).users@, u0.id)
                        &&& user_by_id(final(storage).users@, u0.id) == u
                        &&& (forall|id: i64|
                            id != u0.id ==> (#[trigger] has_user_id(final(storage).users@, id)
                                == has_user_id(old(storage).users@, id) && (has_user_id(
                                old(storage).users@,
                                id,
                            ) ==> user_by_id(final(storage).users@, id) == user_by_id(
                                old(storage).users@,
                                id,
                            ))))
                        &&& final(storage).messages == old(storage).messages
                        &&& final(storage).otps == old(storage).otps
                        &&& final(storage).known == old(storage).known
                        &&& final(storage).next_item_id == old(storage).next_item_id
                    }
                },
            },
    {
        let mut user = match self.authenticate_with_user(storage, token, now) {
            Ok(u) => u,
            Err(e) => {
                return Err(e);
            },
        };
        let ghost u0 = user;
        proof {
            reveal_strlit("first_name");
            reveal_strlit("last_name");
            reveal_strlit("username");
        }
        let n = fields.len();
        let mut i: usize = 0;
        while i < n
            invariant
                n == fields@.len(),
                i <= n,
                user.id == u0.id,
                user.email@ == u0.email@,
                user.created_at == u0.created_at,
                user.first_name@ == patched_first(fields@.subrange(0, i as int), u0.first_name@),
                opt_view(user.last_name) == patched_last(
                    fields@.subrange(0, i as int),
                    opt_view(u0.last_name),
                ),
                opt_view(user.username) == patched_username(
                    fields@.subrange(0, i as int),
                    opt_view(u0.username),
                ),
            decreases n - i,
        {
            proof {
                reveal_strlit("first_name");
                reveal_strlit("last_name");
                reveal_strlit("username");
                assert("first_name"@.len() == 10);
                assert("last_name"@.len() == 9);
                assert("username"@.len() == 8);
                assert("first_name"@ != "last_name"@);
                assert("first_name"@ != "username"@);
                assert("last_name"@ != "username"@);
                assert(fields@.subrange(0, i + 1).drop_last() =~= fields@.subrange(0, i as int));
                assert(fields@.subrange(0, i + 1).last() == fields@[i as int]);
            }
            let f = &fields[i];
            if str_eq(f.name.as_str(), "first_name") {
                user.first_name = match &f.value {
                    Some(v) => v.clone(),
                    None => String::new(),
                };
            } else if str_eq(f.name.as_str(), "last_name") {
                user.last_name = clone_opt_string(&f.value);
            } else if str_eq(f.name.as_str(), "username") {
                user.username = clone_opt_string(&f.value);
            }
            i += 1;
        }
        proof {
            assert(fields@.subrange(0, n as int) =~= fields@);
        }
        if let Some(name) = &user.username {
            match self.check_username(name.as_str()) {
                Ok(()) => {},
                Err(e) => {
                    return Err(e);
                },
            }
            let existing = match storage.get_user_by_username(name.as_str()) {
                Ok(o) => o,
                Err(e) => {
                    return Err(UserServiceError::Storage(e));
                },
            };
            match existing {
                Some(other) => {
                    if other.id != user.id {
                        return Err(UserServiceError::UsernameUsed);
                    }
                    proof {
                        lemma_patch_username_free(*storage, user.id, name@);
                    }
                },
                None => {
                    proof {
                        assert forall|k: int|
                            #![trigger storage.users@[k]]
                            0 <= k < storage.users@.len() implies !(storage.users@[k].id != user.id
                            && storage.users@[k].username is Some && lower_eq_name(
                            storage.users@[k],
                            name@,
                        )) by {
                            if storage.users@[k].username is Some && lower_eq_name(
                                storage.users@[k],
                                name@,
                            ) {
                                assert(username_matches(storage.users@[k], name@));
                                assert(has_username(storage.users@, name@));
                            }
                        }
                    }
                },
            }
        }
        proof {
            assert(username_free_for(storage.users@, user.id, user.username));
            let k = choose|k: int|
                0 <= k < storage.users@.len() && storage.users@[k].email@ == u0.email@;
            assert(storage.users@[k].id == u0.id);
            assert(has_user_id(storage.users@, user.id));
            lemma_user_by_id_is(storage.users@, u0.id, k);
        }
        match storage.update_user(&user) {
            Ok(u2) => Ok(u2),
            Err(e) => Err(UserServiceError::Storage(e)),
        }
    }
}

/// The case-insensitive collision between a stored user's username and a
/// candidate name.
pub open spec fn lower_eq_name(u: User, name: Seq<char>) -> bool {
    crate::models::lower(u.username->Some_0@) == crate::models::lower(name)
}

/// When the one user holding `name` (case-insensitively) is `id` itself,
/// the name is free for `id`.
proof fn lemma_patch_username_free(s: Storage, id: i64, name: Seq<char>)
    requires
        s.wf(),
        has_username(s.users@, name),
        user_by_username(s.users@, name).id == id,
    ensures
        forall|k: int|
            #![trigger s.users@[k]]
            0 <= k < s.users@.len() ==> !(s.users@[k].id != id && s.users@[k].username is Some
                && lower_eq_name(s.users@[k], name)),
{
    let w = choose|w: int| 0 <= w < s.users@.len() && username_matches(s.users@[w], name);
    assert forall|k: int|
        #![trigger s.users@[k]]
        0 <= k < s.users@.len() implies !(s.users@[k].id != id && s.users@[k].username is Some
        && lower_eq_name(s.users@[k], name)) by {
        if s.users@[k].username is Some && lower_eq_name(s.users@[k], name) {
            assert(username_matches(s.users@[k], name));
            if k != w {
                // two distinct holders of the same name would break
                // case-insensitive uniqueness
                assert(crate::models::lower(s.users@[k].username->Some_0@) == crate::models::lower(
                    name,
                ));
                assert(crate::models::lower(s.users@[w].username->Some_0@) == crate::models::lower(
                    name,
                ));
                assert(false);
            }
            lemma_user_by_username_is(s.users@, name, w);
            assert(s.users@[k].id == id);
        }
    }
}

} // verus!
