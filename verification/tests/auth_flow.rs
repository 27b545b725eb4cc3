use messenger_core::email::ImplEmailService;
use messenger_core::store::Storage;
use messenger_core::user::{ImplUserService, PatchUserField, UserServiceError};

fn service() -> ImplUserService {
    ImplUserService::new(b"SECRET-REDACTED".to_vec())
}

fn patch(name: &str, value: Option<&str>) -> PatchUserField {
    PatchUserField { name: name.to_string(), value: value.map(|v| v.to_string()) }
}

#[test]
fn issue_otp_rejects_bad_email() {
    let svc = service();
    let mailer = ImplEmailService::new();
    let mut store = Storage::new();
    let r = svc.send_otp(&mut store, "", &mailer, 1000);
    assert!(matches!(r, Err(UserServiceError::InvalidEmail)));
    let r = svc.send_otp(&mut store, "no-at-sign", &mailer, 1000);
    assert!(matches!(r, Err(UserServiceError::InvalidEmail)));
}

#[test]
fn issue_otp_stores_code_and_returns_hash() {
    let svc = service();
    let mailer = ImplEmailService::new();
    let mut store = Storage::new();
    let hash = svc.send_otp(&mut store, "a@x.com", &mailer, 1000).unwrap();
    assert_eq!(hash.len(), 64);
    assert!(hash.chars().all(|c| c.is_ascii_hexdigit()));
    let (code, created_at) = store.get_otp("a@x.com", 1000).unwrap().unwrap();
    assert_eq!(code.len(), 6);
    assert!(code.chars().all(|c| c.is_ascii_digit()));
    assert_eq!(created_at, 1000);
    // the confirmation is a salted hash, not the code itself
    assert_ne!(hash, code);
}

#[test]
fn issue_otp_twice_blocked_until_ttl_elapses() {
    let svc = service();
    let mailer = ImplEmailService::new();
    let mut store = Storage::new();
    svc.send_otp(&mut store, "a@x.com", &mailer, 1000).unwrap();
    let again = svc.send_otp(&mut store, "a@x.com", &mailer, 1100);
    assert!(matches!(again, Err(UserServiceError::OTPNotSent)));
    let just_before = svc.send_otp(&mut store, "a@x.com", &mailer, 1299);
    assert!(matches!(just_before, Err(UserServiceError::OTPNotSent)));
    // the TTL has elapsed: a fresh OTP may be issued
    let after = svc.send_otp(&mut store, "a@x.com", &mailer, 1300);
    assert!(after.is_ok());
}

#[test]
fn verify_otp_is_single_use() {
    let svc = service();
    let mut store = Storage::new();
    store.store_otp("a@x.com", "048213", 1000).unwrap();
    let wrong = svc.verify_otp(&mut store, "a@x.com", "000000", 1010);
    assert!(matches!(wrong, Err(UserServiceError::InvalidOTP)));
    let token = svc.verify_otp(&mut store, "a@x.com", "048213", 1010).unwrap();
    assert!(!token.is_empty());
    // the OTP was deleted on the successful verify
    assert!(store.get_otp("a@x.com", 1010).unwrap().is_none());
    let again = svc.verify_otp(&mut store, "a@x.com", "048213", 1011);
    assert!(matches!(again, Err(UserServiceError::InvalidOTP)));
}

#[test]
fn verify_otp_rejects_expired_code() {
    let svc = service();
    let mut store = Storage::new();
    store.store_otp("a@x.com", "048213", 1000).unwrap();
    let r = svc.verify_otp(&mut store, "a@x.com", "048213", 1300);
    assert!(matches!(r, Err(UserServiceError::InvalidOTP)));
}

#[test]
fn minted_token_authenticates_without_profile_as_none() {
    let svc = service();
    let mut store = Storage::new();
    store.store_otp("a@x.com", "048213", 1000).unwrap();
    let token = svc.verify_otp(&mut store, "a@x.com", "048213", 1010).unwrap();
    // well-formed, unexpired, correctly signed: no error, but no profile yet
    let r = svc.authenticate(&store, &token, 1020).unwrap();
    assert!(r.is_none());
    let me = svc.authenticate_with_user(&store, &token, 1020);
    assert!(matches!(me, Err(UserServiceError::InvalidAuthentication)));
}

#[test]
fn minted_token_resolves_to_profile_once_created() {
    let svc = service();
    let mut store = Storage::new();
    store.store_otp("a@x.com", "048213", 1000).unwrap();
    let token = svc.verify_otp(&mut store, "a@x.com", "048213", 1010).unwrap();
    let created = svc.create_user(&mut store, &token, "Ann", Some("Ada"), 1020).unwrap();
    assert_eq!(created.email, "a@x.com");
    assert_eq!(created.first_name, "Ann");
    assert_eq!(created.last_name.as_deref(), Some("Ada"));
    let found = svc.authenticate(&store, &token, 1030).unwrap().unwrap();
    assert_eq!(found.id, created.id);
    assert_eq!(found.email, "a@x.com");
}

#[test]
fn authenticate_rejects_garbage_expired_and_foreign_tokens() {
    let svc = service();
    let mut store = Storage::new();
    store.store_otp("a@x.com", "048213", 1000).unwrap();
    let token = svc.verify_otp(&mut store, "a@x.com", "048213", 1010).unwrap();

    let garbage = svc.authenticate(&store, "not.a.token", 1020);
    assert!(matches!(garbage, Err(UserServiceError::InvalidAuthentication)));

    // expired exactly one hour after minting
    let expired = svc.authenticate(&store, &token, 1010 + 3600);
    assert!(matches!(expired, Err(UserServiceError::InvalidAuthentication)));

    // signed under another key
    let other = ImplUserService::new(b"another-key".to_vec());
    let foreign = other.authenticate(&store, &token, 1020);
    assert!(matches!(foreign, Err(UserServiceError::InvalidAuthentication)));
}

#[test]
fn create_user_twice_conflicts() {
    let svc = service();
    let mut store = Storage::new();
    store.store_otp("a@x.com", "048213", 1000).unwrap();
    let token = svc.verify_otp(&mut store, "a@x.com", "048213", 1010).unwrap();
    svc.create_user(&mut store, &token, "Ann", None, 1020).unwrap();
    let again = svc.create_user(&mut store, &token, "Ann", None, 1030);
    assert!(matches!(again, Err(UserServiceError::UserAlreadyExists)));
}

#[test]
fn create_user_rejects_bad_token() {
    let svc = service();
    let mut store = Storage::new();
    let r = svc.create_user(&mut store, "junk", "Ann", None, 1000);
    assert!(matches!(r, Err(UserServiceError::InvalidAuthentication)));
}

#[test]
fn username_validation_rules() {
    let svc = service();
    assert!(matches!(svc.check_username("ab"), Err(UserServiceError::InvalidUsername)));
    assert!(svc.check_username("valid_user1").is_ok());
    assert!(matches!(svc.check_username("bad name"), Err(UserServiceError::InvalidUsername)));
    assert!(matches!(svc.check_username(""), Err(UserServiceError::InvalidUsername)));
    assert!(matches!(
        svc.check_username("this_name_is_way_too_long_indeed"),
        Err(UserServiceError::InvalidUsername)
    ));
    assert!(svc.check_username("abc").is_ok());
    assert!(svc.check_username("a2345678901234567890").is_ok());
    // the accepted alphabet is ASCII letters, digits and underscore
    assert!(matches!(svc.check_username("h\u{e9}llo1"), Err(UserServiceError::InvalidUsername)));
}

fn token_for(svc: &ImplUserService, store: &mut Storage, email: &str, first: &str) -> String {
    store.store_otp(email, "111111", 1000).unwrap();
    let token = svc.verify_otp(store, email, "111111", 1010).unwrap();
    svc.create_user(store, &token, first, None, 1020).unwrap();
    token
}

#[test]
fn patch_me_applies_fields_in_order() {
    let svc = service();
    let mut store = Storage::new();
    let token = token_for(&svc, &mut store, "a@x.com", "Ann");
    let fields = vec![
        patch("first_name", Some("Anne")),
        patch("hair_color", Some("green")),  // unrecognized: ignored
        patch("first_name", Some("Anna")),   // later patch wins
        patch("last_name", Some("Lovelace")),
        patch("username", Some("valid_user1")),
    ];
    let updated = svc.patch_me(&mut store, &token, fields, 1030).unwrap();
    assert_eq!(updated.first_name, "Anna");
    assert_eq!(updated.last_name.as_deref(), Some("Lovelace"));
    assert_eq!(updated.username.as_deref(), Some("valid_user1"));
    assert_eq!(updated.email, "a@x.com");
    // the update is persisted
    let me = svc.authenticate_with_user(&store, &token, 1040).unwrap();
    assert_eq!(me.first_name, "Anna");
    assert_eq!(me.username.as_deref(), Some("valid_user1"));
}

#[test]
fn patch_me_rejects_invalid_username() {
    let svc = service();
    let mut store = Storage::new();
    let token = token_for(&svc, &mut store, "a@x.com", "Ann");
    let r = svc.patch_me(&mut store, &token, vec![patch("username", Some("ab"))], 1030);
    assert!(matches!(r, Err(UserServiceError::InvalidUsername)));
    let r = svc.patch_me(&mut store, &token, vec![patch("username", Some("bad name"))], 1030);
    assert!(matches!(r, Err(UserServiceError::InvalidUsername)));
}

#[test]
fn patch_me_rejects_username_taken_case_insensitively() {
    let svc = service();
    let mut store = Storage::new();
    let token_a = token_for(&svc, &mut store, "a@x.com", "Ann");
    store.store_otp("b@x.com", "222222", 2000).unwrap();
    let token_b = svc.verify_otp(&mut store, "b@x.com", "222222", 2010).unwrap();
    svc.create_user(&mut store, &token_b, "Bob", None, 2020).unwrap();

    svc.patch_me(&mut store, &token_a, vec![patch("username", Some("Casey"))], 2030).unwrap();
    let r = svc.patch_me(&mut store, &token_b, vec![patch("username", Some("casey"))], 2040);
    assert!(matches!(r, Err(UserServiceError::UsernameUsed)));
    // keeping one's own username is no conflict
    let own = svc.patch_me(&mut store, &token_a, vec![patch("first_name", Some("Anne"))], 2050);
    assert!(own.is_ok());
}

#[test]
fn patch_me_can_clear_last_name() {
    let svc = service();
    let mut store = Storage::new();
    let token = token_for(&svc, &mut store, "a@x.com", "Ann");
    svc.patch_me(&mut store, &token, vec![patch("last_name", Some("Lovelace"))], 1030).unwrap();
    let cleared = svc.patch_me(&mut store, &token, vec![patch("last_name", None)], 1040).unwrap();
    assert!(cleared.last_name.is_none());
}

#[test]
fn random_words_have_the_right_shape_and_vary() {
    let w1 = messenger_core::random::random_word(32);
    let w2 = messenger_core::random::random_word(32);
    assert_eq!(w1.len(), 32);
    assert!(w1.chars().all(|c| c.is_ascii_alphanumeric()));
    // two 32-character draws colliding is beyond unlikely
    assert_ne!(w1, w2);
    let code = messenger_core::random::generate_otp();
    assert_eq!(code.len(), 6);
    assert!(code.chars().all(|c| c.is_ascii_digit()));
}

struct RefusingMailer;

impl messenger_core::email::EmailService for RefusingMailer {
    fn send_otp(
        &self,
        _email: &str,
        _otp: &str,
    ) -> Result<(), messenger_core::email::EmailServiceError> {
        Err(messenger_core::email::EmailServiceError::Internal)
    }
}

#[test]
fn dispatch_failure_surfaces_after_the_otp_is_stored() {
    let svc = service();
    let mut store = Storage::new();
    let r = svc.send_otp(&mut store, "a@x.com", &RefusingMailer, 1000);
    assert!(matches!(r, Err(UserServiceError::Email(_))));
    // the code was stored before dispatch was attempted
    assert!(store.get_otp("a@x.com", 1000).unwrap().is_some());
}

#[test]
fn storage_error_when_id_space_exhausted() {
    let svc = service();
    let mut store = Storage::new();
    store.next_item_id = i64::MAX;
    store.store_otp("a@x.com", "048213", 1000).unwrap();
    let token = svc.verify_otp(&mut store, "a@x.com", "048213", 1010).unwrap();
    let r = svc.create_user(&mut store, &token, "Ann", None, 1020);
    assert!(matches!(
        r,
        Err(UserServiceError::Storage(messenger_core::store::StorageError::Internal))
    ));
}
