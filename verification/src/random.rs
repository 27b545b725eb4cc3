//! Random values: the 6-digit OTP code, random identifier words, and the
//! salted confirmation hash handed back by OTP issuance.

use vstd::prelude::*;
use vstd::string::*;

verus! {

/// A decimal digit character.
pub open spec fn is_digit_char(c: char) -> bool {
    '0' <= c && c <= '9'
}

/// The characters random words are drawn from: ASCII letters and digits.
pub open spec fn is_word_char(c: char) -> bool {
    ('a' <= c && c <= 'z') || ('A' <= c && c <= 'Z') || is_digit_char(c)
}

/// A 6-digit OTP code, leading zeros allowed.
pub open spec fn is_otp_code(s: Seq<char>) -> bool {
    s.len() == 6 && forall|i: int| 0 <= i < s.len() ==> is_digit_char(#[trigger] s[i])
}

/// The lowercase hex character for a value below 16.
pub open spec fn hex_digit(d: u8) -> char
    recommends
        d < 16,
{
    if d < 10 {
        ((d + 48) as u8) as char
    } else {
        ((d + 87) as u8) as char
    }
}

/// Lowercase hex encoding of a byte string, high nibble first.
pub open spec fn hex_of(bytes: Seq<u8>) -> Seq<char>
    decreases bytes.len(),
{
    if bytes.len() == 0 {
        Seq::<char>::empty()
    } else {
        hex_of(bytes.drop_last()) + seq![
            hex_digit(bytes.last() / 16),
            hex_digit(bytes.last() % 16),
        ]
    }
}

pub proof fn lemma_hex_of_len(bytes: Seq<u8>)
    ensures
        hex_of(bytes).len() == 2 * bytes.len(),
    decreases bytes.len(),
{
    if bytes.len() > 0 {
        lemma_hex_of_len(bytes.drop_last());
    }
}

/// What the SHA-256 digest of a byte string is; a function of the input
/// alone.
pub uninterp spec fn sha256_of(bytes: Seq<u8>) -> Seq<u8>;

/// Relies on rand's `random_range`: a uniform draw from `0..n`, which panics
/// only on an empty range, excluded here. (The thread RNG itself can abort
/// if the operating system's entropy source fails at first seeding — an
/// environmental failure of the same kind as running out of memory.)
#[verifier::external_body]
fn random_index(n: usize) -> (r: usize)
    requires
        n >= 1,
    ensures
        r < n,
{
    rand::RngExt::random_range(&mut rand::rng(), 0..n)
}

/// Relies on `String::from_utf8`: ASCII bytes are valid UTF-8 and decode to
/// the characters with the same code points, so the call cannot panic here.
#[verifier::external_body]
pub(crate) fn string_from_ascii(bytes: Vec<u8>) -> (r: String)
    requires
        forall|i: int| 0 <= i < bytes@.len() ==> #[trigger] bytes@[i] < 128,
    ensures
        r@.len() == bytes@.len(),
        forall|i: int| 0 <= i < bytes@.len() ==> #[trigger] r@[i] == bytes@[i] as char,
{
    String::from_utf8(bytes).unwrap()
}

/// Relies on sha2's SHA-256: a 32-byte digest of the input bytes.
#[verifier::external_body]
fn sha256_bytes(data: &[u8]) -> (r: Vec<u8>)
    ensures
        r@ == sha256_of(data@),
        r@.len() == 32,
{
    let mut hasher = <sha2::Sha256 as sha2::Digest>::new();
    sha2::Digest::update(&mut hasher, data);
    sha2::Digest::finalize(hasher).to_vec()
}

/// Relies on hex::encode: two lowercase hex digits per input byte, high
/// nibble first.
#[verifier::external_body]
fn hex_encode(data: &[u8]) -> (r: String)
    ensures
        r@ == hex_of(data@),
{
    hex::encode(data)
}

/// Generates a 6-digit numeric OTP code, each digit drawn uniformly, leading
/// zeros allowed.
pub fn generate_otp() -> (r: String)
    ensures
        is_otp_code(r@),
{
    let mut bytes: Vec<u8> = Vec::new();
    let mut i: usize = 0;
    while i < 6
        invariant
            i <= 6,
            bytes@.len() == i,
            forall|j: int| 0 <= j < i ==> 48 <= #[trigger] bytes@[j] <= 57,
        decreases 6 - i,
    {
        let d = random_index(10);
        bytes.push(48 + (d as u8));
        i += 1;
    }
    let r = string_from_ascii(bytes);
    proof {
        assert forall|j: int| 0 <= j < r@.len() implies is_digit_char(#[trigger] r@[j]) by {}
    }
    r
}

/// Generates a random word of `len` ASCII letters and digits.
pub fn random_word(len: usize) -> (r: String)
    ensures
        r@.len() == len,
        forall|i: int| 0 <= i < r@.len() ==> is_word_char(#[trigger] r@[i]),
{
    let mut bytes: Vec<u8> = Vec::new();
    let mut i: usize = 0;
    while i < len
        invariant
            i <= len,
            bytes@.len() == i,
            forall|j: int|
                0 <= j < i ==> ((97 <= #[trigger] bytes@[j] <= 122) || (65 <= bytes@[j] <= 90) || (
                48 <= bytes@[j] <= 57)),
        decreases len - i,
    {
        let d = random_index(62);
        let b: u8 = if d < 26 {
            97 + (d as u8)
        } else if d < 52 {
            65 + ((d - 26) as u8)
        } else {
            48 + ((d - 52) as u8)
        };
        bytes.push(b);
        i += 1;
    }
    let r = string_from_ascii(bytes);
    proof {
        assert forall|j: int| 0 <= j < r@.len() implies is_word_char(#[trigger] r@[j]) by {}
    }
    r
}

/// Hashes `value` together with a fresh random 16-byte salt that is not
/// returned; the result is 64 lowercase hex characters and cannot be used to
/// re-derive or verify `value`.
pub fn random_hash(value: &str) -> (r: String)
    ensures
        r@.len() == 64,
        exists|salt: Seq<u8>|
            salt.len() == 16 && r@ == hex_of(sha256_of(#[trigger] (salt + value.spec_bytes()))),
{
    let salt = random_word(16);
    let mut bytes = salt.as_str().as_bytes_vec();
    let mut value_bytes = value.as_bytes_vec();
    proof {
        assert(vstd::utf8::is_ascii_chars(salt@));
        vstd::utf8::is_ascii_chars_encode_utf8(salt@);
        assert(bytes@.len() == 16);
    }
    bytes.append(&mut value_bytes);
    let digest = sha256_bytes(bytes.as_slice());
    let r = hex_encode(digest.as_slice());
    proof {
        lemma_hex_of_len(digest@);
        let saltb = vstd::utf8::encode_utf8(salt@);
        assert(bytes@ == saltb + value.spec_bytes());
        assert(r@ == hex_of(sha256_of(saltb + value.spec_bytes())));
    }
    r
}

} // verus!
