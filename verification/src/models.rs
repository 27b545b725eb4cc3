//! The two records that cross every component: a registered identity and a
//! delivered message.

use vstd::prelude::*;

verus! {

/// A registered identity. `id` is drawn from the store's single id space;
/// `email` is unique among all users; `username`, when set, is unique
/// case-insensitively.
#[derive(Debug, Clone)]
pub struct User {
    pub id: i64,
    pub email: String,
    pub username: Option<String>,
    pub first_name: String,
    pub last_name: Option<String>,
    pub created_at: u64,
}

/// A message, immutable once created. `id` is drawn from the same id space
/// as user ids.
#[derive(Debug, Clone)]
pub struct Message {
    pub id: i64,
    pub from_id: i64,
    pub chat_id: i64,
    pub text: Option<String>,
    pub created_at: u64,
}

/// Lower-cases one character, ASCII-style: the case-insensitivity applied to
/// usernames, which are themselves restricted to ASCII word characters.
pub open spec fn lower_char(c: char) -> char {
    if 'A' <= c && c <= 'Z' {
        (((c as u8) + 32) as u8) as char
    } else {
        c
    }
}

/// Lower-cases a character sequence, pointwise.
pub open spec fn lower(s: Seq<char>) -> Seq<char> {
    Seq::new(s.len(), |i: int| lower_char(s[i]))
}

/// Executable counterpart of [`lower_char`].
pub fn lower_char_exec(c: char) -> (r: char)
    ensures
        r == lower_char(c),
{
    if 'A' <= c && c <= 'Z' {
        ((c as u8) + 32) as char
    } else {
        c
    }
}

} // verus!
