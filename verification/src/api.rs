//! The request and response shapes of the service's surface. The wire
//! plumbing lives outside the core; these are the plain values it hands in
//! and out.

use vstd::prelude::*;

use crate::user::PatchUserField;

verus! {

/// The error body every failing endpoint answers with.
#[derive(Debug, Clone)]
pub struct Error {
    pub message: String,
}

/// Starts the OTP flow for an email address.
#[derive(Debug, Clone)]
pub struct AuthenticateRequest {
    pub email: String,
}

/// The confirmation hash handed back after an OTP was issued.
#[derive(Debug, Clone)]
pub struct AuthenticateResponse {
    pub otp_hash: String,
}

/// Exchanges an email and its OTP code for a bearer token.
#[derive(Debug, Clone)]
pub struct TokenRequest {
    pub email: String,
    pub otp: String,
}

/// The minted bearer token, and whether a profile already exists for its
/// subject.
#[derive(Debug, Clone)]
pub struct TokenResponse {
    pub token: String,
    pub has_account: bool,
}

/// Creates the authenticated subject's profile.
#[derive(Debug, Clone)]
pub struct CreateUserRequest {
    pub first_name: String,
    pub last_name: Option<String>,
}

/// Patches the authenticated subject's profile, field by field, in order.
#[derive(Debug, Clone)]
pub struct PatchMeRequest {
    pub fields: Vec<PatchUserField>,
}

/// Sends a message to an explicit chat id or to a username; the id wins
/// when both are given.
#[derive(Debug, Clone)]
pub struct SendMessageRequest {
    pub text: String,
    pub chat_id: Option<i64>,
    pub username: Option<String>,
}

} // verus!
