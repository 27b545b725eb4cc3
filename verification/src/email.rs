//! Outbound email dispatch port. The core only needs to hand an OTP code to
//! a dispatcher and learn whether it was accepted.

use vstd::prelude::*;

verus! {

/// Failure of the email dispatcher.
#[derive(Debug, Clone, Copy)]
pub enum EmailServiceError {
    Internal,
}

/// The dispatch port: implementations deliver an OTP code to an address.
/// Nothing is promised of the outcome; callers handle both results.
pub trait EmailService {
    fn send_otp(&self, email: &str, otp: &str) -> Result<(), EmailServiceError>;
}

/// The production dispatcher. Delivery details live outside the core; this
/// adapter accepts every request.
pub struct ImplEmailService {}

impl ImplEmailService {
    pub fn new() -> (r: Self) {
        Self {  }
    }
}

impl EmailService for ImplEmailService {
    fn send_otp(&self, email: &str, otp: &str) -> Result<(), EmailServiceError> {
        Ok(())
    }
}

} // verus!
