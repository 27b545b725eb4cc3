//! Core of a lightweight messaging service: passwordless email OTP
//! authentication with bearer tokens, profile management, message routing
//! with implicit mutual "known" relationships, and per-identity event fan-out.
//!
//! The record store and OTP cache are modeled by the in-memory [`store::Storage`];
//! outside crates do the cryptography and the channel transport behind small
//! trusted wrappers.

pub mod api;
pub mod email;
pub mod events;
pub mod laws;
pub mod message;
pub mod models;
pub mod random;
pub mod store;
pub mod user;
