//! Core of a session-credential service: signed-token issuance and
//! validation with claims and expiry, a persistent deny-list that turns
//! logout into a real revocation, a recurring sweep that bounds the
//! deny-list's growth, and a session-bound anti-forgery token protocol.

pub mod digits;
pub mod codec;
pub mod auth;
pub mod auth_middleware;
pub mod csrf;
pub mod deny_list;
pub mod handlers;
pub mod models;
