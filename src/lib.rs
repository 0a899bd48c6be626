//! Authentication core of a session-protected product API: password
//! hashing, signed identity tokens, CSRF pair checks and the decision chain
//! that admits or rejects a request.
pub mod claims_json;
pub mod csrf_guard;
pub mod errors;
pub mod hasher;
pub mod jwt;
pub mod session;
pub mod user;
