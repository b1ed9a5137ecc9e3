//! Token-based authentication core: signing-key management, session records,
//! token issuance and validation, and bearer-credential extraction.

pub mod b64;
pub mod claims;
pub mod config;
pub mod keys;
pub mod numfmt;
pub mod password;
pub mod routes;
pub mod session;
pub mod token;
pub mod user;
