//! Stateless session authentication: signed session tokens that carry a
//! user's claims, and the two-tier access check (authenticated user,
//! administrator) that is made on them.
//!
//! - `claims`: the payload of a token and how it is issued.
//! - `token`: making and decoding tokens, signed with HMAC over SHA-256.
//! - `guard`: from the credentials of a request to an authenticated user,
//!   and from there to an administrator.
//! - `login`: checking a password against the stored record and issuing the
//!   token, as a cookie or in a JSON body; logging out.
//! - `handlers`: what the protected operations answer.
//! - `payload`, `json`, `base64url`, `text`, `clock`: how a token is written
//!   and read, and the time.

pub mod base64url;
pub mod claims;
pub mod clock;
pub mod guard;
pub mod handlers;
pub mod json;
pub mod login;
pub mod payload;
pub mod text;
pub mod token;
