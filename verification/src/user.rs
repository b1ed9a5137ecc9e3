//! The user entity as the authentication core sees it: an identity (email),
//! an opaque persistence reference, and a password digest.

use vstd::prelude::*;
use vstd::utf8::encode_utf8;

use crate::claims::json_plain;

verus! {

/// A stored user account. `id` is the persistence-layer reference assigned on
/// first save; tokens record it as their owner.
#[derive(Clone, Debug)]
pub struct User {
    pub id: Option<u64>,
    pub name: String,
    pub email: String,
    pub password_hash: String,
    pub is_admin: bool,
}

impl User {
    /// A well-formed account has an identity that can stand verbatim inside a
    /// JSON string: printable ASCII without quotes or backslashes.
    pub open spec fn wf(&self) -> bool {
        json_plain(encode_utf8(self.email@))
    }
}

} // verus!
