//! Process configuration and the state shared across request handlers.

use vstd::prelude::*;

use crate::keys::JwtKeyPair;
use crate::session::SessionStore;
use crate::session::SessionToken;

verus! {

/// Credentials for the persistence service, read from the environment by the
/// host program.
#[derive(Clone, Debug)]
pub struct Credentials {
    pub username: String,
    pub password: String,
    pub namespace: String,
    pub database: String,
}

/// Startup configuration: where the persistence service lives, how to sign
/// in to it, and where the signing key is kept.
#[derive(Clone, Debug)]
pub struct AppConfig {
    pub surreal_hostname: String,
    pub credentials: Credentials,
    pub jwt_key_path: String,
}

/// The state shared across request handlers: the session store and the
/// process-wide signing keys. The keys are loaded once at startup and never
/// change afterwards; the store is the only mutable part.
pub struct AppState {
    pub store: SessionStore,
    pub jwt_key_pair: JwtKeyPair,
}

impl AppState {
    /// Both halves of the state are sound.
    pub open spec fn wf(&self) -> bool {
        self.store.wf() && self.jwt_key_pair.wf()
    }

    /// Assemble the shared state around freshly loaded signing keys, with an
    /// empty session store.
    pub fn new(jwt_key_pair: JwtKeyPair) -> (r: AppState)
        requires
            jwt_key_pair.wf(),
        ensures
            r.wf(),
            r.store@ =~= Seq::<SessionToken>::empty(),
            r.jwt_key_pair == jwt_key_pair,
    {
        AppState { store: SessionStore::new(), jwt_key_pair }
    }
}

} // verus!
