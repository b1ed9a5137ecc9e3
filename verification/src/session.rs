//! Session records and the session store: one durable record per issued
//! token, keyed by a unique token identifier, revocable but never deleted.

use vstd::prelude::*;

use crate::user::User;

verus! {

/// A persistence-layer failure surfaced by the session store.
#[derive(Clone, Copy, PartialEq, Eq, Structural, Debug)]
pub enum PersistenceError {
    /// Inserting a record whose `jti` is already present.
    UniqueIndexViolation,
    /// Updating a record under an identifier that was never assigned.
    RecordNotFound,
}

/// One issued token's durable record. Immutable after creation except for the
/// one-way `revoked` flag.
#[derive(Clone, Copy, PartialEq, Eq, Structural, Debug)]
pub struct SessionToken {
    /// Store-assigned identifier; `None` until the record is saved.
    pub id: Option<u64>,
    /// The token identifier, unique across all records.
    pub jti: u128,
    /// Reference to the owning user entity.
    pub user: u64,
    /// Seconds since the epoch at issuance.
    pub issued_at: u64,
    /// Seconds since the epoch at expiry; always after `issued_at`.
    pub expires_at: u64,
    /// One-way flag: `false` at creation, may only ever become `true`.
    pub revoked: bool,
}

impl SessionToken {
    /// Build the (not yet saved) record for a token issued to `user`.
    pub fn new(jti: u128, user: &User, issued_at: u64, expires_at: u64) -> (r: SessionToken)
        requires
            user.id is Some,
            issued_at < expires_at,
        ensures
            r == (SessionToken {
                id: None,
                jti,
                user: user.id->Some_0,
                issued_at,
                expires_at,
                revoked: false,
            }),
    {
        let user_id: u64 = match user.id {
            Some(v) => v,
            None => 0,
        };
        SessionToken { id: None, jti, user: user_id, issued_at, expires_at, revoked: false }
    }
}

/// Whether some record in `records` carries the token identifier `jti`.
pub open spec fn contains_jti(records: Seq<SessionToken>, jti: u128) -> bool {
    exists|i: int| 0 <= i < records.len() && #[trigger] records[i].jti == jti
}

/// No two records share a token identifier.
pub open spec fn jti_unique(records: Seq<SessionToken>) -> bool {
    forall|i: int, j: int|
        0 <= i < j < records.len() ==> #[trigger] records[i].jti != #[trigger] records[j].jti
}

/// The session store: an append-mostly log of issuances. Records are created
/// once, looked up by token identifier, and revoked in place; nothing is ever
/// deleted. The store assigns each record its position as its identifier and
/// enforces uniqueness of `jti` on insertion.
pub struct SessionStore {
    records: Vec<SessionToken>,
}

impl View for SessionStore {
    type V = Seq<SessionToken>;

    closed spec fn view(&self) -> Seq<SessionToken> {
        self.records@
    }
}

impl SessionStore {
    /// The store invariant: identifiers are the record positions, token
    /// identifiers are unique, and every validity window is non-empty.
    pub closed spec fn wf(&self) -> bool {
        &&& jti_unique(self.records@)
        &&& forall|i: int|
            0 <= i < self.records@.len() ==> #[trigger] self.records@[i].id == Some(i as u64)
        &&& forall|i: int|
            0 <= i < self.records@.len() ==> #[trigger] self.records@[i].issued_at
                < self.records@[i].expires_at
    }

    /// An empty store.
    pub fn new() -> (r: SessionStore)
        ensures
            r.wf(),
            r@ =~= Seq::<SessionToken>::empty(),
    {
        SessionStore { records: Vec::new() }
    }

    /// The store invariant keeps token identifiers unique: no two stored
    /// records ever collide on `jti`.
    pub proof fn lemma_wf_token_ids_unique(&self)
        requires
            self.wf(),
        ensures
            jti_unique(self@),
    {
    }

    /// Insert a fresh record: assign it an identifier and append it, unless
    /// its token identifier is already present, which is a uniqueness
    /// conflict and changes nothing.
    pub fn create(&mut self, record: SessionToken) -> (r: Result<
        SessionToken,
        PersistenceError,
    >)
        requires
            old(self).wf(),
            record.id is None,
            record.issued_at < record.expires_at,
            !record.revoked,
        ensures
            final(self).wf(),
            r is Ok <==> !contains_jti(old(self)@, record.jti),
            r is Err ==> final(self)@ == old(self)@ && r->Err_0
                == PersistenceError::UniqueIndexViolation,
            r is Ok ==> r->Ok_0 == (SessionToken {
                id: Some(old(self)@.len() as u64),
                ..record
            }) && final(self)@ == old(self)@.push(r->Ok_0),
    {
        if self.contains_token_id(record.jti) {
            Err(PersistenceError::UniqueIndexViolation)
        } else {
            let n = self.records.len();
            let stored = SessionToken { id: Some(n as u64), ..record };
            self.records.push(stored);
            Ok(stored)
        }
    }

    /// Whether a record with token identifier `jti` is present.
    pub fn contains_token_id(&self, jti: u128) -> (r: bool)
        ensures
            r == contains_jti(self@, jti),
    {
        let n = self.records.len();
        let mut i: usize = 0;
        let mut found = false;
        while i < n
            invariant
                n == self.records@.len(),
                0 <= i <= n,
                found == contains_jti(self@.take(i as int), jti),
            decreases n - i,
        {
            if self.records[i].jti == jti {
                found = true;
            }
            proof {
                let s0 = self@.take(i as int);
                let s1 = self@.take(i + 1);
                assert forall|k: int| 0 <= k < i + 1 implies #[trigger] s1[k] == self@[k] by {}
                if self@[i as int].jti == jti {
                    assert(s1[i as int].jti == jti);
                    assert(contains_jti(s1, jti));
                } else if found {
                    let w = choose|k: int| 0 <= k < s0.len() && #[trigger] s0[k].jti == jti;
                    assert(s0[w] == self@[w]);
                    assert(s1[w].jti == jti);
                    assert(contains_jti(s1, jti));
                } else {
                    assert forall|k: int| 0 <= k < i + 1 implies #[trigger] s1[k].jti != jti by {
                        if k < i {
                            assert(s0[k] == self@[k]);
                            assert(s0[k].jti != jti);
                        }
                    }
                }
            }
            i += 1;
        }
        proof {
            assert(self@.take(n as int) =~= self@);
        }
        found
    }

    /// Look a record up by its token identifier.
    pub fn find_by_token_id(&self, jti: u128) -> (r: Option<SessionToken>)
        requires
            self.wf(),
        ensures
            r is Some <==> contains_jti(self@, jti),
            r is Some ==> r->Some_0.jti == jti && self@.contains(r->Some_0),
    {
        let n = self.records.len();
        let mut i: usize = 0;
        while i < n
            invariant
                n == self.records@.len(),
                0 <= i <= n,
                forall|k: int| 0 <= k < i ==> #[trigger] self.records@[k].jti != jti,
            decreases n - i,
        {
            if self.records[i].jti == jti {
                return Some(self.records[i]);
            }
            i += 1;
        }
        None
    }

    /// Set the `revoked` flag of the record under `id`. Idempotent: revoking
    /// an already-revoked record succeeds and changes nothing further. Fails
    /// only when no record carries `id`. No other field is ever updated.
    pub fn revoke(&mut self, id: u64) -> (r: Result<SessionToken, PersistenceError>)
        requires
            old(self).wf(),
        ensures
            final(self).wf(),
            r is Ok <==> id < old(self)@.len(),
            r is Err ==> final(self)@ == old(self)@ && r->Err_0
                == PersistenceError::RecordNotFound,
            r is Ok ==> r->Ok_0 == (SessionToken { revoked: true, ..old(self)@[id as int] })
                && final(self)@ == old(self)@.update(id as int, r->Ok_0),
            forall|i: int|
                0 <= i < old(self)@.len() && #[trigger] old(self)@[i].revoked
                    ==> final(self)@[i].revoked,
    {
        if id < self.records.len() as u64 {
            let idx = id as usize;
            let mut rec = self.records[idx];
            rec.revoked = true;
            self.records[idx] = rec;
            Ok(rec)
        } else {
            Err(PersistenceError::RecordNotFound)
        }
    }

    /// The number of records ever created.
    pub fn len(&self) -> (r: usize)
        ensures
            r == self@.len(),
    {
        self.records.len()
    }
}

} // verus!
