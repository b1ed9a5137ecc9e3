//! The request-facing adapters, framed as plain functions over header and
//! body values so they stay independent of any web framework: the auth guard
//! that resolves a bearer credential to validated claims, and the account
//! steps behind signup and login.

use vstd::prelude::*;
use vstd::slice::slice_subrange;
use vstd::string::StringSliceAdditionalSpecFns;
use vstd::utf8::encode_utf8;

use crate::claims::Claims;
use crate::claims::ClaimsV;
use crate::keys::JwtKeyPair;
use crate::password::hash_password;
use crate::password::is_phc_hash;
use crate::password::password_matches;
use crate::password::verify_password;
use crate::password::PasswordError;
use crate::session::contains_jti;
use crate::session::SessionStore;
use crate::session::SessionToken;
use crate::token::bytes_eq;
use crate::token::expected_outcome;
use crate::token::generate_jwt;
use crate::token::issued_claims;
use crate::token::token_bytes_of;
use crate::token::validate_bytes;
use crate::token::validate_spec;
use crate::token::IssuanceError;
use crate::token::JwtStatus;
use crate::token::StatusV;
use crate::token::TOKEN_VALIDITY_SECS;
use crate::user::User;

verus! {

/// The payload of a signup request.
#[derive(Clone, Debug)]
pub struct UserCredentials {
    pub name: String,
    pub email: String,
    pub password: String,
}

/// The payload of a login request.
#[derive(Clone, Debug)]
pub struct LoginCredentials {
    pub email: String,
    pub password: String,
}

/// Auth-guard rejection. The four reasons stay distinguishable: a missing
/// header, a header in the wrong scheme, a sound but expired token, and a
/// cryptographically or structurally rejected token.
#[derive(Clone, Copy, PartialEq, Eq, Structural, Debug)]
pub enum JwtError {
    MissingCredential,
    InvalidCredential,
    Expired,
    Invalid,
}

/// Login failure: the stored hash was unreadable, or issuance failed after a
/// correct password.
#[derive(Clone, Copy, PartialEq, Eq, Structural, Debug)]
pub enum LoginError {
    Password(PasswordError),
    Issuance(IssuanceError),
}

/// The bearer scheme prefix, `Bearer `, checked case-sensitively.
pub open spec fn bearer_prefix() -> Seq<u8> {
    seq![0x42u8, 0x65, 0x61, 0x72, 0x65, 0x72, 0x20]
}

/// `bearer_prefix` as a value.
fn bearer_vec() -> (r: Vec<u8>)
    ensures
        r@ == bearer_prefix(),
{
    let r = vec![0x42u8, 0x65, 0x61, 0x72, 0x65, 0x72, 0x20];
    proof {
        assert(r@ =~= bearer_prefix());
    }
    r
}

/// What the guard decides, as a function of the presented header value, the
/// verification key, and the time: no header is a missing credential, a
/// header without the bearer prefix an invalid one, and otherwise the token
/// after the prefix is validated.
pub open spec fn guard_spec(header: Option<Seq<u8>>, pk: Seq<u8>, now: u64) -> Result<
    ClaimsV,
    JwtError,
> {
    match header {
        None => Err(JwtError::MissingCredential),
        Some(h) => {
            if !(h.len() >= 7 && h.take(7) == bearer_prefix()) {
                Err(JwtError::InvalidCredential)
            } else {
                match validate_spec(h.skip(7), pk, now) {
                    StatusV::Valid(c) => Ok(c),
                    StatusV::Expired => Err(JwtError::Expired),
                    StatusV::Invalid => Err(JwtError::Invalid),
                }
            }
        },
    }
}

/// Extract the bearer credential from the `Authorization` header value and
/// resolve it to validated claims or a rejection. This is the only place
/// where request-shaped concerns touch the core; it adds no cryptography of
/// its own.
pub fn extract_and_validate(header: Option<&str>, keypair: &JwtKeyPair, now: u64) -> (r: Result<
    Claims,
    JwtError,
>)
    requires
        keypair.wf(),
    ensures
        ({
            let hv = match header {
                Some(h) => Some(h.spec_bytes()),
                None => None,
            };
            match r {
                Ok(c) => guard_spec(hv, keypair.pk(), now) == Ok::<ClaimsV, JwtError>(c@),
                Err(e) => guard_spec(hv, keypair.pk(), now) == Err::<ClaimsV, JwtError>(e),
            }
        }),
{
    match header {
        None => Err(JwtError::MissingCredential),
        Some(h) => {
            let hb = h.as_bytes();
            let n = hb.len();
            if n < 7 {
                return Err(JwtError::InvalidCredential);
            }
            let prefix = slice_subrange(hb, 0, 7);
            let bv = bearer_vec();
            if !bytes_eq(prefix, bv.as_slice()) {
                proof {
                    assert(prefix@ =~= h.spec_bytes().take(7));
                }
                return Err(JwtError::InvalidCredential);
            }
            proof {
                assert(prefix@ =~= h.spec_bytes().take(7));
            }
            let tok = slice_subrange(hb, 7, n);
            proof {
                assert(tok@ =~= h.spec_bytes().skip(7));
            }
            match validate_bytes(tok, keypair, now) {
                JwtStatus::Valid(c) => Ok(c),
                JwtStatus::Expired => Err(JwtError::Expired),
                JwtStatus::Invalid => Err(JwtError::Invalid),
            }
        },
    }
}

/// The account-creation step behind the signup route: hash the password and
/// assemble the user record, ready to persist. The record carries no
/// identifier yet and is never an administrator.
pub fn sign_up(credentials: &UserCredentials) -> (r: Result<User, PasswordError>)
    ensures
        r is Ok ==> ({
            let u = r->Ok_0;
            &&& u.name@ == credentials.name@
            &&& u.email@ == credentials.email@
            &&& u.id is None
            &&& !u.is_admin
            &&& is_phc_hash(u.password_hash@)
            &&& password_matches(u.password_hash@, credentials.password@)
        }),
        r is Err ==> r->Err_0 == PasswordError::HashingFailed,
{
    match hash_password(credentials.password.as_str()) {
        Ok(h) => Ok(
            User {
                id: None,
                name: credentials.name.clone(),
                email: credentials.email.clone(),
                password_hash: h,
                is_admin: false,
            },
        ),
        Err(e) => Err(e),
    }
}

/// The decision behind the login route, once the user record has been
/// fetched: check the password against the stored hash; only on a match
/// issue a token, persisting its session record first. `Ok(None)` is a wrong
/// password; nothing is persisted unless a token is returned.
pub fn login(
    user: &User,
    credentials: &LoginCredentials,
    keypair: &JwtKeyPair,
    store: &mut SessionStore,
    now: u64,
) -> (r: Result<Option<String>, LoginError>)
    requires
        old(store).wf(),
        keypair.wf(),
        user.wf(),
        user.id is Some,
        now + TOKEN_VALIDITY_SECS <= u64::MAX,
    ensures
        final(store).wf(),
        !(r is Ok && r->Ok_0 is Some) ==> final(store)@ == old(store)@,
        !is_phc_hash(user.password_hash@) <==> r == Err::<Option<String>, LoginError>(
            LoginError::Password(PasswordError::MalformedHash),
        ),
        r is Ok ==> (r->Ok_0 is None <==> !password_matches(
            user.password_hash@,
            credentials.password@,
        )),
        r is Ok && r->Ok_0 is Some ==> exists|jti: u128|
            {
                let c = #[trigger] issued_claims(encode_utf8(user.email@), now, jti);
                &&& !contains_jti(old(store)@, jti)
                &&& encode_utf8(r->Ok_0->Some_0@) == token_bytes_of(c, keypair.der())
                &&& forall|vnow: u64|
                    validate_spec(token_bytes_of(c, keypair.der()), keypair.pk(), vnow)
                        == expected_outcome(c, vnow)
                &&& final(store)@ == old(store)@.push(
                    SessionToken {
                        id: Some(old(store)@.len() as u64),
                        jti,
                        user: user.id->Some_0,
                        issued_at: now,
                        expires_at: (now + TOKEN_VALIDITY_SECS) as u64,
                        revoked: false,
                    },
                )
            },
{
    match verify_password(user.password_hash.as_str(), credentials.password.as_str()) {
        Err(e) => Err(LoginError::Password(e)),
        Ok(false) => Ok(None),
        Ok(true) => match generate_jwt(user, keypair, store, now) {
            Ok(token) => Ok(Some(token)),
            Err(e) => Err(LoginError::Issuance(e)),
        },
    }
}

} // verus!
