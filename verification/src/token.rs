//! Token issuance and validation. A token is three dot-separated base64url
//! segments: a fixed header, the claims payload, and an Ed25519 signature
//! over the first two segments. Issuing persists a session record before the
//! token is signed and handed out; validation is a pure function of the token
//! bytes, the public key, and the validation time.

use vstd::prelude::*;
use vstd::slice::slice_subrange;
use vstd::string::StringSliceAdditionalSpecFns;
use vstd::utf8::encode_utf8;

use crate::b64::b64u_decode;
use crate::b64::b64u_decode_spec;
use crate::b64::b64u_encode;
use crate::b64::b64u_of;
use crate::b64::is_b64_byte;
use crate::b64::lemma_b64u_alphabet;
use crate::b64::lemma_decode_of_encoding;
use crate::claims::claims_json;
use crate::claims::lemma_parse_of_json;
use crate::claims::parse_claims;
use crate::claims::parse_claims_spec;
use crate::claims::serialize_claims;
use crate::claims::string_from_ascii;
use crate::claims::Claims;
use crate::claims::ClaimsV;
use crate::keys::public_key_of;
use crate::keys::sig_of;
use crate::keys::sig_verifies;
use crate::keys::sign_with;
use crate::keys::verify_signature;
use crate::keys::JwtKeyPair;
use crate::session::contains_jti;
use crate::session::PersistenceError;
use crate::session::SessionStore;
use crate::session::SessionToken;
use crate::user::User;

verus! {

/// How long an issued token stays valid, in seconds: ten days. A policy
/// constant, not part of the wire protocol.
pub const TOKEN_VALIDITY_SECS: u64 = 864000;

/// Issuance failure: the token is only handed out once its session record is
/// durable, so a persistence failure fails the whole issuance.
#[derive(Clone, Copy, PartialEq, Eq, Structural, Debug)]
pub enum IssuanceError {
    Persistence(PersistenceError),
}

/// The validation outcome, as a value: the claims of a valid token, or the
/// recoverable expired state, or the final invalid state.
pub enum StatusV {
    Valid(ClaimsV),
    Expired,
    Invalid,
}

/// The tri-state validation outcome. `Expired` is a recoverable, user-facing
/// condition distinct from `Invalid`, which is final for the call.
#[derive(Debug)]
pub enum JwtStatus {
    Valid(Claims),
    Expired,
    Invalid,
}

impl View for JwtStatus {
    type V = StatusV;

    open spec fn view(&self) -> StatusV {
        match self {
            JwtStatus::Valid(c) => StatusV::Valid(c@),
            JwtStatus::Expired => StatusV::Expired,
            JwtStatus::Invalid => StatusV::Invalid,
        }
    }
}

/// The issuer written into every token: `hackerwear-api-server`.
pub open spec fn iss_bytes() -> Seq<u8> {
    seq![
        0x68u8,
        0x61,
        0x63,
        0x6b,
        0x65,
        0x72,
        0x77,
        0x65,
        0x61,
        0x72,
        0x2d,
        0x61,
        0x70,
        0x69,
        0x2d,
        0x73,
        0x65,
        0x72,
        0x76,
        0x65,
        0x72,
    ]
}

/// The audience expected of every token: `hackerwear-web`.
pub open spec fn aud_bytes() -> Seq<u8> {
    seq![0x68u8, 0x61, 0x63, 0x6b, 0x65, 0x72, 0x77, 0x65, 0x61, 0x72, 0x2d, 0x77, 0x65, 0x62]
}

/// The fixed token header: `{"typ":"JWT","alg":"EdDSA"}`.
pub open spec fn header_bytes() -> Seq<u8> {
    seq![
        0x7bu8,
        0x22,
        0x74,
        0x79,
        0x70,
        0x22,
        0x3a,
        0x22,
        0x4a,
        0x57,
        0x54,
        0x22,
        0x2c,
        0x22,
        0x61,
        0x6c,
        0x67,
        0x22,
        0x3a,
        0x22,
        0x45,
        0x64,
        0x44,
        0x53,
        0x41,
        0x22,
        0x7d,
    ]
}

/// The bytes a signature covers: encoded header, dot, encoded payload.
pub open spec fn signing_input_of(c: ClaimsV) -> Seq<u8> {
    b64u_of(header_bytes()) + seq![0x2eu8] + b64u_of(claims_json(c))
}

/// The complete token for claims `c` signed with the key in `der`.
pub open spec fn token_bytes_of(c: ClaimsV, der: Seq<u8>) -> Seq<u8> {
    signing_input_of(c) + seq![0x2eu8] + b64u_of(sig_of(der, signing_input_of(c)))
}

/// The claims a token issued to `sub` at time `now` carries.
pub open spec fn issued_claims(sub: Seq<u8>, now: u64, jti: u128) -> ClaimsV {
    ClaimsV {
        iss: iss_bytes(),
        sub,
        aud: aud_bytes(),
        exp: (now + TOKEN_VALIDITY_SECS) as u64,
        iat: now,
        jti,
    }
}

/// The first position of `b` in `s`.
pub open spec fn find_byte(s: Seq<u8>, b: u8) -> Option<int>
    decreases s.len(),
{
    if s.len() == 0 {
        None
    } else if s[0] == b {
        Some(0)
    } else {
        match find_byte(s.skip(1), b) {
            None => None,
            Some(i) => Some(i + 1),
        }
    }
}

/// Split a token into its three segments at its two dots; anything with
/// fewer or more dots has no token structure.
pub open spec fn split3_spec(t: Seq<u8>) -> Option<(Seq<u8>, Seq<u8>, Seq<u8>)> {
    match find_byte(t, 0x2e) {
        None => None,
        Some(i) => match find_byte(t.skip(i + 1), 0x2e) {
            None => None,
            Some(j) => {
                let g = t.skip(i + 1).skip(j + 1);
                if find_byte(g, 0x2e) is Some {
                    None
                } else {
                    Some((t.take(i), t.skip(i + 1).take(j), g))
                }
            },
        },
    }
}

/// What a validated claims payload yields: wrong audience is invalid, a
/// passed expiry is expired (never invalid), anything else is valid.
pub open spec fn expected_outcome(c: ClaimsV, now: u64) -> StatusV {
    if c.aud != aud_bytes() {
        StatusV::Invalid
    } else if c.exp <= now {
        StatusV::Expired
    } else {
        StatusV::Valid(c)
    }
}

/// The whole validation pass as a function: split, check the header, decode,
/// check the signature over the first two segments, parse the claims, then
/// judge audience and expiry. Each call is an independent, deterministic
/// pass; validating twice yields the same outcome.
pub open spec fn validate_spec(t: Seq<u8>, pk: Seq<u8>, now: u64) -> StatusV {
    match split3_spec(t) {
        None => StatusV::Invalid,
        Some(parts) => {
            if parts.0 != b64u_of(header_bytes()) {
                StatusV::Invalid
            } else {
                match (b64u_decode_spec(parts.1), b64u_decode_spec(parts.2)) {
                    (Some(pb), Some(sig)) => {
                        if !sig_verifies(pk, parts.0 + seq![0x2eu8] + parts.1, sig) {
                            StatusV::Invalid
                        } else {
                            match parse_claims_spec(pb) {
                                None => StatusV::Invalid,
                                Some(c) => expected_outcome(c, now),
                            }
                        }
                    },
                    _ => StatusV::Invalid,
                }
            }
        },
    }
}

/// No byte of `s` is a dot.
pub open spec fn no_dot(s: Seq<u8>) -> bool {
    forall|i: int| 0 <= i < s.len() ==> #[trigger] s[i] != 0x2e
}

/// A string without the byte has no first position of it.
proof fn lemma_find_byte_none(s: Seq<u8>, b: u8)
    requires
        forall|i: int| 0 <= i < s.len() ==> #[trigger] s[i] != b,
    ensures
        find_byte(s, b) is None,
    decreases s.len(),
{
    if s.len() > 0 {
        assert forall|i: int| 0 <= i < s.skip(1).len() implies #[trigger] s.skip(1)[i] != b by {
            assert(s.skip(1)[i] == s[i + 1]);
        }
        lemma_find_byte_none(s.skip(1), b);
    }
}

/// The first occurrence is where the byte first stands.
proof fn lemma_find_byte_exact(s: Seq<u8>, b: u8, m: int)
    requires
        0 <= m < s.len(),
        s[m] == b,
        forall|i: int| 0 <= i < m ==> #[trigger] s[i] != b,
    ensures
        find_byte(s, b) == Some(m),
    decreases m,
{
    if m == 0 {
    } else {
        assert forall|i: int| 0 <= i < m - 1 implies #[trigger] s.skip(1)[i] != b by {
            assert(s.skip(1)[i] == s[i + 1]);
        }
        assert(s.skip(1)[m - 1] == s[m]);
        lemma_find_byte_exact(s.skip(1), b, m - 1);
    }
}

/// Three dot-free segments joined by dots split back into themselves.
proof fn lemma_split3_of_parts(h: Seq<u8>, p: Seq<u8>, g: Seq<u8>)
    requires
        no_dot(h),
        no_dot(p),
        no_dot(g),
    ensures
        split3_spec(h + seq![0x2eu8] + p + seq![0x2eu8] + g) == Some((h, p, g)),
{
    let t = h + seq![0x2eu8] + p + seq![0x2eu8] + g;
    assert(t[h.len() as int] == 0x2e);
    assert forall|i: int| 0 <= i < h.len() implies #[trigger] t[i] != 0x2e by {
        assert(t[i] == h[i]);
    }
    lemma_find_byte_exact(t, 0x2e, h.len() as int);
    let t2 = t.skip(h.len() as int + 1);
    assert(t2 =~= p + seq![0x2eu8] + g);
    assert(t2[p.len() as int] == 0x2e);
    assert forall|i: int| 0 <= i < p.len() implies #[trigger] t2[i] != 0x2e by {
        assert(t2[i] == p[i]);
    }
    lemma_find_byte_exact(t2, 0x2e, p.len() as int);
    let t3 = t2.skip(p.len() as int + 1);
    assert(t3 =~= g);
    lemma_find_byte_none(g, 0x2e);
    assert(t.take(h.len() as int) =~= h);
    assert(t2.take(p.len() as int) =~= p);
}

/// The base64url alphabet contains no dot and stays within ASCII.
proof fn lemma_b64_no_dot(b: Seq<u8>)
    ensures
        no_dot(b64u_of(b)),
        forall|i: int| 0 <= i < b64u_of(b).len() ==> #[trigger] b64u_of(b)[i] < 0x80,
{
    lemma_b64u_alphabet(b);
    assert forall|i: int| 0 <= i < b64u_of(b).len() implies #[trigger] b64u_of(b)[i] != 0x2e
        && b64u_of(b)[i] < 0x80 by {
        assert(is_b64_byte(b64u_of(b)[i]));
    }
}

/// The structural half of validating a canonical token: it splits into its
/// three segments, the first is the encoded header, the other two decode to
/// the payload and the signature, the signature covers the first two
/// segments, and the payload parses back to the claims.
proof fn lemma_token_shape(c: ClaimsV, der: Seq<u8>)
    requires
        c.wf(),
    ensures
        ({
            let hseg = b64u_of(header_bytes());
            let pseg = b64u_of(claims_json(c));
            let gseg = b64u_of(sig_of(der, signing_input_of(c)));
            &&& split3_spec(token_bytes_of(c, der)) == Some((hseg, pseg, gseg))
            &&& b64u_decode_spec(pseg) == Some(claims_json(c))
            &&& b64u_decode_spec(gseg) == Some(sig_of(der, signing_input_of(c)))
            &&& hseg + seq![0x2eu8] + pseg == signing_input_of(c)
            &&& parse_claims_spec(claims_json(c)) == Some(c)
        }),
{
    let hseg = b64u_of(header_bytes());
    let pseg = b64u_of(claims_json(c));
    let gseg = b64u_of(sig_of(der, signing_input_of(c)));
    lemma_b64_no_dot(header_bytes());
    lemma_b64_no_dot(claims_json(c));
    lemma_b64_no_dot(sig_of(der, signing_input_of(c)));
    assert(token_bytes_of(c, der) =~= hseg + seq![0x2eu8] + pseg + seq![0x2eu8] + gseg);
    lemma_split3_of_parts(hseg, pseg, gseg);
    lemma_decode_of_encoding(claims_json(c));
    lemma_decode_of_encoding(sig_of(der, signing_input_of(c)));
    lemma_parse_of_json(c);
}

/// Validating a canonical token with an accepted signature comes down to its
/// claims alone: wrong audience is invalid, passed expiry is expired,
/// otherwise valid with exactly the claims that were signed.
pub proof fn lemma_validate_canonical(c: ClaimsV, der: Seq<u8>, now: u64)
    requires
        c.wf(),
        sig_verifies(public_key_of(der), signing_input_of(c), sig_of(der, signing_input_of(c))),
    ensures
        validate_spec(token_bytes_of(c, der), public_key_of(der), now) == expected_outcome(c, now),
{
    lemma_token_shape(c, der);
}

/// An issued token's claims carry the user's identity as subject and the
/// issuance time plus the validity window as expiry; they judge as valid
/// strictly before the expiry and as expired from the expiry on — never as
/// invalid.
pub proof fn lemma_issued_outcome(sub: Seq<u8>, now: u64, jti: u128, vnow: u64)
    requires
        now + TOKEN_VALIDITY_SECS <= u64::MAX,
    ensures
        ({
            let c = issued_claims(sub, now, jti);
            &&& c.sub == sub
            &&& c.iat == now
            &&& c.exp == now + TOKEN_VALIDITY_SECS
            &&& c.jti == jti
            &&& vnow < now + TOKEN_VALIDITY_SECS ==> expected_outcome(c, vnow) == StatusV::Valid(c)
            &&& vnow >= now + TOKEN_VALIDITY_SECS ==> expected_outcome(c, vnow)
                == StatusV::Expired
        }),
{
}

/// Validation at two times can differ only in the expiry judgement: a token
/// valid at one time is, at any other time, valid with the same claims or
/// expired — never invalid. Expiry is not a tamper signal.
pub proof fn lemma_expiry_never_invalid(t: Seq<u8>, pk: Seq<u8>, now1: u64, now2: u64)
    requires
        validate_spec(t, pk, now1) is Valid,
    ensures
        validate_spec(t, pk, now2) == (if validate_spec(t, pk, now1)->Valid_0.exp <= now2 {
            StatusV::Expired
        } else {
            validate_spec(t, pk, now1)
        }),
{
}

/// Expiry is one-way: a token expired at one time is expired at every later
/// time.
pub proof fn lemma_expired_stays_expired(t: Seq<u8>, pk: Seq<u8>, now1: u64, now2: u64)
    requires
        validate_spec(t, pk, now1) is Expired,
        now1 <= now2,
    ensures
        validate_spec(t, pk, now2) is Expired,
{
}

/// A token never validates without its credentials in order: a valid outcome
/// means the signature over the first two segments was accepted, the audience
/// is the expected one, and the expiry lies ahead; an expired outcome means
/// the same signature and audience checks passed and only the expiry has
/// gone by. A wrong audience in particular is never valid and never merely
/// expired.
pub proof fn lemma_outcome_soundness(t: Seq<u8>, pk: Seq<u8>, now: u64)
    ensures
        !(validate_spec(t, pk, now) is Invalid) ==> ({
            let parts = split3_spec(t)->Some_0;
            &&& split3_spec(t) is Some
            &&& parts.0 == b64u_of(header_bytes())
            &&& b64u_decode_spec(parts.1) is Some
            &&& b64u_decode_spec(parts.2) is Some
            &&& sig_verifies(
                pk,
                parts.0 + seq![0x2eu8] + parts.1,
                b64u_decode_spec(parts.2)->Some_0,
            )
            &&& parse_claims_spec(b64u_decode_spec(parts.1)->Some_0) is Some
            &&& parse_claims_spec(b64u_decode_spec(parts.1)->Some_0)->Some_0.aud == aud_bytes()
        }),
        validate_spec(t, pk, now) is Valid ==> ({
            let c = validate_spec(t, pk, now)->Valid_0;
            c.aud == aud_bytes() && now < c.exp
        }),
        validate_spec(t, pk, now) is Expired ==> ({
            let c = parse_claims_spec(
                b64u_decode_spec(split3_spec(t)->Some_0.1)->Some_0,
            )->Some_0;
            c.exp <= now
        }),
{
}

/// `iss_bytes` as a string value.
fn iss_string() -> (r: String)
    ensures
        encode_utf8(r@) == iss_bytes(),
{
    let v = vec![
        0x68u8, 0x61, 0x63, 0x6b, 0x65, 0x72, 0x77, 0x65, 0x61, 0x72, 0x2d, 0x61, 0x70, 0x69,
        0x2d, 0x73, 0x65, 0x72, 0x76, 0x65, 0x72,
    ];
    proof {
        assert(v@ =~= iss_bytes());
    }
    string_from_ascii(v)
}

/// `aud_bytes` as a string value.
fn aud_string() -> (r: String)
    ensures
        encode_utf8(r@) == aud_bytes(),
{
    let v = vec![
        0x68u8, 0x61, 0x63, 0x6b, 0x65, 0x72, 0x77, 0x65, 0x61, 0x72, 0x2d, 0x77, 0x65, 0x62,
    ];
    proof {
        assert(v@ =~= aud_bytes());
    }
    string_from_ascii(v)
}

/// `aud_bytes` as a byte value.
fn aud_vec() -> (r: Vec<u8>)
    ensures
        r@ == aud_bytes(),
{
    let r = vec![
        0x68u8, 0x61, 0x63, 0x6b, 0x65, 0x72, 0x77, 0x65, 0x61, 0x72, 0x2d, 0x77, 0x65, 0x62,
    ];
    proof {
        assert(r@ =~= aud_bytes());
    }
    r
}

/// `header_bytes` as a byte value.
fn header_vec() -> (r: Vec<u8>)
    ensures
        r@ == header_bytes(),
{
    let r = vec![
        0x7bu8, 0x22, 0x74, 0x79, 0x70, 0x22, 0x3a, 0x22, 0x4a, 0x57, 0x54, 0x22, 0x2c, 0x22,
        0x61, 0x6c, 0x67, 0x22, 0x3a, 0x22, 0x45, 0x64, 0x44, 0x53, 0x41, 0x22, 0x7d,
    ];
    proof {
        assert(r@ =~= header_bytes());
    }
    r
}

/// The two fixed string claims need no JSON escaping.
proof fn lemma_fixed_claims_plain()
    ensures
        crate::claims::json_plain(iss_bytes()),
        crate::claims::json_plain(aud_bytes()),
{
}

/// Whether two byte strings are equal.
pub(crate) fn bytes_eq(a: &[u8], b: &[u8]) -> (r: bool)
    ensures
        r == (a@ == b@),
{
    let n = a.len();
    if n != b.len() {
        return false;
    }
    let mut i: usize = 0;
    while i < n
        invariant
            0 <= i <= n,
            n == a@.len() == b@.len(),
            forall|k: int| 0 <= k < i ==> a@[k] == b@[k],
        decreases n - i,
    {
        if a[i] != b[i] {
            return false;
        }
        i += 1;
    }
    proof {
        assert(a@ =~= b@);
    }
    true
}

/// The first dot at or after `start`.
fn find_dot(t: &[u8], start: usize) -> (r: Option<usize>)
    requires
        start <= t@.len(),
    ensures
        match r {
            Some(i) => start <= i < t@.len() && t@[i as int] == 0x2e && find_byte(
                t@.skip(start as int),
                0x2e,
            ) == Some(i - start),
            None => find_byte(t@.skip(start as int), 0x2e) is None,
        },
{
    let ghost tail = t@.skip(start as int);
    let n = t.len();
    let mut i: usize = start;
    while i < n
        invariant
            start <= i <= n,
            n == t@.len(),
            tail == t@.skip(start as int),
            forall|k: int| 0 <= k < i - start ==> #[trigger] tail[k] != 0x2e,
        decreases n - i,
    {
        if t[i] == 0x2e {
            proof {
                assert(tail[i - start] == t@[i as int]);
                lemma_find_byte_exact(tail, 0x2e, i - start);
            }
            return Some(i);
        }
        proof {
            assert(tail[i - start] == t@[i as int]);
        }
        i += 1;
    }
    proof {
        lemma_find_byte_none(tail, 0x2e);
    }
    None
}

/// Sign the claims into a complete token string. The token validates by the
/// claims alone, at every validation time: wrong audience would be invalid,
/// after the expiry it is expired, until then it is valid with exactly these
/// claims.
pub fn sign_claims(claims: &Claims, keypair: &JwtKeyPair) -> (r: String)
    requires
        keypair.wf(),
        claims@.wf(),
    ensures
        encode_utf8(r@) == token_bytes_of(claims@, keypair.der()),
        forall|vnow: u64|
            validate_spec(token_bytes_of(claims@, keypair.der()), keypair.pk(), vnow)
                == expected_outcome(claims@, vnow),
{
    let payload = serialize_claims(claims);
    let hv = header_vec();
    let mut si = b64u_encode(hv.as_slice());
    si.push(0x2e);
    let mut pseg = b64u_encode(payload.as_slice());
    si.append(&mut pseg);
    proof {
        assert(si@ =~= signing_input_of(claims@));
    }
    let sig = sign_with(keypair, si.as_slice());
    let mut token = si;
    token.push(0x2e);
    let mut gseg = b64u_encode(sig.as_slice());
    token.append(&mut gseg);
    proof {
        assert(token@ =~= token_bytes_of(claims@, keypair.der()));
        lemma_b64_no_dot(header_bytes());
        lemma_b64_no_dot(claims_json(claims@));
        lemma_b64_no_dot(sig_of(keypair.der(), signing_input_of(claims@)));
        assert forall|i: int| 0 <= i < token@.len() implies token@[i] < 0x80 by {
            let hseg = b64u_of(header_bytes());
            let pseg2 = b64u_of(claims_json(claims@));
            let gseg2 = b64u_of(sig_of(keypair.der(), signing_input_of(claims@)));
            assert(token@ =~= hseg + seq![0x2eu8] + pseg2 + seq![0x2eu8] + gseg2);
            if i < hseg.len() {
                assert(token@[i] == hseg[i]);
            } else if i == hseg.len() {
                assert(token@[i] == 0x2e);
            } else if i < hseg.len() + 1 + pseg2.len() {
                assert(token@[i] == pseg2[i - hseg.len() - 1]);
            } else if i == hseg.len() + 1 + pseg2.len() {
                assert(token@[i] == 0x2e);
            } else {
                assert(token@[i] == gseg2[i - hseg.len() - pseg2.len() - 2]);
            }
        }
        assert forall|vnow: u64|
            validate_spec(token_bytes_of(claims@, keypair.der()), keypair.pk(), vnow)
                == expected_outcome(claims@, vnow) by {
            lemma_validate_canonical(claims@, keypair.der(), vnow);
        }
    }
    string_from_ascii(token)
}

/// Issue a token with a caller-chosen token identifier: build the claims,
/// persist the session record, and only then sign and return the token. On a
/// token-identifier conflict nothing is persisted and no token is produced.
pub fn issue_with_token_id(
    user: &User,
    keypair: &JwtKeyPair,
    store: &mut SessionStore,
    now: u64,
    jti: u128,
) -> (r: Result<String, IssuanceError>)
    requires
        old(store).wf(),
        keypair.wf(),
        user.wf(),
        user.id is Some,
        now + TOKEN_VALIDITY_SECS <= u64::MAX,
    ensures
        final(store).wf(),
        r is Ok <==> !contains_jti(old(store)@, jti),
        r is Err ==> final(store)@ == old(store)@ && r->Err_0 == IssuanceError::Persistence(
            PersistenceError::UniqueIndexViolation,
        ),
        r is Ok ==> ({
            let c = issued_claims(encode_utf8(user.email@), now, jti);
            &&& encode_utf8(r->Ok_0@) == token_bytes_of(c, keypair.der())
            &&& forall|vnow: u64|
                validate_spec(token_bytes_of(c, keypair.der()), keypair.pk(), vnow)
                    == expected_outcome(c, vnow)
            &&& final(store)@ == old(store)@.push(
                SessionToken {
                    id: Some(old(store)@.len() as u64),
                    jti,
                    user: user.id->Some_0,
                    issued_at: now,
                    expires_at: (now + TOKEN_VALIDITY_SECS) as u64,
                    revoked: false,
                },
            )
        }),
{
    let iat = now;
    let exp = now + TOKEN_VALIDITY_SECS;
    let claims = Claims {
        iss: iss_string(),
        sub: user.email.clone(),
        aud: aud_string(),
        exp,
        iat,
        jti,
    };
    proof {
        lemma_fixed_claims_plain();
        assert(claims@ == issued_claims(encode_utf8(user.email@), now, jti));
    }
    let record = SessionToken::new(jti, user, iat, exp);
    match store.create(record) {
        Err(_) => Err(IssuanceError::Persistence(PersistenceError::UniqueIndexViolation)),
        Ok(_) => Ok(sign_claims(&claims, keypair)),
    }
}

/// Relies on uuid's `Uuid::new_v4`: a fresh 128-bit version-4 UUID from the
/// system's random source. Random, so nothing is promised of the value.
#[verifier::external_body]
fn random_token_id() -> u128 {
    uuid::Uuid::new_v4().as_u128()
}

/// Issue a signed token for `user` at time `now`: draw a fresh random token
/// identifier, persist the session record, then sign. The token that comes
/// back validates as valid until its expiry and as expired afterwards, and
/// its record is in the store; if persistence fails, the store is unchanged
/// and no token is surfaced.
pub fn generate_jwt(
    user: &User,
    keypair: &JwtKeyPair,
    store: &mut SessionStore,
    now: u64,
) -> (r: Result<String, IssuanceError>)
    requires
        old(store).wf(),
        keypair.wf(),
        user.wf(),
        user.id is Some,
        now + TOKEN_VALIDITY_SECS <= u64::MAX,
    ensures
        final(store).wf(),
        r is Err ==> final(store)@ == old(store)@,
        r is Ok ==> exists|jti: u128|
            {
                let c = #[trigger] issued_claims(encode_utf8(user.email@), now, jti);
                &&& !contains_jti(old(store)@, jti)
                &&& encode_utf8(r->Ok_0@) == token_bytes_of(c, keypair.der())
                &&& forall|vnow: u64|
                    validate_spec(token_bytes_of(c, keypair.der()), keypair.pk(), vnow)
                        == expected_outcome(c, vnow)
                &&& final(store)@ == old(store)@.push(
                    SessionToken {
                        id: Some(old(store)@.len() as u64),
                        jti,
                        user: user.id->Some_0,
                        issued_at: now,
                        expires_at: (now + TOKEN_VALIDITY_SECS) as u64,
                        revoked: false,
                    },
                )
            },
{
    let jti = random_token_id();
    issue_with_token_id(user, keypair, store, now, jti)
}

/// Validate a token given as bytes: the executable counterpart of
/// `validate_spec`, plus the round-trip guarantee that a canonical token
/// signed with this pair's key is judged by its claims alone.
pub fn validate_bytes(t: &[u8], keypair: &JwtKeyPair, now: u64) -> (r: JwtStatus)
    requires
        keypair.wf(),
    ensures
        r@ == validate_spec(t@, keypair.pk(), now),
        forall|c: ClaimsV|
            c.wf() && t@ == #[trigger] token_bytes_of(c, keypair.der()) ==> r@
                == expected_outcome(c, now),
{
    let ghost pk = keypair.pk();
    let n = t.len();
    let i1 = match find_dot(t, 0) {
        None => {
            proof {
                assert(t@.skip(0) =~= t@);
                assert(validate_spec(t@, pk, now) == StatusV::Invalid);
                assert forall|c: ClaimsV|
                    c.wf() && t@ == #[trigger] token_bytes_of(c, keypair.der())
                        implies StatusV::Invalid == expected_outcome(c, now) by {
                    lemma_token_shape(c, keypair.der());
                }
            }
            return JwtStatus::Invalid;
        },
        Some(i) => i,
    };
    proof {
        assert(t@.skip(0) =~= t@);
    }
    let i2 = match find_dot(t, i1 + 1) {
        None => {
            proof {
                assert(validate_spec(t@, pk, now) == StatusV::Invalid);
                assert forall|c: ClaimsV|
                    c.wf() && t@ == #[trigger] token_bytes_of(c, keypair.der())
                        implies StatusV::Invalid == expected_outcome(c, now) by {
                    lemma_token_shape(c, keypair.der());
                }
            }
            return JwtStatus::Invalid;
        },
        Some(i) => i,
    };
    let ghost j = i2 - (i1 + 1);
    let third = find_dot(t, i2 + 1);
    proof {
        assert(t@.skip(i1 + 1).skip(j + 1) =~= t@.skip(i2 + 1));
    }
    if let Some(_) = third {
        proof {
            assert(validate_spec(t@, pk, now) == StatusV::Invalid);
            assert forall|c: ClaimsV|
                c.wf() && t@ == #[trigger] token_bytes_of(c, keypair.der())
                    implies StatusV::Invalid == expected_outcome(c, now) by {
                lemma_token_shape(c, keypair.der());
            }
        }
        return JwtStatus::Invalid;
    }
    let ghost parts = split3_spec(t@)->Some_0;
    proof {
        assert(split3_spec(t@) == Some(
            (t@.take(i1 as int), t@.skip(i1 as int + 1).take(j), t@.skip(i2 as int + 1)),
        ));
    }
    let hseg = slice_subrange(t, 0, i1);
    let pseg = slice_subrange(t, i1 + 1, i2);
    let gseg = slice_subrange(t, i2 + 1, n);
    proof {
        assert(hseg@ =~= parts.0);
        assert(pseg@ =~= parts.1);
        assert(gseg@ =~= parts.2);
    }
    let hv = header_vec();
    let hexp = b64u_encode(hv.as_slice());
    if !bytes_eq(hseg, hexp.as_slice()) {
        proof {
            assert(validate_spec(t@, pk, now) == StatusV::Invalid);
            assert forall|c: ClaimsV|
                c.wf() && t@ == #[trigger] token_bytes_of(c, keypair.der())
                    implies StatusV::Invalid == expected_outcome(c, now) by {
                lemma_token_shape(c, keypair.der());
            }
        }
        return JwtStatus::Invalid;
    }
    let pb = match b64u_decode(pseg) {
        None => {
            proof {
                assert(validate_spec(t@, pk, now) == StatusV::Invalid);
                assert forall|c: ClaimsV|
                    c.wf() && t@ == #[trigger] token_bytes_of(c, keypair.der())
                        implies StatusV::Invalid == expected_outcome(c, now) by {
                    lemma_token_shape(c, keypair.der());
                }
            }
            return JwtStatus::Invalid;
        },
        Some(v) => v,
    };
    let sig = match b64u_decode(gseg) {
        None => {
            proof {
                assert(validate_spec(t@, pk, now) == StatusV::Invalid);
                assert forall|c: ClaimsV|
                    c.wf() && t@ == #[trigger] token_bytes_of(c, keypair.der())
                        implies StatusV::Invalid == expected_outcome(c, now) by {
                    lemma_token_shape(c, keypair.der());
                }
            }
            return JwtStatus::Invalid;
        },
        Some(v) => v,
    };
    let si = slice_subrange(t, 0, i2);
    proof {
        assert(si@ =~= parts.0 + seq![0x2eu8] + parts.1);
    }
    let ok = verify_signature(keypair.public_key_bytes().as_slice(), si, sig.as_slice());
    if !ok {
        proof {
            assert(validate_spec(t@, pk, now) == StatusV::Invalid);
            assert forall|c: ClaimsV|
                c.wf() && t@ == #[trigger] token_bytes_of(c, keypair.der())
                    implies StatusV::Invalid == expected_outcome(c, now) by {
                lemma_token_shape(c, keypair.der());
                assert(si@ == signing_input_of(c));
                assert(sig@ == sig_of(keypair.der(), si@));
                assert(false);
            }
        }
        return JwtStatus::Invalid;
    }
    let claims = match parse_claims(pb.as_slice()) {
        None => {
            proof {
                assert(validate_spec(t@, pk, now) == StatusV::Invalid);
                assert forall|c: ClaimsV|
                    c.wf() && t@ == #[trigger] token_bytes_of(c, keypair.der())
                        implies StatusV::Invalid == expected_outcome(c, now) by {
                    lemma_token_shape(c, keypair.der());
                }
            }
            return JwtStatus::Invalid;
        },
        Some(v) => v,
    };
    proof {
        assert forall|c: ClaimsV|
            c.wf() && t@ == #[trigger] token_bytes_of(c, keypair.der()) implies claims@ == c
            && validate_spec(t@, pk, now) == expected_outcome(claims@, now) by {
            lemma_token_shape(c, keypair.der());
        }
    }
    let av = aud_vec();
    if !bytes_eq(claims.aud.as_str().as_bytes(), av.as_slice()) {
        return JwtStatus::Invalid;
    }
    if claims.exp <= now {
        return JwtStatus::Expired;
    }
    JwtStatus::Valid(claims)
}

/// Validate a token string: parse, verify the signature, then judge the
/// standard claims. A pure pass: no state is read or written, so a second
/// call returns the same outcome.
pub fn validate_jwt(token: &str, keypair: &JwtKeyPair, now: u64) -> (r: JwtStatus)
    requires
        keypair.wf(),
    ensures
        r@ == validate_spec(token.spec_bytes(), keypair.pk(), now),
        forall|c: ClaimsV|
            c.wf() && token.spec_bytes() == #[trigger] token_bytes_of(c, keypair.der()) ==> r@
                == expected_outcome(c, now),
{
    validate_bytes(token.as_bytes(), keypair, now)
}

} // verus!
