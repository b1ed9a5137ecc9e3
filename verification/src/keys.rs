//! The key provider: the process-wide Ed25519 signing pair, loaded from or
//! persisted to standard PKCS#8 bytes, immutable after startup. The
//! cryptography is `ring`'s, behind trusted declarations; everything above it
//! is verified.

use vstd::prelude::*;

verus! {

#[verifier::external_type_specification]
#[verifier::external_body]
pub struct ExEd25519KeyPair(ring::signature::Ed25519KeyPair);

/// Whether `der` parses as an unencrypted PKCS#8 v2 Ed25519 private key;
/// names the success of `ring`'s `Ed25519KeyPair::from_pkcs8`.
pub uninterp spec fn is_valid_pkcs8(der: Seq<u8>) -> bool;

/// The public key belonging to the private key in `der`; names the result of
/// `ring`'s `KeyPair::public_key` on the parsed pair.
pub uninterp spec fn public_key_of(der: Seq<u8>) -> Seq<u8>;

/// The Ed25519 signature of `msg` under the private key in `der`; names the
/// result of `ring`'s `Ed25519KeyPair::sign`, which RFC 8032 makes a
/// deterministic function of key and message.
pub uninterp spec fn sig_of(der: Seq<u8>, msg: Seq<u8>) -> Seq<u8>;

/// Whether Ed25519 verification accepts `sig` as a signature of `msg` under
/// `public_key`; names the result of `ring`'s `UnparsedPublicKey::verify`,
/// a deterministic function of its three arguments.
pub uninterp spec fn sig_verifies(public_key: Seq<u8>, msg: Seq<u8>, sig: Seq<u8>) -> bool;

/// Startup failure of the key provider; fatal, there is no safe fallback.
#[derive(Clone, Copy, PartialEq, Eq, Structural, Debug)]
pub enum KeyLoadError {
    /// The key material could not be parsed as a PKCS#8 Ed25519 private key.
    MalformedKey,
    /// The random source failed while generating a fresh key.
    GenerationFailed,
}

/// The signing pair: the parsed key, the private-key bytes it came from, and
/// the derived public key. Built only by this module, so the three fields
/// always belong together; immutable after construction.
pub struct JwtKeyPair {
    pair: ring::signature::Ed25519KeyPair,
    der: Vec<u8>,
    public_key: Vec<u8>,
}

impl JwtKeyPair {
    /// The private-key bytes this pair was built from.
    pub closed spec fn der(&self) -> Seq<u8> {
        self.der@
    }

    /// The public-key bytes of this pair.
    pub closed spec fn pk(&self) -> Seq<u8> {
        self.public_key@
    }

    /// A pair is well-formed when its key bytes parse and its public key is
    /// the one derived from them.
    pub open spec fn wf(&self) -> bool {
        is_valid_pkcs8(self.der()) && self.pk() == public_key_of(self.der())
    }

    /// The public half, for verification and for persistence round-trip
    /// checks.
    pub fn public_key_bytes(&self) -> (r: &Vec<u8>)
        ensures
            r@ == self.pk(),
    {
        &self.public_key
    }
}

/// The key material determines the pair: two well-formed pairs built from
/// the same private-key bytes expose the same public key. Writing the key
/// bytes out and loading them back therefore reproduces the public key.
pub proof fn lemma_key_material_determines_public_key(a: &JwtKeyPair, b: &JwtKeyPair)
    requires
        a.wf(),
        b.wf(),
        a.der() == b.der(),
    ensures
        a.pk() == b.pk(),
{
}

/// Relies on `ring`'s `Ed25519KeyPair::from_pkcs8`, which succeeds exactly on
/// well-formed unencrypted PKCS#8 v2 Ed25519 keys, and `KeyPair::public_key`,
/// the public half derived from the key material.
#[verifier::external_body]
fn keypair_from_der(der: &[u8]) -> (r: Option<JwtKeyPair>)
    ensures
        r is Some <==> is_valid_pkcs8(der@),
        r is Some ==> r->Some_0.der() == der@ && r->Some_0.pk() == public_key_of(der@),
{
    match ring::signature::Ed25519KeyPair::from_pkcs8(der) {
        Ok(pair) => {
            let public_key = ring::signature::KeyPair::public_key(&pair).as_ref().to_vec();
            Some(JwtKeyPair { pair, der: der.to_vec(), public_key })
        },
        Err(_) => None,
    }
}

/// Relies on `ring`'s `Ed25519KeyPair::generate_pkcs8`: on success the
/// returned document is an unencrypted PKCS#8 v2 Ed25519 private key,
/// suitable for `from_pkcs8`. The key itself is drawn from the system's
/// secure random source, so nothing more is promised.
#[verifier::external_body]
fn generate_pkcs8_der() -> (r: Option<Vec<u8>>)
    ensures
        r is Some ==> is_valid_pkcs8(r->Some_0@),
{
    let rng = ring::rand::SystemRandom::new();
    match ring::signature::Ed25519KeyPair::generate_pkcs8(&rng) {
        Ok(doc) => Some(doc.as_ref().to_vec()),
        Err(_) => None,
    }
}

/// Relies on `ring`'s `Ed25519KeyPair::sign`: the RFC 8032 signature of the
/// message under this pair's key, and Ed25519 verification under the pair's
/// public key accepts it. The signed-over key bytes are the pair's own
/// because only `keypair_from_der` builds a `JwtKeyPair`.
#[verifier::external_body]
pub(crate) fn sign_with(kp: &JwtKeyPair, msg: &[u8]) -> (r: Vec<u8>)
    ensures
        r@ == sig_of(kp.der(), msg@),
        sig_verifies(public_key_of(kp.der()), msg@, r@),
{
    kp.pair.sign(msg).as_ref().to_vec()
}

/// Relies on `ring`'s `UnparsedPublicKey::verify` with the `ED25519`
/// algorithm: a deterministic accept/reject for the given key, message and
/// signature bytes, which accepts every signature `sign` produces under the
/// matching public key.
#[verifier::external_body]
pub(crate) fn verify_signature(public_key: &[u8], msg: &[u8], sig: &[u8]) -> (r: bool)
    ensures
        r == sig_verifies(public_key@, msg@, sig@),
        forall|der: Seq<u8>|
            public_key@ == #[trigger] public_key_of(der) && sig@ == sig_of(der, msg@) ==> r,
{
    ring::signature::UnparsedPublicKey::new(&ring::signature::ED25519, public_key)
        .verify(msg, sig)
        .is_ok()
}

/// Build the signing pair from standard-encoded private-key bytes; malformed
/// bytes are a startup failure.
pub fn generate_ed_dsa_keypair(der_bytes: &[u8]) -> (r: Result<JwtKeyPair, KeyLoadError>)
    ensures
        r is Ok <==> is_valid_pkcs8(der_bytes@),
        r is Ok ==> r->Ok_0.wf() && r->Ok_0.der() == der_bytes@,
        r is Err ==> r->Err_0 == KeyLoadError::MalformedKey,
{
    match keypair_from_der(der_bytes) {
        Some(kp) => Ok(kp),
        None => Err(KeyLoadError::MalformedKey),
    }
}

/// The key provider's load-or-generate step, run once at process start.
/// `loaded` holds the bytes of an existing key file, or nothing when there is
/// none; the result pairs the signing keys with the bytes to persist, which
/// on a load are the loaded bytes themselves.
pub fn init_jwt_keys(loaded: Option<Vec<u8>>) -> (r: Result<(JwtKeyPair, Vec<u8>), KeyLoadError>)
    ensures
        r is Ok ==> r->Ok_0.0.wf() && r->Ok_0.0.der() == r->Ok_0.1@,
        match loaded {
            Some(b) => {
                &&& r is Ok <==> is_valid_pkcs8(b@)
                &&& r is Ok ==> r->Ok_0.1@ == b@
                &&& r is Err ==> r->Err_0 == KeyLoadError::MalformedKey
            },
            None => true,
        },
{
    match loaded {
        Some(b) => match generate_ed_dsa_keypair(b.as_slice()) {
            Ok(kp) => Ok((kp, b)),
            Err(e) => Err(e),
        },
        None => match generate_pkcs8_der() {
            None => Err(KeyLoadError::GenerationFailed),
            Some(der) => match generate_ed_dsa_keypair(der.as_slice()) {
                Ok(kp) => Ok((kp, der)),
                Err(_) => Err(KeyLoadError::GenerationFailed),
            },
        },
    }
}

} // verus!
