use hackerwear_api::keys::init_jwt_keys;
use hackerwear_api::keys::generate_ed_dsa_keypair;
use hackerwear_api::keys::JwtKeyPair;
use hackerwear_api::keys::KeyLoadError;
use hackerwear_api::claims::Claims;
use hackerwear_api::routes::extract_and_validate;
use hackerwear_api::routes::JwtError;
use hackerwear_api::session::SessionStore;
use hackerwear_api::token::generate_jwt;
use hackerwear_api::token::issue_with_token_id;
use hackerwear_api::token::sign_claims;
use hackerwear_api::token::validate_jwt;
use hackerwear_api::token::JwtStatus;
use hackerwear_api::user::User;

fn fresh_keypair() -> JwtKeyPair {
    init_jwt_keys(None).expect("key generation").0
}

fn sample_user() -> User {
    User {
        id: Some(1),
        name: "Ada".to_string(),
        email: "a@b.com".to_string(),
        password_hash: String::new(),
        is_admin: false,
    }
}

const DAY: u64 = 86400;
const T: u64 = 1_700_000_000;

#[test]
fn test_ed_dsa_keygen() {
    let (pair, der) = init_jwt_keys(None).unwrap();
    println!("{:?}", der);
    let reparsed = generate_ed_dsa_keypair(&der).unwrap();
    assert_eq!(pair.public_key_bytes(), reparsed.public_key_bytes());
}

#[test]
fn key_persistence_round_trip() {
    let (first, der) = init_jwt_keys(None).unwrap();
    // The bytes that would be written to disk, read back unchanged.
    let (reloaded, der_again) = init_jwt_keys(Some(der.clone())).unwrap();
    assert_eq!(der, der_again);
    assert_eq!(first.public_key_bytes(), reloaded.public_key_bytes());
}

#[test]
fn malformed_key_is_rejected() {
    match init_jwt_keys(Some(vec![1, 2, 3])) {
        Err(KeyLoadError::MalformedKey) => {}
        _ => panic!("malformed key bytes must fail to load"),
    }
    match generate_ed_dsa_keypair(&[0u8; 16]) {
        Err(KeyLoadError::MalformedKey) => {}
        _ => panic!("malformed key bytes must fail to load"),
    }
}

#[test]
fn issue_then_validate_is_valid() {
    let kp = fresh_keypair();
    let mut store = SessionStore::new();
    let user = sample_user();
    let token = generate_jwt(&user, &kp, &mut store, T).unwrap();
    match validate_jwt(&token, &kp, T) {
        JwtStatus::Valid(claims) => {
            assert_eq!(claims.sub, "a@b.com");
            assert_eq!(claims.iss, "hackerwear-api-server");
            assert_eq!(claims.aud, "hackerwear-web");
            assert_eq!(claims.iat, T);
            assert_eq!(claims.exp, T + 10 * DAY);
        }
        _ => panic!("a freshly issued token must be valid"),
    }
    assert_eq!(store.len(), 1);
}

#[test]
fn validate_is_idempotent() {
    let kp = fresh_keypair();
    let mut store = SessionStore::new();
    let user = sample_user();
    let token = generate_jwt(&user, &kp, &mut store, T).unwrap();
    let first = validate_jwt(&token, &kp, T + DAY);
    let second = validate_jwt(&token, &kp, T + DAY);
    match (first, second) {
        (JwtStatus::Valid(a), JwtStatus::Valid(b)) => {
            assert_eq!(a.sub, b.sub);
            assert_eq!(a.jti, b.jti);
            assert_eq!(a.exp, b.exp);
        }
        _ => panic!("two validations of one token must agree"),
    }
}

#[test]
fn ten_day_window_scenario() {
    let kp = fresh_keypair();
    let mut store = SessionStore::new();
    let user = sample_user();
    let token = issue_with_token_id(&user, &kp, &mut store, T, 42).unwrap();
    match validate_jwt(&token, &kp, T + DAY) {
        JwtStatus::Valid(claims) => {
            assert_eq!(claims.exp, T + 10 * DAY);
            assert_eq!(claims.jti, 42);
        }
        _ => panic!("one day in, the token must be valid"),
    }
    match validate_jwt(&token, &kp, T + 11 * DAY) {
        JwtStatus::Expired => {}
        _ => panic!("eleven days in, the token must be expired, not invalid"),
    }
}

#[test]
fn tampered_signature_is_invalid() {
    let kp = fresh_keypair();
    let mut store = SessionStore::new();
    let user = sample_user();
    let token = generate_jwt(&user, &kp, &mut store, T).unwrap();
    let pieces: Vec<&str> = token.split('.').collect();
    assert_eq!(pieces.len(), 3);
    let engine = &base64::engine::general_purpose::URL_SAFE_NO_PAD;
    let mut sig = base64::Engine::decode(engine, pieces[2]).unwrap();
    sig[10] ^= 0x01;
    let tampered = format!(
        "{}.{}.{}",
        pieces[0],
        pieces[1],
        base64::Engine::encode(engine, &sig)
    );
    match validate_jwt(&tampered, &kp, T) {
        JwtStatus::Invalid => {}
        _ => panic!("a tampered signature must be invalid, never valid"),
    }
}

#[test]
fn wrong_audience_is_invalid() {
    let kp = fresh_keypair();
    let claims = Claims {
        iss: "hackerwear-api-server".to_string(),
        sub: "a@b.com".to_string(),
        aud: "someone-else".to_string(),
        exp: T + 10 * DAY,
        iat: T,
        jti: 7,
    };
    let token = sign_claims(&claims, &kp);
    match validate_jwt(&token, &kp, T) {
        JwtStatus::Invalid => {}
        _ => panic!("a correctly signed token for another audience must be invalid"),
    }
}

#[test]
fn garbage_tokens_are_invalid() {
    let kp = fresh_keypair();
    for junk in ["", "nonsense", "a.b.c", "..", "e30.e30.e30"] {
        match validate_jwt(junk, &kp, T) {
            JwtStatus::Invalid => {}
            _ => panic!("junk input must be invalid"),
        }
    }
}

#[test]
fn token_ids_never_collide() {
    let kp = fresh_keypair();
    let mut store = SessionStore::new();
    let user = sample_user();
    let mut seen: Vec<u128> = Vec::new();
    for k in 0..40u64 {
        let token = generate_jwt(&user, &kp, &mut store, T).unwrap();
        assert_eq!(store.len() as u64, k + 1);
        match validate_jwt(&token, &kp, T) {
            JwtStatus::Valid(claims) => {
                assert!(!seen.contains(&claims.jti));
                seen.push(claims.jti);
            }
            _ => panic!("issued token must validate"),
        }
    }
}

#[test]
fn guard_missing_header() {
    let kp = fresh_keypair();
    match extract_and_validate(None, &kp, T) {
        Err(JwtError::MissingCredential) => {}
        _ => panic!("no header must be a missing credential"),
    }
}

#[test]
fn guard_wrong_scheme() {
    let kp = fresh_keypair();
    match extract_and_validate(Some("Token xyz"), &kp, T) {
        Err(JwtError::InvalidCredential) => {}
        _ => panic!("a non-bearer scheme must be an invalid credential"),
    }
    match extract_and_validate(Some("bearer xyz"), &kp, T) {
        Err(JwtError::InvalidCredential) => {}
        _ => panic!("the scheme check is case-sensitive"),
    }
}

#[test]
fn guard_distinguishes_expired_from_invalid() {
    let kp = fresh_keypair();
    let mut store = SessionStore::new();
    let user = sample_user();
    let token = generate_jwt(&user, &kp, &mut store, T).unwrap();
    let header = format!("Bearer {}", token);
    match extract_and_validate(Some(&header), &kp, T + 11 * DAY) {
        Err(JwtError::Expired) => {}
        _ => panic!("an expired token must be rejected as expired"),
    }
    let header_bad = format!("Bearer {}garbage", token);
    match extract_and_validate(Some(&header_bad), &kp, T + 11 * DAY) {
        Err(JwtError::Invalid) => {}
        _ => panic!("a corrupted token must be rejected as invalid"),
    }
}

#[test]
fn guard_accepts_valid_bearer_token() {
    let kp = fresh_keypair();
    let mut store = SessionStore::new();
    let user = sample_user();
    let token = generate_jwt(&user, &kp, &mut store, T).unwrap();
    let header = format!("Bearer {}", token);
    let claims = extract_and_validate(Some(&header), &kp, T).unwrap();
    assert_eq!(claims.sub, "a@b.com");
}
