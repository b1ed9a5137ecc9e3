use hackerwear_api::config::AppState;
use hackerwear_api::keys::init_jwt_keys;
use hackerwear_api::password::hash_password;
use hackerwear_api::password::verify_password;
use hackerwear_api::password::PasswordError;
use hackerwear_api::routes::login;
use hackerwear_api::routes::sign_up;
use hackerwear_api::routes::LoginCredentials;
use hackerwear_api::routes::LoginError;
use hackerwear_api::routes::UserCredentials;
use hackerwear_api::session::PersistenceError;
use hackerwear_api::session::SessionStore;
use hackerwear_api::session::SessionToken;
use hackerwear_api::token::issue_with_token_id;
use hackerwear_api::token::validate_jwt;
use hackerwear_api::token::IssuanceError;
use hackerwear_api::token::JwtStatus;
use hackerwear_api::user::User;

const T: u64 = 1_700_000_000;

#[test]
fn pasword_hash() {
    let password = "hunter4"; // Bad password; don't actually use!
    let password_hash = hash_password(password).unwrap();
    assert!(verify_password(&password_hash, password).unwrap());
}

#[test]
fn wrong_password_does_not_verify() {
    let hash = hash_password("correct horse").unwrap();
    assert!(!verify_password(&hash, "battery staple").unwrap());
}

#[test]
fn malformed_hash_is_an_error() {
    match verify_password("not-a-phc-string", "anything") {
        Err(PasswordError::MalformedHash) => {}
        _ => panic!("an unreadable stored hash must be a malformed-hash error"),
    }
}

#[test]
fn sign_up_builds_a_fresh_account() {
    let creds = UserCredentials {
        name: "Ada".to_string(),
        email: "a@b.com".to_string(),
        password: "hunter4".to_string(),
    };
    let user = sign_up(&creds).unwrap();
    assert_eq!(user.name, "Ada");
    assert_eq!(user.email, "a@b.com");
    assert!(user.id.is_none());
    assert!(!user.is_admin);
    assert!(verify_password(&user.password_hash, "hunter4").unwrap());
}

#[test]
fn login_issues_token_only_for_correct_password() {
    let kp = init_jwt_keys(None).unwrap().0;
    let mut store = SessionStore::new();
    let mut user = sign_up(&UserCredentials {
        name: "Ada".to_string(),
        email: "a@b.com".to_string(),
        password: "hunter4".to_string(),
    })
    .unwrap();
    user.id = Some(1);
    let wrong = LoginCredentials {
        email: "a@b.com".to_string(),
        password: "hunter5".to_string(),
    };
    assert!(login(&user, &wrong, &kp, &mut store, T).unwrap().is_none());
    assert_eq!(store.len(), 0);
    let right = LoginCredentials {
        email: "a@b.com".to_string(),
        password: "hunter4".to_string(),
    };
    let token = login(&user, &right, &kp, &mut store, T).unwrap().unwrap();
    assert_eq!(store.len(), 1);
    match validate_jwt(&token, &kp, T) {
        JwtStatus::Valid(claims) => assert_eq!(claims.sub, "a@b.com"),
        _ => panic!("a token from a successful login must validate"),
    }
}

#[test]
fn login_with_unreadable_hash_fails() {
    let kp = init_jwt_keys(None).unwrap().0;
    let mut store = SessionStore::new();
    let user = User {
        id: Some(1),
        name: "Ada".to_string(),
        email: "a@b.com".to_string(),
        password_hash: "garbage".to_string(),
        is_admin: false,
    };
    let creds = LoginCredentials {
        email: "a@b.com".to_string(),
        password: "hunter4".to_string(),
    };
    match login(&user, &creds, &kp, &mut store, T) {
        Err(LoginError::Password(PasswordError::MalformedHash)) => {}
        _ => panic!("an unreadable stored hash must fail the login"),
    }
}

#[test]
fn store_enforces_token_id_uniqueness() {
    let mut store = SessionStore::new();
    let user = User {
        id: Some(9),
        name: String::new(),
        email: String::new(),
        password_hash: String::new(),
        is_admin: false,
    };
    let rec = SessionToken::new(77, &user, T, T + 10);
    let stored = store.create(rec).unwrap();
    assert_eq!(stored.id, Some(0));
    assert_eq!(stored.jti, 77);
    let again = SessionToken::new(77, &user, T + 1, T + 11);
    match store.create(again) {
        Err(PersistenceError::UniqueIndexViolation) => {}
        _ => panic!("a duplicate token identifier must be a uniqueness conflict"),
    }
    assert_eq!(store.len(), 1);
}

#[test]
fn duplicate_token_id_fails_issuance() {
    let kp = init_jwt_keys(None).unwrap().0;
    let mut store = SessionStore::new();
    let user = User {
        id: Some(1),
        name: "Ada".to_string(),
        email: "a@b.com".to_string(),
        password_hash: String::new(),
        is_admin: false,
    };
    issue_with_token_id(&user, &kp, &mut store, T, 5).unwrap();
    match issue_with_token_id(&user, &kp, &mut store, T, 5) {
        Err(IssuanceError::Persistence(PersistenceError::UniqueIndexViolation)) => {}
        _ => panic!("reusing a token identifier must fail the issuance"),
    }
    assert_eq!(store.len(), 1);
}

#[test]
fn find_by_token_id_sees_stored_records() {
    let mut store = SessionStore::new();
    let user = User {
        id: Some(9),
        name: String::new(),
        email: String::new(),
        password_hash: String::new(),
        is_admin: false,
    };
    store.create(SessionToken::new(11, &user, T, T + 10)).unwrap();
    store.create(SessionToken::new(22, &user, T, T + 10)).unwrap();
    let found = store.find_by_token_id(22).unwrap();
    assert_eq!(found.jti, 22);
    assert_eq!(found.id, Some(1));
    assert!(store.find_by_token_id(33).is_none());
}

#[test]
fn revoke_is_one_way_and_idempotent() {
    let mut store = SessionStore::new();
    let user = User {
        id: Some(9),
        name: String::new(),
        email: String::new(),
        password_hash: String::new(),
        is_admin: false,
    };
    let stored = store.create(SessionToken::new(11, &user, T, T + 10)).unwrap();
    assert!(!stored.revoked);
    let revoked = store.revoke(0).unwrap();
    assert!(revoked.revoked);
    assert_eq!(revoked.jti, 11);
    let again = store.revoke(0).unwrap();
    assert!(again.revoked);
    match store.revoke(5) {
        Err(PersistenceError::RecordNotFound) => {}
        _ => panic!("revoking an unassigned identifier must fail"),
    }
    assert!(store.find_by_token_id(11).unwrap().revoked);
}

#[test]
fn app_state_starts_empty() {
    let kp = init_jwt_keys(None).unwrap().0;
    let state = AppState::new(kp);
    assert_eq!(state.store.len(), 0);
}
