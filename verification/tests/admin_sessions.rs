use bypass_hub::session::{
    authorize, check_credentials, cleared_cookie, hash_admin_password, login, logout, new_uuid,
    open_session, session_cookie, CredentialCheck, LoginOutcome, SessionStore, SESSION_TTL_MILLIS,
};

#[test]
fn opened_session_is_valid_until_expiry() {
    let mut store = SessionStore::new();
    let cookie = open_session(&mut store, "abc".to_string(), 1_000, false);
    assert_eq!(cookie, "session_id=abc; HttpOnly; Path=/; Max-Age=86400; Secure; SameSite=Strict");
    assert!(authorize(&store, Some("abc"), 1_000));
    assert!(authorize(&store, Some("abc"), 1_000 + SESSION_TTL_MILLIS));
    assert!(!authorize(&store, Some("abc"), 1_001 + SESSION_TTL_MILLIS));
    assert!(!authorize(&store, Some("abd"), 1_000));
    assert!(!authorize(&store, None, 1_000));
}

#[test]
fn logout_closes_only_its_session() {
    let mut store = SessionStore::new();
    open_session(&mut store, "one".to_string(), 0, true);
    open_session(&mut store, "two".to_string(), 0, true);
    let cookie = logout(&mut store, Some("one"));
    assert_eq!(cookie, "session_id=; HttpOnly; Path=/; Max-Age=0; Expires=Thu, 01 Jan 1970 00:00:00 GMT");
    assert!(!authorize(&store, Some("one"), 5));
    assert!(authorize(&store, Some("two"), 5));
    assert_eq!(logout(&mut store, None), cleared_cookie());
    assert!(authorize(&store, Some("two"), 5));
}

#[test]
fn dev_cookie_is_not_secure() {
    assert_eq!(session_cookie("x", true), "session_id=x; HttpOnly; Path=/; Max-Age=86400");
}

#[test]
fn reopening_a_session_extends_it() {
    let mut store = SessionStore::new();
    open_session(&mut store, "s".to_string(), 0, false);
    open_session(&mut store, "s".to_string(), 10, false);
    assert!(authorize(&store, Some("s"), 10 + SESSION_TTL_MILLIS));
}

#[test]
fn credentials_against_bcrypt_hash() {
    let hash = hash_admin_password("secret").expect("hashing works");
    assert_eq!(hash.len(), 60);
    assert!(hash.starts_with("$2b$12$"));
    assert_eq!(check_credentials("admin", "secret", "admin", &hash), CredentialCheck::Valid);
    assert_eq!(check_credentials("admin", "wrong", "admin", &hash), CredentialCheck::Invalid);
    assert_eq!(check_credentials("root", "secret", "admin", &hash), CredentialCheck::Invalid);
    assert_eq!(check_credentials("admin", "secret", "admin", "not a hash"), CredentialCheck::VerifyFailed);
    // the user name is checked first: a bad hash is not consulted
    assert_eq!(check_credentials("root", "secret", "admin", "not a hash"), CredentialCheck::Invalid);
}

#[test]
fn login_then_authorized_request() {
    let hash = hash_admin_password("pw").unwrap();
    let mut store = SessionStore::new();
    let out = login(&mut store, "admin", "pw", "admin", &hash, 42, false);
    let cookie = match out {
        LoginOutcome::Accepted(c) => c,
        other => panic!("unexpected {:?}", other),
    };
    let id = cookie.strip_prefix("session_id=").unwrap().split(';').next().unwrap().to_string();
    assert_eq!(id.len(), 36);
    assert!(authorize(&store, Some(&id), 42));
    logout(&mut store, Some(&id));
    assert!(!authorize(&store, Some(&id), 42));
}

#[test]
fn failed_login_opens_nothing() {
    let hash = hash_admin_password("pw").unwrap();
    let mut store = SessionStore::new();
    assert_eq!(login(&mut store, "admin", "nope", "admin", &hash, 0, false), LoginOutcome::InvalidCredentials);
    assert_eq!(login(&mut store, "admin", "pw", "admin", "$2b$bad", 0, false), LoginOutcome::VerifyFailed);
}

#[test]
fn uuids_are_fresh() {
    let a = new_uuid();
    let b = new_uuid();
    assert_ne!(a, b);
    assert_eq!(a.len(), 36);
    let c: Vec<char> = a.chars().collect();
    for (i, ch) in c.iter().enumerate() {
        if [8, 13, 18, 23].contains(&i) {
            assert_eq!(*ch, '-');
        } else {
            assert!(ch.is_ascii_digit() || ('a'..='f').contains(ch));
        }
    }
    assert_eq!(c[14], '4');
    assert!(['8', '9', 'a', 'b'].contains(&c[19]));
}
