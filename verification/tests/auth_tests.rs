use mediatracker::auth::{login_user, register_user};
use mediatracker::database::Database;
use mediatracker::models::{CollectionData, UserRecord};

fn empty_db() -> Database {
    Database::new(CollectionData::empty())
}

#[test]
fn register_then_login_succeeds() {
    let mut db = empty_db();
    let public = register_user(&mut db, "alice", "secret-password", 1234).expect("registers");
    assert_eq!(public.username, "alice");
    let stored = db.find_user("alice").expect("stored");
    assert_eq!(stored.created_at, 1234);
    assert_ne!(stored.password_hash, "secret-password");
    let logged = login_user(&db, "alice", "secret-password").expect("logs in");
    assert_eq!(logged.username, "alice");
}

#[test]
fn login_rejects_wrong_password() {
    let mut db = empty_db();
    register_user(&mut db, "alice", "secret-password", 1).expect("registers");
    let r = login_user(&db, "alice", "wrong-password");
    assert_eq!(r, Err("INVALID_CREDENTIALS".to_string()));
}

#[test]
fn login_rejects_unknown_user() {
    let db = empty_db();
    let r = login_user(&db, "nobody", "whatever");
    assert_eq!(r, Err("INVALID_CREDENTIALS".to_string()));
}

#[test]
fn login_fails_on_unparseable_stored_hash() {
    let mut db = empty_db();
    db.add_user(UserRecord {
        username: "mallory".to_string(),
        password_hash: "not-a-phc-string".to_string(),
        created_at: 0,
    })
    .unwrap();
    let r = login_user(&db, "mallory", "anything");
    assert!(r.is_err());
    assert_ne!(r, Err("INVALID_CREDENTIALS".to_string()));
}

#[test]
fn register_rejects_short_username() {
    let mut db = empty_db();
    let r = register_user(&mut db, "ab", "long-enough", 1);
    assert_eq!(r, Err("Username too short".to_string()));
    assert!(db.find_user("ab").is_none());
}

#[test]
fn register_rejects_short_password() {
    let mut db = empty_db();
    let r = register_user(&mut db, "alice", "12345", 1);
    assert_eq!(r, Err("Password too short".to_string()));
}

#[test]
fn register_rejects_duplicate_username() {
    let mut db = empty_db();
    register_user(&mut db, "alice", "secret-password", 1).expect("registers");
    let r = register_user(&mut db, "alice", "other-password", 2);
    assert_eq!(r, Err("USER_EXISTS".to_string()));
}

#[test]
fn register_trims_username() {
    let mut db = empty_db();
    let public = register_user(&mut db, "  alice  ", "secret-password", 1).expect("registers");
    assert_eq!(public.username, "alice");
    assert!(db.find_user("alice").is_some());
    assert!(login_user(&db, " alice ", "secret-password").is_ok());
}

#[test]
fn username_length_counts_utf8_bytes() {
    // Two characters, six bytes: long enough by the byte rule.
    let mut db = empty_db();
    let r = register_user(&mut db, "\u{65e5}\u{672c}", "secret-password", 1);
    assert!(r.is_ok());
}
