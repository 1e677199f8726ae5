//! User-account management: registration and login over the collection
//! store, with Argon2 password hashing behind the trusted wrappers in
//! `trusted`.

use vstd::prelude::*;

use crate::database::Database;
use crate::merge::{first_user_idx, has_username};
use crate::models::UserPublic;
use crate::trusted::{argon2_hash, argon2_matches, argon2_verify, phc_valid, trim_str, trimmed,
    utf8_byte_len, utf8_len};

verus! {

/// A username is too short when its trimmed form is under 3 bytes of UTF-8.
pub open spec fn username_too_short(username: Seq<char>) -> bool {
    utf8_len(trimmed(username)) < 3
}

/// A password is too short when it is under 6 bytes of UTF-8.
pub open spec fn password_too_short(password: Seq<char>) -> bool {
    utf8_len(password) < 6
}

/// Registers a new account: the username is trimmed and must be at least 3
/// bytes, the password at least 6; the trimmed username must be free. The
/// stored record carries an Argon2 hash of the password and `created_at`
/// (epoch seconds, supplied by the caller); nothing changes on failure.
///
/// The one failure not pinned down here is the hashing call itself: when it
/// fails, its message is returned and the store is left unchanged.
pub fn register_user(
    db: &mut Database,
    username: &str,
    password: &str,
    created_at: i64,
) -> (r: Result<UserPublic, String>)
    ensures
        username_too_short(username@) ==> (r matches Err(m) && m@ == "Username too short"@
            && final(db)@ == old(db)@),
        !username_too_short(username@) && password_too_short(password@) ==> (r matches Err(m)
            && m@ == "Password too short"@ && final(db)@ == old(db)@),
        !username_too_short(username@) && !password_too_short(password@) && has_username(
            old(db)@.users,
            trimmed(username@),
        ) ==> (r matches Err(m) && m@ == "USER_EXISTS"@ && final(db)@ == old(db)@),
        !username_too_short(username@) && !password_too_short(password@) && !has_username(
            old(db)@.users,
            trimmed(username@),
        ) ==> match r {
            Ok(p) => {
                &&& p@ == trimmed(username@)
                &&& final(db)@.users.len() == old(db)@.users.len() + 1
                &&& final(db)@.users == old(db)@.users.push(final(db)@.users.last())
                &&& final(db)@.users.last().username == trimmed(username@)
                &&& final(db)@.users.last().created_at == created_at
                &&& phc_valid(final(db)@.users.last().password_hash)
                &&& argon2_matches(password@, final(db)@.users.last().password_hash)
                &&& final(db)@.items == old(db)@.items
                &&& final(db)@.items_by_user == old(db)@.items_by_user
            },
            Err(_) => final(db)@ == old(db)@,
        },
{
    let u = trim_str(username);
    if utf8_byte_len(u.as_str()) < 3 {
        return Err("Username too short".to_owned());
    }
    if utf8_byte_len(password) < 6 {
        return Err("Password too short".to_owned());
    }
    if db.find_user(u.as_str()).is_some() {
        return Err("USER_EXISTS".to_owned());
    }
    match argon2_hash(password) {
        Ok(hash) => {
            let public = UserPublic { username: u.clone() };
            let record = crate::models::UserRecord {
                username: u,
                password_hash: hash,
                created_at,
            };
            let ghost record_v = record@;
            match db.add_user(record) {
                Ok(()) => {
                    proof {
                        assert(db@.users.last() == record_v);
                    }
                    Ok(public)
                },
                Err(e) => Err(e),
            }
        },
        Err(e) => Err(e),
    }
}

/// Logs an account in: the trimmed username must name a stored record whose
/// hash accepts the password. An unknown username or a rejected password
/// fails with `INVALID_CREDENTIALS`; a stored hash that is not a valid PHC
/// string fails with the parser's message.
pub fn login_user(db: &Database, username: &str, password: &str) -> (r: Result<
    UserPublic,
    String,
>)
    ensures
        !has_username(db@.users, trimmed(username@)) ==> (r matches Err(m) && m@
            == "INVALID_CREDENTIALS"@),
        has_username(db@.users, trimmed(username@)) ==> {
            let rec = db@.users[first_user_idx(db@.users, trimmed(username@))];
            &&& !phc_valid(rec.password_hash) ==> r is Err
            &&& phc_valid(rec.password_hash) && argon2_matches(password@, rec.password_hash)
                ==> (r matches Ok(p) && p@ == trimmed(username@))
            &&& phc_valid(rec.password_hash) && !argon2_matches(password@, rec.password_hash)
                ==> (r matches Err(m) && m@ == "INVALID_CREDENTIALS"@)
        },
{
    let u = trim_str(username);
    match db.find_user(u.as_str()) {
        None => Err("INVALID_CREDENTIALS".to_owned()),
        Some(record) => {
            match argon2_verify(password, record.password_hash.as_str()) {
                Ok(true) => Ok(UserPublic { username: u }),
                Ok(false) => Err("INVALID_CREDENTIALS".to_owned()),
                Err(e) => Err(e),
            }
        },
    }
}

} // verus!
