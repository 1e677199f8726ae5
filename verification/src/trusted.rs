//! Declarations this crate trusts about functions of std and of outside
//! crates that vstd gives no specification to. Each item's contract states
//! only what the function's own documentation promises; everything else in
//! the crate is proved against these contracts.

use vstd::prelude::*;

use argon2::password_hash::{PasswordHash, SaltString};
use argon2::{Argon2, PasswordHasher, PasswordVerifier};
use rand_core::OsRng;

verus! {

/// The characters of `s.trim()`: `s` without its leading and trailing
/// Unicode whitespace. Named here because Unicode whitespace is not spelled
/// out in this crate; the contracts below are the only source of facts
/// about it.
pub uninterp spec fn trimmed(s: Seq<char>) -> Seq<char>;

/// Whether `hash` is a PHC string that `PasswordHash::new` parses.
pub uninterp spec fn phc_valid(hash: Seq<char>) -> bool;

/// Whether Argon2's `verify_password` accepts `password` against the PHC
/// string `hash`; a function of the two strings alone.
pub uninterp spec fn argon2_matches(password: Seq<char>, hash: Seq<char>) -> bool;

/// The length in bytes of one character's UTF-8 encoding.
pub open spec fn utf8_char_len(c: char) -> nat {
    if (c as nat) < 0x80 {
        1
    } else if (c as nat) < 0x800 {
        2
    } else if (c as nat) < 0x10000 {
        3
    } else {
        4
    }
}

/// The length in bytes of a string's UTF-8 encoding.
pub open spec fn utf8_len(s: Seq<char>) -> nat
    decreases s.len(),
{
    if s.len() == 0 {
        0
    } else {
        utf8_char_len(s[0]) + utf8_len(s.drop_first())
    }
}

/// Relies on str::trim: the result is the input without leading and
/// trailing whitespace, a function of the characters alone.
#[verifier::external_body]
pub(crate) fn trim_str(s: &str) -> (r: String)
    ensures
        r@ == trimmed(s@),
{
    s.trim().to_owned()
}

/// Relies on str::len: the length of a string slice in bytes, which for
/// UTF-8 is the sum of its characters' encoded lengths.
#[verifier::external_body]
pub(crate) fn utf8_byte_len(s: &str) -> (n: usize)
    ensures
        n == utf8_len(s@),
{
    s.len()
}

/// Relies on password_hash's SaltString::generate (with OsRng) and Argon2's
/// PasswordHasher::hash_password with default parameters: a successful
/// result is a PHC string that parses and that verify_password accepts for
/// the same password. The salt is random, so nothing else is promised.
#[verifier::external_body]
pub(crate) fn argon2_hash(password: &str) -> (r: Result<String, String>)
    ensures
        r matches Ok(h) ==> phc_valid(h@) && argon2_matches(password@, h@),
{
    let salt = SaltString::generate(&mut OsRng);
    match Argon2::default().hash_password(password.as_bytes(), &salt) {
        Ok(h) => Ok(h.to_string()),
        Err(e) => Err(e.to_string()),
    }
}

/// Relies on password_hash's PasswordHash::new and Argon2's
/// PasswordVerifier::verify_password: parsing succeeds exactly on valid PHC
/// strings, and verification of a parsed hash is a function of the password
/// and the hash string alone.
#[verifier::external_body]
pub(crate) fn argon2_verify(password: &str, hash: &str) -> (r: Result<bool, String>)
    ensures
        r is Ok <==> phc_valid(hash@),
        r matches Ok(b) ==> b == argon2_matches(password@, hash@),
{
    match PasswordHash::new(hash) {
        Ok(parsed) => Ok(
            Argon2::default().verify_password(password.as_bytes(), &parsed).is_ok(),
        ),
        Err(e) => Err(e.to_string()),
    }
}

/// Relies on str's `PartialEq`: two string slices are equal exactly when
/// they hold the same characters.
#[verifier::external_body]
pub(crate) fn str_eq(a: &str, b: &str) -> (r: bool)
    ensures
        r == (a@ == b@),
{
    a == b
}

} // verus!
