use vstd::prelude::*;

use argon2::password_hash::{PasswordHash, PasswordHasher, PasswordVerifier, SaltString};
use argon2::Argon2;
use rand::Rng;

use crate::data::{AuthError, DatabaseError, UserData};
use crate::errors::{AuthErrorView, DatabaseErrorView};
use crate::text::push_char;

verus! {

/// How many days a session lasts.
pub const SESSION_DURATION_IN_DAYS: usize = 7;

/// The character is an ASCII letter or digit.
pub open spec fn is_alphanumeric(c: char) -> bool {
    ('a' <= c <= 'z') || ('A' <= c <= 'Z') || ('0' <= c <= '9')
}

/// `rng.sample(Alphanumeric) as char` on the thread-local generator of `rand`,
/// which draws from the ASCII letters and digits. Which one it draws depends on chance.
#[verifier::external_body]
fn random_alphanumeric() -> (c: char)
    ensures
        is_alphanumeric(c),
{
    rand::thread_rng().sample(rand::distributions::Alphanumeric) as char
}

/// Returns a random string of `length` ASCII letters and digits.
pub fn random_string(length: usize) -> (text: String)
    ensures
        text@.len() == length,
        forall|i: int| 0 <= i < length ==> is_alphanumeric(#[trigger] text@[i]),
{
    let mut text = String::new();
    let mut index: usize = 0;
    while index < length
        invariant
            index <= length,
            text@.len() == index,
            forall|i: int| 0 <= i < index ==> is_alphanumeric(#[trigger] text@[i]),
        decreases length - index,
    {
        let c = random_alphanumeric();
        push_char(&mut text, c);
        index = index + 1;
    }
    text
}

/// Whether `PasswordHash::new` of `password_hash` accepts the text as a hash in the PHC string format.
pub uninterp spec fn password_hash_parses(stored: Seq<char>) -> bool;

/// The message of the error `PasswordHash::new` of `password_hash` ends in for the text.
pub uninterp spec fn password_hash_error(stored: Seq<char>) -> Seq<char>;

/// Whether the Argon2 verifier with default parameters accepts the password for the parsed hash.
pub uninterp spec fn password_matches(password: Seq<char>, stored: Seq<char>) -> bool;

/// `PasswordHash::new` of `password_hash` (the PHC string format, default encoding):
/// whether the text parses, and the text of the error when it does not. Both
/// depend on the text alone.
#[verifier::external_body]
fn parse_password_hash(stored: &str) -> (parsed: Result<(), String>)
    ensures
        parsed is Ok <==> password_hash_parses(stored@),
        parsed matches Err(message) ==> message@ == password_hash_error(stored@),
{
    match PasswordHash::new(stored) {
        Ok(_) => Ok(()),
        Err(e) => Err(e.to_string()),
    }
}

/// `Argon2::default().verify_password` of `argon2`, on the password's bytes and
/// the parsed hash: whether the password hashes, with the hash's salt and
/// parameters, to the hash. This depends on the password and the hash alone.
#[verifier::external_body]
fn verify_password(password: &str, stored: &str) -> (verified: bool)
    requires
        password_hash_parses(stored@),
    ensures
        verified == password_matches(password@, stored@),
{
    match PasswordHash::new(stored) {
        Ok(hash) => Argon2::default().verify_password(password.as_bytes(), &hash).is_ok(),
        Err(_) => false,
    }
}

/// `Argon2::default().hash_password` of `argon2`, on the password's bytes and a
/// salt that `SaltString::generate` draws from the operating system's generator:
/// the hash in the PHC string format, or the text of the error. The salt depends
/// on chance, so the hash itself is left unsaid; what the crate's documentation
/// shows of it is stated: the hash parses with `PasswordHash::new`, and
/// `Argon2::default().verify_password` accepts the password for it.
#[verifier::external_body]
fn hash_with_random_salt(password: &str) -> (hashed: Result<String, String>)
    ensures
        hashed matches Ok(hash) ==> password_hash_parses(hash@) && password_matches(password@, hash@),
{
    let salt = SaltString::generate(&mut rand::rngs::OsRng);
    match Argon2::default().hash_password(password.as_bytes(), &salt) {
        Ok(hash) => Ok(hash.to_string()),
        Err(e) => Err(e.to_string()),
    }
}

/// The outcome of a login attempt for the user that the username lookup found.
pub open spec fn login_outcome(found: Result<UserData, DatabaseErrorView>, password: Seq<char>) -> Result<
    UserData,
    AuthErrorView,
> {
    match found {
        Err(DatabaseErrorView::NotFound { .. }) => Err(AuthErrorView::InvalidCredentials),
        Err(error) => Err(AuthErrorView::Db(error)),
        Ok(user) => if !password_hash_parses(user.password@) {
            Err(AuthErrorView::HashError(password_hash_error(user.password@)))
        } else if !password_matches(password, user.password@) {
            Err(AuthErrorView::InvalidCredentials)
        } else {
            Ok(user)
        },
    }
}

pub open spec fn lookup_view(found: &Result<UserData, DatabaseError>) -> Result<UserData, DatabaseErrorView> {
    match found {
        Ok(user) => Ok(*user),
        Err(error) => Err(error@),
    }
}

pub open spec fn auth_result_view(result: &Result<UserData, AuthError>) -> Result<UserData, AuthErrorView> {
    match result {
        Ok(user) => Ok(*user),
        Err(error) => Err(error@),
    }
}

/// Checks a password against the user that the lookup by username found: an
/// unknown user and a wrong password are both invalid credentials.
pub fn authenticate(found: Result<UserData, DatabaseError>, password: &str) -> (result: Result<UserData, AuthError>)
    ensures
        auth_result_view(&result) == login_outcome(lookup_view(&found), password@),
{
    let user = match found {
        Ok(user) => user,
        Err(DatabaseError::NotFound { .. }) => return Err(AuthError::InvalidCredentials),
        Err(error) => return Err(AuthError::Db(error)),
    };

    match parse_password_hash(user.password.as_str()) {
        Ok(()) => {},
        Err(message) => return Err(AuthError::HashError(message)),
    }

    if !verify_password(password, user.password.as_str()) {
        return Err(AuthError::InvalidCredentials);
    }

    Ok(user)
}

/// Hashes the password of a new user with a fresh salt.
pub fn hash_new_password(password: &str) -> (hashed: Result<String, AuthError>)
    ensures
        hashed matches Err(error) ==> error@ is HashError,
        hashed matches Ok(hash) ==> password_hash_parses(hash@) && password_matches(password@, hash@),
{
    match hash_with_random_salt(password) {
        Ok(hash) => Ok(hash),
        Err(message) => Err(AuthError::HashError(message)),
    }
}

/// A user stored with a hash of a password, as `hash_new_password` makes it, logs
/// in with that password: authenticating gives the user back.
pub proof fn lemma_registered_password_logs_in(user: UserData, password: Seq<char>)
    ensures
        password_hash_parses(user.password@) && password_matches(password, user.password@) ==> login_outcome(
            Ok(user),
            password,
        ) == Ok::<UserData, AuthErrorView>(user),
{
}

} // verus!
