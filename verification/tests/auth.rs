use turntable::auth::{authenticate, hash_new_password, random_string};
use turntable::data::{AuthError, DatabaseError, UserData};

fn user(password: String) -> UserData {
    UserData {
        id: 3,
        username: "alice".to_string(),
        password,
        display_name: "Alice".to_string(),
        superuser: false,
    }
}

#[test]
fn random_strings_are_alphanumeric() {
    let text = random_string(32);
    assert_eq!(text.chars().count(), 32);
    assert!(text.chars().all(|c| c.is_ascii_alphanumeric()));
    assert_eq!(random_string(0), "");
}

#[test]
fn login_checks_the_password() {
    let hash = hash_new_password("hunter2").expect("hashes");
    let found = authenticate(Ok(user(hash.clone())), "hunter2").expect("logs in");
    assert_eq!(found.id, 3);
    assert!(matches!(authenticate(Ok(user(hash)), "wrong"), Err(AuthError::InvalidCredentials)));
}

#[test]
fn login_errors() {
    assert!(matches!(
        authenticate(Err(DatabaseError::NotFound { resource: "user", identifier: "username" }), "x"),
        Err(AuthError::InvalidCredentials)
    ));
    match authenticate(Err(DatabaseError::Internal("down".to_string())), "x") {
        Err(AuthError::Db(error)) => assert_eq!(error, DatabaseError::Internal("down".to_string())),
        _ => panic!("expected a database error"),
    }
    assert!(matches!(authenticate(Ok(user("not a hash".to_string())), "x"), Err(AuthError::HashError(_))));
}
