use turntable::data::{AuthError, DatabaseError, InputError, RoomError};
use turntable::errors::ServerError;

#[test]
fn status_codes() {
    assert_eq!(ServerError::SuperuserExists.as_status_code(), 409);
    assert_eq!(ServerError::InvalidCredentials.as_status_code(), 400);
    assert_eq!(ServerError::UserNotInRoom.as_status_code(), 403);
    assert_eq!(ServerError::StreamKeyNotFound.as_status_code(), 404);
    assert_eq!(ServerError::InputFetchError.as_status_code(), 500);
    assert_eq!(ServerError::Unknown("x".to_string()).as_status_code(), 500);
}

#[test]
fn messages_and_responses() {
    let error = ServerError::NotFound { resource: "room", identifier: "7".to_string() };
    assert_eq!(error.message(), "room:7 not found");
    assert_eq!(error.response(), (404, "room:7 not found".to_string()));

    let error = ServerError::Conflict { resource: "user", field: "username", value: "bob".to_string() };
    assert_eq!(error.message(), "user with username of value bob already exists");

    let error = ServerError::Unknown("boom".to_string());
    assert_eq!(error.message(), "Unknown internal error: boom");
    assert_eq!(error.response(), (500, "Internal Server Error".to_string()));

    assert_eq!(ServerError::InputInvalid("x".to_string()).message(), "Input is invalid: x");
}

#[test]
fn conversions() {
    assert!(matches!(ServerError::from_auth(AuthError::InvalidCredentials), ServerError::InvalidCredentials));
    assert!(matches!(ServerError::from_auth(AuthError::SuperuserExists), ServerError::SuperuserExists));
    match ServerError::from_auth(AuthError::HashError("bad".to_string())) {
        ServerError::Unknown(message) => assert_eq!(message, "HashError: bad"),
        other => panic!("unexpected {:?}", other),
    }
    match ServerError::from_database(DatabaseError::NotFound { resource: "user", identifier: "id" }) {
        ServerError::NotFound { resource, identifier } => {
            assert_eq!(resource, "user");
            assert_eq!(identifier, "id");
        }
        other => panic!("unexpected {:?}", other),
    }
    match ServerError::from_room(RoomError::RoomNotFound("3".to_string())) {
        ServerError::NotFound { resource, identifier } => {
            assert_eq!(resource, "room");
            assert_eq!(identifier, "3");
        }
        other => panic!("unexpected {:?}", other),
    }
    assert!(matches!(
        ServerError::from_input(InputError::FetchError("timeout".to_string())),
        ServerError::InputFetchError
    ));
    match ServerError::from_input(InputError::Other("x".to_string())) {
        ServerError::Unknown(message) => assert_eq!(message, "x"),
        other => panic!("unexpected {:?}", other),
    }
}
