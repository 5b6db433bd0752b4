use vstd::prelude::*;
use vstd::string::StringExecFns;

use crate::data::{AuthError, DatabaseError, InputError, RoomError};

verus! {

broadcast use vstd::string::group_string_axioms;

/// `DatabaseError` with its text as character sequences.
pub enum DatabaseErrorView {
    NotFound { resource: Seq<char>, identifier: Seq<char> },
    Conflict { resource: Seq<char>, field: Seq<char>, value: Seq<char> },
    Internal(Seq<char>),
}

impl View for DatabaseError {
    type V = DatabaseErrorView;

    open spec fn view(&self) -> DatabaseErrorView {
        match self {
            DatabaseError::NotFound { resource, identifier } => DatabaseErrorView::NotFound {
                resource: resource@,
                identifier: identifier@,
            },
            DatabaseError::Conflict { resource, field, value } => DatabaseErrorView::Conflict {
                resource: resource@,
                field: field@,
                value: value@,
            },
            DatabaseError::Internal(message) => DatabaseErrorView::Internal(message@),
        }
    }
}

pub open spec fn not_found_message(resource: Seq<char>, identifier: Seq<char>) -> Seq<char> {
    resource + ":"@ + identifier + " not found"@
}

pub open spec fn conflict_message(resource: Seq<char>, field: Seq<char>, value: Seq<char>) -> Seq<char> {
    resource + " with "@ + field + " of value "@ + value + " already exists"@
}

pub open spec fn database_message(error: DatabaseErrorView) -> Seq<char> {
    match error {
        DatabaseErrorView::NotFound { resource, identifier } => not_found_message(resource, identifier),
        DatabaseErrorView::Conflict { resource, field, value } => conflict_message(resource, field, value),
        DatabaseErrorView::Internal(message) => message,
    }
}

fn not_found_text(resource: &str, identifier: &str) -> (text: String)
    ensures
        text@ == not_found_message(resource@, identifier@),
{
    String::from_str(resource).concat(":").concat(identifier).concat(" not found")
}

fn conflict_text(resource: &str, field: &str, value: &str) -> (text: String)
    ensures
        text@ == conflict_message(resource@, field@, value@),
{
    String::from_str(resource).concat(" with ").concat(field).concat(" of value ").concat(value).concat(
        " already exists",
    )
}

impl DatabaseError {
    /// The text of the error.
    pub fn message(&self) -> (message: String)
        ensures
            message@ == database_message(self@),
    {
        match self {
            DatabaseError::NotFound { resource, identifier } => not_found_text(resource, identifier),
            DatabaseError::Conflict { resource, field, value } => conflict_text(resource, field, value.as_str()),
            DatabaseError::Internal(message) => message.clone(),
        }
    }
}

/// `AuthError` with its text as character sequences.
pub enum AuthErrorView {
    InvalidCredentials,
    SuperuserExists,
    Db(DatabaseErrorView),
    HashError(Seq<char>),
}

impl View for AuthError {
    type V = AuthErrorView;

    open spec fn view(&self) -> AuthErrorView {
        match self {
            AuthError::InvalidCredentials => AuthErrorView::InvalidCredentials,
            AuthError::SuperuserExists => AuthErrorView::SuperuserExists,
            AuthError::Db(error) => AuthErrorView::Db(error@),
            AuthError::HashError(message) => AuthErrorView::HashError(message@),
        }
    }
}

pub open spec fn auth_message(error: AuthErrorView) -> Seq<char> {
    match error {
        AuthErrorView::InvalidCredentials => "Invalid credentials"@,
        AuthErrorView::SuperuserExists => "A superuser already exists"@,
        AuthErrorView::Db(error) => database_message(error),
        AuthErrorView::HashError(message) => "HashError: "@ + message,
    }
}

impl AuthError {
    /// The text of the error.
    pub fn message(&self) -> (message: String)
        ensures
            message@ == auth_message(self@),
    {
        match self {
            AuthError::InvalidCredentials => String::from_str("Invalid credentials"),
            AuthError::SuperuserExists => String::from_str("A superuser already exists"),
            AuthError::Db(error) => error.message(),
            AuthError::HashError(message) => String::from_str("HashError: ").concat(message.as_str()),
        }
    }
}

/// `InputError` with its text as character sequences.
pub enum InputErrorView {
    NoMatch,
    Invalid(Seq<char>),
    NotFound,
    Unavailable,
    UnsupportedType,
    FetchError(Seq<char>),
    ParseError(Seq<char>),
    Other(Seq<char>),
}

impl View for InputError {
    type V = InputErrorView;

    open spec fn view(&self) -> InputErrorView {
        match self {
            InputError::NoMatch => InputErrorView::NoMatch,
            InputError::Invalid(message) => InputErrorView::Invalid(message@),
            InputError::NotFound => InputErrorView::NotFound,
            InputError::Unavailable => InputErrorView::Unavailable,
            InputError::UnsupportedType => InputErrorView::UnsupportedType,
            InputError::FetchError(message) => InputErrorView::FetchError(message@),
            InputError::ParseError(message) => InputErrorView::ParseError(message@),
            InputError::Other(message) => InputErrorView::Other(message@),
        }
    }
}

/// `RoomError` with its text as character sequences.
pub enum RoomErrorView {
    RoomNotFound(Seq<char>),
    RoomNotActive,
    UserNotInRoom,
    StreamKeyNotOwn,
    StreamKeyNotFound,
    Database(DatabaseErrorView),
}

impl View for RoomError {
    type V = RoomErrorView;

    open spec fn view(&self) -> RoomErrorView {
        match self {
            RoomError::RoomNotFound(identifier) => RoomErrorView::RoomNotFound(identifier@),
            RoomError::RoomNotActive => RoomErrorView::RoomNotActive,
            RoomError::UserNotInRoom => RoomErrorView::UserNotInRoom,
            RoomError::StreamKeyNotOwn => RoomErrorView::StreamKeyNotOwn,
            RoomError::StreamKeyNotFound => RoomErrorView::StreamKeyNotFound,
            RoomError::Database(error) => RoomErrorView::Database(error@),
        }
    }
}

/// The errors a request to the server can end in.
#[derive(Debug)]
pub enum ServerError {
    // General
    NotFound { resource: &'static str, identifier: String },
    Conflict { resource: &'static str, field: &'static str, value: String },
    Unknown(String),
    // Auth
    InvalidCredentials,
    SuperuserExists,
    // Rooms
    RoomNotActive,
    UserNotInRoom,
    StreamKeyNotOwn,
    StreamKeyNotFound,
    // Inputs
    InputNoMatch,
    InputInvalid(String),
    InputNotFound,
    InputUnavailable,
    UnsupportedInputType,
    InputFetchError,
    InputParseError(String),
}

/// `ServerError` with its text as character sequences.
pub enum ServerErrorView {
    NotFound { resource: Seq<char>, identifier: Seq<char> },
    Conflict { resource: Seq<char>, field: Seq<char>, value: Seq<char> },
    Unknown(Seq<char>),
    InvalidCredentials,
    SuperuserExists,
    RoomNotActive,
    UserNotInRoom,
    StreamKeyNotOwn,
    StreamKeyNotFound,
    InputNoMatch,
    InputInvalid(Seq<char>),
    InputNotFound,
    InputUnavailable,
    UnsupportedInputType,
    InputFetchError,
    InputParseError(Seq<char>),
}

impl View for ServerError {
    type V = ServerErrorView;

    open spec fn view(&self) -> ServerErrorView {
        match self {
            ServerError::NotFound { resource, identifier } => ServerErrorView::NotFound {
                resource: resource@,
                identifier: identifier@,
            },
            ServerError::Conflict { resource, field, value } => ServerErrorView::Conflict {
                resource: resource@,
                field: field@,
                value: value@,
            },
            ServerError::Unknown(message) => ServerErrorView::Unknown(message@),
            ServerError::InvalidCredentials => ServerErrorView::InvalidCredentials,
            ServerError::SuperuserExists => ServerErrorView::SuperuserExists,
            ServerError::RoomNotActive => ServerErrorView::RoomNotActive,
            ServerError::UserNotInRoom => ServerErrorView::UserNotInRoom,
            ServerError::StreamKeyNotOwn => ServerErrorView::StreamKeyNotOwn,
            ServerError::StreamKeyNotFound => ServerErrorView::StreamKeyNotFound,
            ServerError::InputNoMatch => ServerErrorView::InputNoMatch,
            ServerError::InputInvalid(message) => ServerErrorView::InputInvalid(message@),
            ServerError::InputNotFound => ServerErrorView::InputNotFound,
            ServerError::InputUnavailable => ServerErrorView::InputUnavailable,
            ServerError::UnsupportedInputType => ServerErrorView::UnsupportedInputType,
            ServerError::InputFetchError => ServerErrorView::InputFetchError,
            ServerError::InputParseError(message) => ServerErrorView::InputParseError(message@),
        }
    }
}

/// The HTTP status code an error is answered with.
pub open spec fn status_of(error: ServerErrorView) -> u16 {
    match error {
        ServerErrorView::SuperuserExists => 409,
        ServerErrorView::InvalidCredentials => 400,
        ServerErrorView::Conflict { .. } => 409,
        ServerErrorView::NotFound { .. } => 404,
        ServerErrorView::RoomNotActive => 400,
        ServerErrorView::UserNotInRoom => 403,
        ServerErrorView::StreamKeyNotFound => 404,
        ServerErrorView::StreamKeyNotOwn => 403,
        ServerErrorView::InputNotFound => 404,
        ServerErrorView::InputNoMatch => 400,
        ServerErrorView::UnsupportedInputType => 400,
        ServerErrorView::InputInvalid(_) => 400,
        ServerErrorView::InputUnavailable => 400,
        _ => 500,
    }
}

/// HTTP 400 Bad Request.
pub const BAD_REQUEST: u16 = 400;
/// HTTP 403 Forbidden.
pub const FORBIDDEN: u16 = 403;
/// HTTP 404 Not Found.
pub const NOT_FOUND: u16 = 404;
/// HTTP 409 Conflict.
pub const CONFLICT: u16 = 409;
/// HTTP 500 Internal Server Error.
pub const INTERNAL_SERVER_ERROR: u16 = 500;

/// How each error is answered: a clash with something that already exists (a
/// taken name, a second superuser) with Conflict; a missing room, user, stream
/// key or input with Not Found; acting on a room one is not in, or on someone
/// else's stream key, with Forbidden; bad credentials, an inactive room and an
/// input that cannot be used with Bad Request; every other failure, all of them
/// the server's own, with Internal Server Error.
pub proof fn lemma_status_codes(error: ServerErrorView)
    ensures
        (error is Conflict || error is SuperuserExists) ==> status_of(error) == CONFLICT,
        (error is NotFound || error is StreamKeyNotFound || error is InputNotFound) ==> status_of(error) == NOT_FOUND,
        (error is UserNotInRoom || error is StreamKeyNotOwn) ==> status_of(error) == FORBIDDEN,
        (error is InvalidCredentials || error is RoomNotActive || error is InputNoMatch || error is UnsupportedInputType
            || error is InputInvalid || error is InputUnavailable) ==> status_of(error) == BAD_REQUEST,
        (error is Unknown || error is InputFetchError || error is InputParseError) ==> status_of(error)
            == INTERNAL_SERVER_ERROR,
{
}

/// The text of an error.
pub open spec fn server_message(error: ServerErrorView) -> Seq<char> {
    match error {
        ServerErrorView::NotFound { resource, identifier } => not_found_message(resource, identifier),
        ServerErrorView::Conflict { resource, field, value } => conflict_message(resource, field, value),
        ServerErrorView::Unknown(message) => "Unknown internal error: "@ + message,
        ServerErrorView::InvalidCredentials => "Invalid credentials"@,
        ServerErrorView::SuperuserExists => "A superuser already exists"@,
        ServerErrorView::RoomNotActive => "Room is not active"@,
        ServerErrorView::UserNotInRoom => "User is not a member of this room"@,
        ServerErrorView::StreamKeyNotOwn => "User does not own this stream key"@,
        ServerErrorView::StreamKeyNotFound => "Stream key does not exist"@,
        ServerErrorView::InputNoMatch => "Input did not match"@,
        ServerErrorView::InputInvalid(message) => "Input is invalid: "@ + message,
        ServerErrorView::InputNotFound => "Input type is supported but resource was not found"@,
        ServerErrorView::InputUnavailable => "Resource was found but is unavailable"@,
        ServerErrorView::UnsupportedInputType => "Unsupported input type"@,
        ServerErrorView::InputFetchError => "Failed to fetch resource"@,
        ServerErrorView::InputParseError(message) => "Failed to parse resource: "@ + message,
    }
}

/// The server error a database error is answered with.
pub open spec fn from_database_view(error: DatabaseErrorView) -> ServerErrorView {
    match error {
        DatabaseErrorView::NotFound { resource, identifier } => ServerErrorView::NotFound { resource, identifier },
        DatabaseErrorView::Conflict { resource, field, value } => ServerErrorView::Conflict {
            resource,
            field,
            value,
        },
        other => ServerErrorView::Unknown(database_message(other)),
    }
}

impl ServerError {
    /// Returns the HTTP status code the error is answered with.
    pub fn as_status_code(&self) -> (status: u16)
        ensures
            status == status_of(self@),
    {
        match self {
            ServerError::SuperuserExists => 409,
            ServerError::InvalidCredentials => 400,
            ServerError::Conflict { .. } => 409,
            ServerError::NotFound { .. } => 404,
            ServerError::RoomNotActive => 400,
            ServerError::UserNotInRoom => 403,
            ServerError::StreamKeyNotFound => 404,
            ServerError::StreamKeyNotOwn => 403,
            ServerError::InputNotFound => 404,
            ServerError::InputNoMatch => 400,
            ServerError::UnsupportedInputType => 400,
            ServerError::InputInvalid(_) => 400,
            ServerError::InputUnavailable => 400,
            _ => 500,
        }
    }

    /// Returns the text of the error.
    pub fn message(&self) -> (message: String)
        ensures
            message@ == server_message(self@),
    {
        match self {
            ServerError::NotFound { resource, identifier } => not_found_text(resource, identifier.as_str()),
            ServerError::Conflict { resource, field, value } => conflict_text(resource, field, value.as_str()),
            ServerError::Unknown(message) => String::from_str("Unknown internal error: ").concat(
                message.as_str(),
            ),
            ServerError::InvalidCredentials => String::from_str("Invalid credentials"),
            ServerError::SuperuserExists => String::from_str("A superuser already exists"),
            ServerError::RoomNotActive => String::from_str("Room is not active"),
            ServerError::UserNotInRoom => String::from_str("User is not a member of this room"),
            ServerError::StreamKeyNotOwn => String::from_str("User does not own this stream key"),
            ServerError::StreamKeyNotFound => String::from_str("Stream key does not exist"),
            ServerError::InputNoMatch => String::from_str("Input did not match"),
            ServerError::InputInvalid(message) => String::from_str("Input is invalid: ").concat(
                message.as_str(),
            ),
            ServerError::InputNotFound => String::from_str(
                "Input type is supported but resource was not found",
            ),
            ServerError::InputUnavailable => String::from_str("Resource was found but is unavailable"),
            ServerError::UnsupportedInputType => String::from_str("Unsupported input type"),
            ServerError::InputFetchError => String::from_str("Failed to fetch resource"),
            ServerError::InputParseError(message) => String::from_str("Failed to parse resource: ").concat(
                message.as_str(),
            ),
        }
    }

    /// Returns the status code and the body of the response to the error: the
    /// error's text, or a generic one for an internal server error, whose text is
    /// only logged.
    pub fn response(&self) -> (response: (u16, String))
        ensures
            response.0 == status_of(self@),
            response.0 >= 500 ==> response.1@ == "Internal Server Error"@,
            response.0 < 500 ==> response.1@ == server_message(self@),
    {
        let status = self.as_status_code();
        if status >= 500 {
            return (status, String::from_str("Internal Server Error"));
        }
        (status, self.message())
    }

    /// The server error an authentication error is answered with.
    pub fn from_auth(value: AuthError) -> (error: Self)
        ensures
            error@ == match value@ {
                AuthErrorView::InvalidCredentials => ServerErrorView::InvalidCredentials,
                AuthErrorView::SuperuserExists => ServerErrorView::SuperuserExists,
                other => ServerErrorView::Unknown(auth_message(other)),
            },
    {
        match value {
            AuthError::InvalidCredentials => ServerError::InvalidCredentials,
            AuthError::SuperuserExists => ServerError::SuperuserExists,
            e => ServerError::Unknown(e.message()),
        }
    }

    /// The server error a database error is answered with.
    pub fn from_database(value: DatabaseError) -> (error: Self)
        ensures
            error@ == from_database_view(value@),
    {
        match value {
            DatabaseError::NotFound { resource, identifier } => ServerError::NotFound {
                resource,
                identifier: String::from_str(identifier),
            },
            DatabaseError::Conflict { resource, field, value } => ServerError::Conflict { resource, field, value },
            e => ServerError::Unknown(e.message()),
        }
    }

    /// The server error a room error is answered with.
    pub fn from_room(value: RoomError) -> (error: Self)
        ensures
            error@ == match value@ {
                RoomErrorView::RoomNotFound(identifier) => ServerErrorView::NotFound {
                    resource: "room"@,
                    identifier,
                },
                RoomErrorView::RoomNotActive => ServerErrorView::RoomNotActive,
                RoomErrorView::UserNotInRoom => ServerErrorView::UserNotInRoom,
                RoomErrorView::StreamKeyNotFound => ServerErrorView::StreamKeyNotFound,
                RoomErrorView::StreamKeyNotOwn => ServerErrorView::StreamKeyNotOwn,
                RoomErrorView::Database(error) => from_database_view(error),
            },
    {
        match value {
            RoomError::RoomNotFound(identifier) => ServerError::NotFound { resource: "room", identifier },
            RoomError::RoomNotActive => ServerError::RoomNotActive,
            RoomError::UserNotInRoom => ServerError::UserNotInRoom,
            RoomError::StreamKeyNotFound => ServerError::StreamKeyNotFound,
            RoomError::StreamKeyNotOwn => ServerError::StreamKeyNotOwn,
            RoomError::Database(e) => Self::from_database(e),
        }
    }

    /// The server error an input error is answered with.
    pub fn from_input(value: InputError) -> (error: Self)
        ensures
            error@ == match value@ {
                InputErrorView::Invalid(message) => ServerErrorView::InputInvalid(message),
                InputErrorView::FetchError(_) => ServerErrorView::InputFetchError,
                InputErrorView::NoMatch => ServerErrorView::InputNoMatch,
                InputErrorView::NotFound => ServerErrorView::InputNotFound,
                InputErrorView::UnsupportedType => ServerErrorView::UnsupportedInputType,
                InputErrorView::ParseError(message) => ServerErrorView::InputParseError(message),
                InputErrorView::Unavailable => ServerErrorView::InputUnavailable,
                InputErrorView::Other(message) => ServerErrorView::Unknown(message),
            },
    {
        match value {
            InputError::Invalid(e) => ServerError::InputInvalid(e),
            InputError::FetchError(_) => ServerError::InputFetchError,
            InputError::NoMatch => ServerError::InputNoMatch,
            InputError::NotFound => ServerError::InputNotFound,
            InputError::UnsupportedType => ServerError::UnsupportedInputType,
            InputError::ParseError(e) => ServerError::InputParseError(e),
            InputError::Unavailable => ServerError::InputUnavailable,
            InputError::Other(e) => ServerError::Unknown(e),
        }
    }
}

/// A client error's answer tells the client what went wrong, and an internal
/// error's answer hides it.
pub proof fn lemma_internal_errors_are_hidden(error: ServerErrorView)
    ensures
        status_of(error) == 500 <==> (match error {
            ServerErrorView::Unknown(_) | ServerErrorView::InputFetchError | ServerErrorView::InputParseError(_) => true,
            _ => false,
        }),
        400 <= status_of(error) <= 500,
{
}

} // verus!
