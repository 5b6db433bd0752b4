use vstd::prelude::*;

use crate::id::Id;

verus! {

/// The type used for primary keys in the database.
pub type PrimaryKey = i32;

/// A turntable account
#[derive(Debug, Clone)]
pub struct UserData {
    pub id: PrimaryKey,
    pub username: String,
    pub password: String,
    pub display_name: String,
    pub superuser: bool,
}

/// A turntable room
#[derive(Debug, Clone)]
pub struct RoomData {
    pub id: PrimaryKey,
    /// A slug used to identify the room
    pub slug: String,
    pub title: String,
    pub description: Option<String>,
    pub members: Vec<RoomMemberData>,
}

/// A member of a room
#[derive(Debug, Clone)]
pub struct RoomMemberData {
    pub id: PrimaryKey,
    /// If this is true, the member has full control over the room
    pub owner: bool,
    pub user: UserData,
}

/// An invitation to a room and account creation
#[derive(Debug, Clone)]
pub struct RoomInviteData {
    pub id: PrimaryKey,
    /// The unique token identifier of the invite
    pub token: String,
    pub room: RoomData,
    pub inviter: UserData,
}

/// A stream key is used to access the audio stream of a room
/// Note: `source`, `room_id`, and `user_id` are unique together.
#[derive(Debug, Clone)]
pub struct StreamKeyData {
    pub id: PrimaryKey,
    /// The unique token used to identify the stream key
    pub token: String,
    /// What app or source this stream key is being used from.
    /// Example: VLC, turntable, etc
    pub source: String,
    /// The room this stream key
    pub room_id: PrimaryKey,
    /// The user this stream key belongs to
    pub user_id: PrimaryKey,
}

/// The ways a database operation fails.
#[derive(Debug, Clone, PartialEq, Eq)]
pub enum DatabaseError {
    /// The requested resource does not exist.
    NotFound { resource: &'static str, identifier: &'static str },
    /// A resource with the same unique value already exists.
    Conflict { resource: &'static str, field: &'static str, value: String },
    /// Anything else that went wrong in the database, by its message.
    Internal(String),
}

/// Username and password given at login
#[derive(Debug)]
pub struct Credentials {
    pub username: String,
    pub password: String,
}

/// A user to register, with the password in plain text
#[derive(Debug)]
pub struct NewPlainUser {
    pub username: String,
    pub password: String,
    pub display_name: String,
}

#[derive(Debug, Clone, PartialEq, Eq)]
pub enum AuthError {
    /// Username or password is incorrect
    InvalidCredentials,
    SuperuserExists,
    /// Something else went wrong with the database
    Db(DatabaseError),
    HashError(String),
}

#[derive(Debug, Clone, PartialEq, Eq)]
pub enum InputError {
    NoMatch,
    Invalid(String),
    NotFound,
    Unavailable,
    UnsupportedType,
    FetchError(String),
    ParseError(String),
    Other(String),
}

#[derive(Debug, Clone, PartialEq, Eq)]
pub enum RoomError {
    RoomNotFound(String),
    RoomNotActive,
    UserNotInRoom,
    StreamKeyNotOwn,
    StreamKeyNotFound,
    Database(DatabaseError),
}

/// Marks the ids of [RoomConnection]s.
#[derive(Debug, Hash)]
pub struct RoomConnectionKind;

pub type RoomConnectionId = Id<RoomConnectionKind>;

/// Represents a user's presence in a room
#[derive(Debug, Clone)]
pub struct RoomConnection {
    pub id: RoomConnectionId,
    pub user_id: PrimaryKey,
    /// Same as StreamKey source.
    pub source: String,
}

impl RoomConnection {
    pub fn new(user_id: PrimaryKey, source: String) -> (connection: Self)
        ensures
            connection.id.spec_value() != 0,
            connection.user_id == user_id,
            connection.source == source,
    {
        RoomConnection { id: RoomConnectionId::new(), user_id, source }
    }
}

} // verus!
