use vstd::prelude::*;

use crate::data::{RoomConnection as CollabRoomConnection, RoomInviteData, RoomMemberData, StreamKeyData, UserData};
use crate::player::PlayerState as CorePlayerState;

verus! {

/// The public form of a user
#[derive(Debug)]
pub struct User {
    pub id: i32,
    pub username: String,
    pub display_name: String,
}

/// The answer to a successful login
#[derive(Debug)]
pub struct LoginResult {
    pub token: String,
    pub user: User,
}

#[derive(Debug)]
pub struct RoomMember {
    pub id: i32,
    pub owner: bool,
    pub user: User,
}

#[derive(Debug)]
pub struct RoomConnection {
    pub user_id: i32,
    pub source: String,
}

#[derive(Debug)]
pub struct RoomInvite {
    pub token: String,
    pub inviter: User,
    pub room_title: String,
}

#[derive(Debug)]
pub struct StreamKey {
    pub id: i32,
    pub token: String,
    pub source: String,
    pub room_id: i32,
    pub user_id: i32,
}

#[derive(Debug, Clone, Copy, PartialEq, Eq, Structural)]
pub enum PlayerState {
    Idle,
    Playing,
    Buffering,
}

/// Helper trait to convert any type into a serialized version
pub trait ToSerialized<T> {
    fn to_serialized(&self) -> T;
}

impl<I, O> ToSerialized<Vec<O>> for Vec<I>
    where I: ToSerialized<O>
{
    fn to_serialized(&self) -> (result: Vec<O>)
        ensures
            result@.len() == self@.len(),
            forall|i: int| 0 <= i < self@.len() ==> call_ensures(<I as ToSerialized<O>>::to_serialized, (&self@[i],), #[trigger] result@[i]),
    {
        let mut result = Vec::new();
        let mut i: usize = 0;
        while i < self.len()
            invariant
                i <= self@.len(),
                result@.len() == i,
                forall|k: int| 0 <= k < i ==> call_ensures(<I as ToSerialized<O>>::to_serialized, (&self@[k],), #[trigger] result@[k]),
            decreases self@.len() - i,
        {
            let item = self[i].to_serialized();
            result.push(item);
            i = i + 1;
        }
        result
    }
}

impl ToSerialized<User> for UserData {
    fn to_serialized(&self) -> (user: User)
        ensures
            user.id == self.id,
            user.username@ == self.username@,
            user.display_name@ == self.display_name@,
    {
        User { id: self.id, username: self.username.clone(), display_name: self.display_name.clone() }
    }
}

/// The answer to a login that opened a session with `token` for `user`.
pub fn login_result(token: &String, user: &UserData) -> (result: LoginResult)
    ensures
        result.token@ == token@,
        result.user.id == user.id,
        result.user.username@ == user.username@,
        result.user.display_name@ == user.display_name@,
{
    LoginResult { token: token.clone(), user: user.to_serialized() }
}

impl ToSerialized<RoomMember> for RoomMemberData {
    fn to_serialized(&self) -> (member: RoomMember)
        ensures
            member.id == self.id,
            member.owner == self.owner,
            member.user.id == self.user.id,
            member.user.username@ == self.user.username@,
            member.user.display_name@ == self.user.display_name@,
    {
        RoomMember { id: self.id, owner: self.owner, user: self.user.to_serialized() }
    }
}

impl ToSerialized<RoomConnection> for CollabRoomConnection {
    fn to_serialized(&self) -> (connection: RoomConnection)
        ensures
            connection.user_id == self.user_id,
            connection.source@ == self.source@,
    {
        RoomConnection { user_id: self.user_id, source: self.source.clone() }
    }
}

impl ToSerialized<StreamKey> for StreamKeyData {
    fn to_serialized(&self) -> (key: StreamKey)
        ensures
            key.id == self.id,
            key.token@ == self.token@,
            key.source@ == self.source@,
            key.room_id == self.room_id,
            key.user_id == self.user_id,
    {
        StreamKey {
            id: self.id,
            token: self.token.clone(),
            source: self.source.clone(),
            room_id: self.room_id,
            user_id: self.user_id,
        }
    }
}

impl ToSerialized<RoomInvite> for RoomInviteData {
    fn to_serialized(&self) -> (invite: RoomInvite)
        ensures
            invite.token@ == self.token@,
            invite.inviter.id == self.inviter.id,
            invite.inviter.username@ == self.inviter.username@,
            invite.inviter.display_name@ == self.inviter.display_name@,
            invite.room_title@ == self.room.title@,
    {
        RoomInvite {
            token: self.token.clone(),
            inviter: self.inviter.to_serialized(),
            room_title: self.room.title.clone(),
        }
    }
}

impl ToSerialized<PlayerState> for CorePlayerState {
    fn to_serialized(&self) -> (state: PlayerState)
        ensures
            state == match self {
                CorePlayerState::Idle => PlayerState::Idle,
                CorePlayerState::Playing => PlayerState::Playing,
                CorePlayerState::Buffering => PlayerState::Buffering,
            },
    {
        match self {
            CorePlayerState::Idle => PlayerState::Idle,
            CorePlayerState::Playing => PlayerState::Playing,
            CorePlayerState::Buffering => PlayerState::Buffering,
        }
    }
}

} // verus!
