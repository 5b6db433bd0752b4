use vstd::prelude::*;

use crate::data::{PrimaryKey, RoomConnection, RoomConnectionId, RoomData, RoomError, RoomMemberData};
use crate::errors::RoomErrorView;
use crate::id::fresh_id_value;
use crate::queue::{
    advanced, backtracked, holds_sink, LinearQueue, LinearQueueItem, TrackId,
};
use crate::queuing::{distinct_tracks, ensure_sinks_for_items, kept_sink};
use crate::sink::SinkId;
use crate::store::SinkStore;

verus! {

/// Whether a room has a player and a queue.
pub enum RoomState<P> {
    Inactive,
    Active { player: P, queue: LinearQueue },
}

/// A turntable room: its data, its state, and the users connected and listening to it.
pub struct Room<P> {
    data: RoomData,
    state: RoomState<P>,
    connections: Vec<RoomConnection>,
}

/// The index of the first member that is the user, or -1.
pub open spec fn member_index(members: Seq<RoomMemberData>, user_id: PrimaryKey) -> int {
    if exists|i: int| 0 <= i < members.len() && (#[trigger] members[i]).user.id == user_id {
        choose|i: int|
            0 <= i < members.len() && (#[trigger] members[i]).user.id == user_id && forall|j: int|
                0 <= j < i ==> (#[trigger] members[j]).user.id != user_id
    } else {
        -1
    }
}

/// The connections other than the given one.
pub open spec fn without_connection(connections: Seq<RoomConnection>, id: u64) -> Seq<RoomConnection> {
    connections.filter(|c: RoomConnection| c.id.spec_value() != id)
}

pub open spec fn has_connection(connections: Seq<RoomConnection>, id: u64) -> bool {
    exists|i: int| 0 <= i < connections.len() && (#[trigger] connections[i]).id.spec_value() == id
}

impl<P> Room<P> {
    pub closed spec fn spec_data(&self) -> RoomData {
        self.data
    }

    pub closed spec fn spec_state(&self) -> &RoomState<P> {
        &self.state
    }

    pub closed spec fn spec_connections(&self) -> Seq<RoomConnection> {
        self.connections@
    }

    /// The queue of an active room.
    pub open spec fn spec_queue(&self) -> LinearQueue {
        match self.spec_state() {
            RoomState::Active { queue, .. } => *queue,
            RoomState::Inactive => arbitrary(),
        }
    }

    pub open spec fn is_active(&self) -> bool {
        self.spec_state() is Active
    }

    /// The room is as `other` but for its queue.
    pub open spec fn same_but_queue(&self, other: &Room<P>) -> bool {
        &&& self.spec_data() == other.spec_data()
        &&& self.spec_connections() == other.spec_connections()
        &&& self.is_active() == other.is_active()
        &&& self.is_active() ==> match (self.spec_state(), other.spec_state()) {
            (RoomState::Active { player: a, .. }, RoomState::Active { player: b, .. }) => a == b,
            _ => false,
        }
    }

    /// Creates an inactive room without connections.
    pub fn new(data: RoomData) -> (room: Self)
        ensures
            room.spec_data() == data,
            !room.is_active(),
            room.spec_connections() == Seq::<RoomConnection>::empty(),
    {
        Room { data, state: RoomState::Inactive, connections: Vec::new() }
    }

    /// Activates the room with its player and queue.
    pub fn activate(&mut self, player: P, queue: LinearQueue)
        ensures
            final(self).spec_state() == (RoomState::Active { player, queue }),
            final(self).spec_data() == old(self).spec_data(),
            final(self).spec_connections() == old(self).spec_connections(),
    {
        self.state = RoomState::Active { player, queue };
    }

    /// Returns true if the room has no player and queue yet, and has to be activated before use.
    pub fn needs_activation(&self) -> (inactive: bool)
        ensures
            inactive == !self.is_active(),
    {
        match self.state {
            RoomState::Inactive => true,
            RoomState::Active { .. } => false,
        }
    }

    /// Returns the currently playing queue item, if any, given the sink the player currently plays.
    pub fn current_item(&self, current_sink: Option<SinkId>) -> (item: Option<LinearQueueItem>)
        ensures
            !self.is_active() ==> item is None,
            self.is_active() && current_sink is None ==> item is None,
            (self.is_active() && current_sink is Some) ==> match item {
                Some(item) => exists|i: int|
                    0 <= i < self.spec_queue().spec_items().len() && self.spec_queue().spec_items()[i] == item
                        && holds_sink(item, current_sink->0) && forall|j: int|
                        0 <= j < i ==> !holds_sink(#[trigger] self.spec_queue().spec_items()[j], current_sink->0),
                None => forall|j: int|
                    0 <= j < self.spec_queue().spec_items().len() ==> !holds_sink(
                        #[trigger] self.spec_queue().spec_items()[j],
                        current_sink->0,
                    ),
            },
    {
        match &self.state {
            RoomState::Inactive => None,
            RoomState::Active { queue, .. } => match current_sink {
                Some(sink) => {
                    assert(*queue == self.spec_queue());
                    queue.get_by_sink_id(sink)
                },
                None => None,
            },
        }
    }

    /// Returns the queue if the room is active.
    pub fn queue(&self) -> (queue: Result<&LinearQueue, RoomError>)
        ensures
            self.is_active() ==> (queue matches Ok(queue) && *queue == self.spec_queue()),
            !self.is_active() ==> (queue matches Err(error) && error@ is RoomNotActive),
    {
        match &self.state {
            RoomState::Inactive => Err(RoomError::RoomNotActive),
            RoomState::Active { queue, .. } => Ok(queue),
        }
    }

    /// Returns the player if the room is active.
    pub fn player(&self) -> (player: Result<&P, RoomError>)
        ensures
            !self.is_active() ==> (player matches Err(error) && error@ is RoomNotActive),
            self.is_active() ==> (player matches Ok(player) && (self.spec_state() matches RoomState::Active {
                player: p,
                ..
            } && *player == p)),
    {
        match &self.state {
            RoomState::Inactive => Err(RoomError::RoomNotActive),
            RoomState::Active { player, .. } => Ok(player),
        }
    }

    /// Applies a change to the queue of an active room.
    fn update_queue(&mut self, change: QueueChange, track_id: TrackId, user_id: PrimaryKey, sink_id: SinkId) -> (result: Result<(), RoomError>)
        ensures
            final(self).same_but_queue(old(self)),
            !old(self).is_active() ==> (result matches Err(error) && error@ is RoomNotActive),
            old(self).is_active() ==> result is Ok && {
                let before = old(self).spec_queue();
                let after = final(self).spec_queue();
                match change {
                    QueueChange::Push => after.spec_items() == before.spec_items().push(
                        LinearQueueItem { user_id, track_id, sink_id: None },
                    ) && after.spec_history() == before.spec_history(),
                    QueueChange::Next => (after.spec_items(), after.spec_history()) == advanced(
                        before.spec_items(),
                        before.spec_history(),
                    ),
                    QueueChange::Previous => (after.spec_items(), after.spec_history()) == backtracked(
                        before.spec_items(),
                        before.spec_history(),
                    ),
                }
            },
    {
        let mut state = RoomState::Inactive;
        std::mem::swap(&mut state, &mut self.state);
        match state {
            RoomState::Inactive => Err(RoomError::RoomNotActive),
            RoomState::Active { player, mut queue } => {
                match change {
                    QueueChange::Push => queue.push(track_id, user_id),
                    QueueChange::Next => queue.next(),
                    QueueChange::Previous => queue.previous(),
                }
                self.state = RoomState::Active { player, queue };
                Ok(())
            },
        }
    }

    /// Queues a track in an active room.
    pub fn push_track(&mut self, track_id: TrackId, user_id: PrimaryKey) -> (result: Result<(), RoomError>)
        ensures
            final(self).same_but_queue(old(self)),
            !old(self).is_active() ==> (result matches Err(error) && error@ is RoomNotActive),
            old(self).is_active() ==> result is Ok && final(self).spec_queue().spec_items()
                == old(self).spec_queue().spec_items().push(LinearQueueItem { user_id, track_id, sink_id: None })
                && final(self).spec_queue().spec_history() == old(self).spec_queue().spec_history(),
    {
        self.update_queue(QueueChange::Push, track_id, user_id, SinkId::none())
    }

    /// Advances the queue of an active room.
    pub fn next(&mut self) -> (result: Result<(), RoomError>)
        ensures
            final(self).same_but_queue(old(self)),
            !old(self).is_active() ==> (result matches Err(error) && error@ is RoomNotActive),
            old(self).is_active() ==> result is Ok && (
                final(self).spec_queue().spec_items(),
                final(self).spec_queue().spec_history(),
            ) == advanced(old(self).spec_queue().spec_items(), old(self).spec_queue().spec_history()),
    {
        self.update_queue(QueueChange::Next, TrackId::none(), 0, SinkId::none())
    }

    /// Backtracks the queue of an active room.
    pub fn previous(&mut self) -> (result: Result<(), RoomError>)
        ensures
            final(self).same_but_queue(old(self)),
            !old(self).is_active() ==> (result matches Err(error) && error@ is RoomNotActive),
            old(self).is_active() ==> result is Ok && (
                final(self).spec_queue().spec_items(),
                final(self).spec_queue().spec_history(),
            ) == backtracked(old(self).spec_queue().spec_items(), old(self).spec_queue().spec_history()),
    {
        self.update_queue(QueueChange::Previous, TrackId::none(), 0, SinkId::none())
    }

    /// Ensures that the items of an active room's queue have sinks before
    /// activation, as `ensure_sinks_for_items` does, and returns the sinks of
    /// the items, in the order of the items.
    pub fn ensure_sinks<T>(&mut self, store: &mut SinkStore<T>, now: u64) -> (result: Result<Vec<SinkId>, RoomError>)
        ensures
            final(self).same_but_queue(old(self)),
            !old(self).is_active() ==> (result matches Err(error) && error@ is RoomNotActive) && final(store)@
                == old(store)@,
            old(self).is_active() ==> (result matches Ok(sinks) && {
                let items = old(self).spec_queue().spec_items();
                &&& sinks@.len() == items.len()
                &&& forall|i: int|
                    0 <= i < sinks@.len() ==> (#[trigger] kept_sink(old(store), items[i]) matches Some(id)
                        ==> sinks@[i] == id)
                &&& forall|i: int|
                    0 <= i < sinks@.len() ==> kept_sink(old(store), items[i]) is None
                        ==> (#[trigger] final(store).sink(sinks@[i])).activation() is Inactive
                &&& forall|i: int| 0 <= i < sinks@.len() ==> final(store).contains(#[trigger] sinks@[i])
                &&& forall|i: int|
                    0 <= i < sinks@.len() ==> (#[trigger] final(self).spec_queue().spec_items()[i]).track_id
                        == items[i].track_id && final(self).spec_queue().spec_items()[i].user_id == items[i].user_id
                &&& distinct_tracks(items) ==> forall|i: int|
                    0 <= i < sinks@.len() ==> (#[trigger] final(self).spec_queue().spec_items()[i]).sink_id == Some(
                        sinks@[i],
                    )
                &&& forall|key: u64| #[trigger] old(store)@.dom().contains(key) ==> final(store)@.dom().contains(key)
                &&& final(self).spec_queue().spec_items().len() == items.len()
                &&& final(self).spec_queue().spec_history().len() == old(self).spec_queue().spec_history().len()
            }),
    {
        let mut state = RoomState::Inactive;
        std::mem::swap(&mut state, &mut self.state);
        match state {
            RoomState::Inactive => Err(RoomError::RoomNotActive),
            RoomState::Active { player, mut queue } => {
                let sinks = ensure_sinks_for_items(&mut queue, store, now);
                self.state = RoomState::Active { player, queue };
                Ok(sinks)
            },
        }
    }

    /// Registers an added member to the room.
    pub fn add_member(&mut self, new_member: RoomMemberData)
        ensures
            final(self).spec_data().members@ == old(self).spec_data().members@.push(new_member),
            final(self).spec_data().id == old(self).spec_data().id,
            final(self).spec_data().slug == old(self).spec_data().slug,
            final(self).spec_data().title == old(self).spec_data().title,
            final(self).spec_data().description == old(self).spec_data().description,
            final(self).spec_state() == old(self).spec_state(),
            final(self).spec_connections() == old(self).spec_connections(),
    {
        self.data.members.push(new_member);
    }

    /// Returns the member that is the given user, if the user is a member of the room.
    pub fn member_by_user_id(&self, user_id: PrimaryKey) -> (member: Result<&RoomMemberData, RoomError>)
        ensures
            ({
                let index = member_index(self.spec_data().members@, user_id);
                &&& index >= 0 ==> (member matches Ok(member) && *member == self.spec_data().members@[index])
                &&& index < 0 ==> (member matches Err(error) && error@ is UserNotInRoom)
            }),
    {
        let ghost members = self.data.members@;
        let mut index: usize = 0;
        while index < self.data.members.len()
            invariant
                index <= members.len(),
                members == self.data.members@,
                forall|j: int| 0 <= j < index ==> (#[trigger] members[j]).user.id != user_id,
            decreases members.len() - index,
        {
            if self.data.members[index].user.id == user_id {
                proof {
                    let chosen = member_index(members, user_id);
                    assert(members[index as int].user.id == user_id);
                    if chosen != index {
                        assert(0 <= chosen < members.len() && members[chosen].user.id == user_id);
                        if chosen < index {
                        } else {
                            assert(members[index as int].user.id != user_id);
                        }
                    }
                }
                return Ok(&self.data.members[index]);
            }
            index = index + 1;
        }
        Err(RoomError::UserNotInRoom)
    }

    /// Adds a connection of a member of the room. Returns its id, or why the user cannot connect.
    pub fn connect(&mut self, user_id: PrimaryKey, source: String) -> (result: Result<RoomConnectionId, RoomError>)
        ensures
            member_index(old(self).spec_data().members@, user_id) < 0 ==> (result matches Err(error)
                && error@ is UserNotInRoom && *final(self) == *old(self)),
            member_index(old(self).spec_data().members@, user_id) >= 0 ==> (result matches Ok(id) && id.spec_value() != 0
                && final(self).spec_connections() == old(self).spec_connections().push(
                RoomConnection { id, user_id, source },
            ) && final(self).spec_data() == old(self).spec_data() && final(self).spec_state() == old(self).spec_state()),
            // The new connection's id differs from the ids of the connections before it.
            result matches Ok(id) ==> (old(self).spec_connections().len() < u64::MAX ==> !has_connection(
                old(self).spec_connections(),
                id.spec_value(),
            )),
    {
        // Ensure the user is actually in the room before doing anything else
        match self.member_by_user_id(user_id) {
            Ok(_) => {},
            Err(error) => return Err(error),
        }
        let mut taken: Vec<u64> = Vec::new();
        let mut index: usize = 0;
        while index < self.connections.len()
            invariant
                index <= self.connections@.len(),
                taken@.len() == index,
                forall|k: int| 0 <= k < index ==> taken@[k] == (#[trigger] self.connections@[k]).id.spec_value(),
            decreases self.connections@.len() - index,
        {
            taken.push(self.connections[index].id.value());
            index = index + 1;
        }
        let value = fresh_id_value(&taken);
        proof {
            if self.connections@.len() < u64::MAX && has_connection(self.connections@, value) {
                let k = choose|k: int| 0 <= k < self.connections@.len() && (#[trigger] self.connections@[k]).id.spec_value() == value;
                assert(taken@[k] == value);
                assert(taken@.contains(value));
            }
        }
        let connection = RoomConnection { id: RoomConnectionId::from_value(value), user_id, source };
        let id = connection.id;
        self.connections.push(connection);
        Ok(id)
    }

    /// Removes a connection, and returns the user and the source it was connected with.
    pub fn remove_connection(&mut self, connection_id: RoomConnectionId) -> (removed: (PrimaryKey, String))
        requires
            has_connection(old(self).spec_connections(), connection_id.spec_value()),
        ensures
            exists|i: int|
                0 <= i < old(self).spec_connections().len() && (#[trigger] old(self).spec_connections()[i]).id.spec_value()
                    == connection_id.spec_value() && removed.0 == old(self).spec_connections()[i].user_id
                    && removed.1@ == old(self).spec_connections()[i].source@,
            final(self).spec_connections() == without_connection(
                old(self).spec_connections(),
                connection_id.spec_value(),
            ),
            final(self).spec_data() == old(self).spec_data(),
            final(self).spec_state() == old(self).spec_state(),
    {
        let ghost all = self.connections@;
        let ghost keep = |c: RoomConnection| c.id.spec_value() != connection_id.spec_value();
        let mut found: Option<(PrimaryKey, String)> = None;
        let mut kept: Vec<RoomConnection> = Vec::new();
        let mut remaining = Vec::new();
        std::mem::swap(&mut remaining, &mut self.connections);
        let mut index: usize = 0;
        assert(all.len() == remaining.len());
        while remaining.len() > 0
            invariant
                all == old(self).spec_connections(),
                keep == (|c: RoomConnection| c.id.spec_value() != connection_id.spec_value()),
                index + remaining@.len() == all.len(),
                all.len() <= usize::MAX,
                remaining@ == all.skip(index as int),
                kept@ == all.take(index as int).filter(keep),
                match found {
                    Some(f) => exists|i: int|
                        0 <= i < index && (#[trigger] all[i]).id.spec_value() == connection_id.spec_value()
                            && f.0 == all[i].user_id && f.1@ == all[i].source@,
                    None => forall|i: int| 0 <= i < index ==> (#[trigger] all[i]).id.spec_value() != connection_id.spec_value(),
                },
                self.data == old(self).spec_data(),
                self.state == *old(self).spec_state(),
            decreases remaining@.len(),
        {
            let connection = remaining.remove(0);
            proof {
                assert(connection == all[index as int]);
                assert(all.take(index + 1) =~= all.take(index as int).push(connection));
                all.take(index as int).lemma_filter_push(connection, keep);
                assert(remaining@ =~= all.skip(index + 1));
            }
            if connection.id.value() == connection_id.value() {
                if found.is_none() {
                    found = Some((connection.user_id, connection.source));
                }
            } else {
                kept.push(connection);
            }
            index = index + 1;
        }
        proof {
            assert(all.take(index as int) =~= all);
        }
        self.connections = kept;
        match found {
            Some(found) => found,
            None => {
                assert(false);
                (0, String::new())
            },
        }
    }

    /// Returns the current connections. This can be the same member multiple times.
    pub fn current_connections(&self) -> (connections: &Vec<RoomConnection>)
        ensures
            connections@ == self.spec_connections(),
    {
        &self.connections
    }

    pub fn data(&self) -> (data: &RoomData)
        ensures
            *data == self.spec_data(),
    {
        &self.data
    }

    pub fn id(&self) -> (id: PrimaryKey)
        ensures
            id == self.spec_data().id,
    {
        self.data.id
    }
}

/// A change to the queue of a room.
pub enum QueueChange {
    Push,
    Next,
    Previous,
}

} // verus!
