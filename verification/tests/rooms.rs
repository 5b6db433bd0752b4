use turntable::data::{RoomData, RoomError, RoomMemberData, UserData};
use turntable::id::Id;
use turntable::queue::LinearQueue;
use turntable::rooms::Room;
use turntable::store::SinkStore;

fn user(id: i32, name: &str) -> UserData {
    UserData {
        id,
        username: name.to_string(),
        password: String::new(),
        display_name: name.to_uppercase(),
        superuser: false,
    }
}

fn room() -> Room<&'static str> {
    Room::new(RoomData {
        id: 9,
        slug: "lobby".to_string(),
        title: "Lobby".to_string(),
        description: None,
        members: vec![RoomMemberData { id: 1, owner: true, user: user(10, "owner") }],
    })
}

#[test]
fn inactive_room_has_no_queue_or_player() {
    let mut room = room();
    assert!(room.needs_activation());
    assert!(matches!(room.queue(), Err(RoomError::RoomNotActive)));
    assert!(matches!(room.player(), Err(RoomError::RoomNotActive)));
    assert!(matches!(room.next(), Err(RoomError::RoomNotActive)));
    assert!(room.current_item(Some(Id::from_value(1))).is_none());
    assert_eq!(room.id(), 9);
}

#[test]
fn active_room_queues_tracks() {
    let mut room = room();
    room.activate("player", LinearQueue::new());
    assert!(!room.needs_activation());
    assert_eq!(*room.player().unwrap(), "player");
    room.push_track(Id::from_value(5), 10).unwrap();
    room.push_track(Id::from_value(6), 10).unwrap();
    room.next().unwrap();
    let (items, history) = room.queue().unwrap().tracks();
    assert_eq!(items.len(), 1);
    assert_eq!(history.len(), 1);
    room.previous().unwrap();
    assert_eq!(room.queue().unwrap().peek().len(), 2);
}

#[test]
fn members_and_connections() {
    let mut room = room();
    assert!(matches!(room.member_by_user_id(11), Err(RoomError::UserNotInRoom)));
    assert!(matches!(room.connect(11, "vlc".to_string()), Err(RoomError::UserNotInRoom)));

    room.add_member(RoomMemberData { id: 2, owner: false, user: user(11, "guest") });
    assert_eq!(room.member_by_user_id(11).unwrap().id, 2);

    let first = room.connect(11, "vlc".to_string()).unwrap();
    let second = room.connect(10, "turntable".to_string()).unwrap();
    assert_eq!(room.current_connections().len(), 2);

    let (user_id, source) = room.remove_connection(first);
    assert_eq!(user_id, 11);
    assert_eq!(source, "vlc");
    assert_eq!(room.current_connections().len(), 1);
    assert_eq!(room.current_connections()[0].id, second);
}

#[test]
fn room_queue_items_get_sinks() {
    let mut store: SinkStore<f32> = SinkStore::new();
    let mut inactive = room();
    assert!(matches!(inactive.ensure_sinks(&mut store, 0), Err(RoomError::RoomNotActive)));

    let mut room = room();
    room.activate("player", LinearQueue::new());
    room.push_track(Id::from_value(5), 10).unwrap();
    room.push_track(Id::from_value(6), 10).unwrap();
    let sinks = room.ensure_sinks(&mut store, 0).unwrap();
    assert_eq!(sinks.len(), 2);
    assert!(store.has(sinks[0]) && store.has(sinks[1]));
    assert!(sinks[0] != sinks[1]);

    let items = room.queue().unwrap().peek();
    assert!(items[0].sink_id.unwrap() == sinks[0]);
    assert!(items[1].sink_id.unwrap() == sinks[1]);

    let again = room.ensure_sinks(&mut store, 1).unwrap();
    assert!(again[0] == sinks[0] && again[1] == sinks[1]);
}

#[test]
fn connections_get_distinct_ids() {
    let mut room = room();
    let mut ids = Vec::new();
    for _ in 0..20 {
        let id = room.connect(10, "vlc".to_string()).unwrap();
        assert!(id.value() != 0);
        assert!(!ids.contains(&id.value()));
        ids.push(id.value());
    }
    assert_eq!(room.current_connections().len(), 20);
}
