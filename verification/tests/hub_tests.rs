use chat_hub::hub::ChatServer;
use chat_hub::hub::ClientMessage;
use chat_hub::hub::Connect;
use chat_hub::hub::Delivery;
use chat_hub::hub::Disconnect;
use chat_hub::hub::Join;
use chat_hub::hub::ListRooms;

fn targets(ds: &Vec<Delivery>) -> Vec<usize> {
    let mut t: Vec<usize> = ds.iter().map(|d| d.to).collect();
    t.sort();
    t
}

fn in_room(hub: &ChatServer, room: &str, id: usize) -> bool {
    hub.rooms
        .iter()
        .any(|r| r.name == room && r.members.contains(&id))
}

#[test]
fn connect_assigns_distinct_ids() {
    let mut hub = ChatServer::new();
    let a = hub.connect(Connect).unwrap();
    let b = hub.connect(Connect).unwrap();
    let c = hub.connect(Connect).unwrap();
    assert_ne!(a, b);
    assert_ne!(a, c);
    assert_ne!(b, c);
    assert!(hub.sessions.contains(&a));
    assert!(hub.sessions.contains(&b));
    assert!(hub.sessions.contains(&c));
}

#[test]
fn disconnect_removes_everywhere() {
    let mut hub = ChatServer::new();
    let a = hub.connect(Connect).unwrap();
    let b = hub.connect(Connect).unwrap();
    hub.join(Join { id: a, name: String::from("general") });
    hub.join(Join { id: b, name: String::from("general") });
    hub.disconnect(Disconnect { id: a });
    assert!(!hub.sessions.contains(&a));
    assert!(hub.rooms.iter().all(|r| !r.members.contains(&a)));
    assert!(hub.sessions.contains(&b));
    assert!(in_room(&hub, "general", b));
}

#[test]
fn disconnect_is_idempotent() {
    let mut hub = ChatServer::new();
    let a = hub.connect(Connect).unwrap();
    hub.disconnect(Disconnect { id: a });
    hub.disconnect(Disconnect { id: a });
    hub.disconnect(Disconnect { id: 424242 });
    assert!(!hub.sessions.contains(&a));
}

#[test]
fn join_moves_between_rooms() {
    let mut hub = ChatServer::new();
    let a = hub.connect(Connect).unwrap();
    hub.join(Join { id: a, name: String::from("room1") });
    assert!(in_room(&hub, "room1", a));
    hub.join(Join { id: a, name: String::from("room2") });
    assert!(in_room(&hub, "room2", a));
    assert!(!in_room(&hub, "room1", a));
    assert!(hub.rooms.iter().filter(|r| r.members.contains(&a)).count() == 1);
}

#[test]
fn join_unknown_id_is_noop() {
    let mut hub = ChatServer::new();
    hub.join(Join { id: 7, name: String::from("ghost") });
    assert!(hub.rooms.iter().all(|r| !r.members.contains(&7)));
    assert_eq!(hub.sessions.len(), 0);
}

#[test]
fn broadcast_excludes_sender() {
    let mut hub = ChatServer::new();
    let a = hub.connect(Connect).unwrap();
    let b = hub.connect(Connect).unwrap();
    let c = hub.connect(Connect).unwrap();
    hub.join(Join { id: a, name: String::from("r") });
    hub.join(Join { id: b, name: String::from("r") });
    hub.join(Join { id: c, name: String::from("r") });
    let ds = hub.client_message(&ClientMessage {
        id: a,
        msg: String::from("payload"),
        room: String::from("r"),
    });
    let mut expect = vec![b, c];
    expect.sort();
    assert_eq!(targets(&ds), expect);
    assert!(ds.iter().all(|d| d.msg.0 == "payload"));
}

#[test]
fn broadcast_unknown_room_is_empty() {
    let mut hub = ChatServer::new();
    let a = hub.connect(Connect).unwrap();
    let ds = hub.client_message(&ClientMessage {
        id: a,
        msg: String::from("x"),
        room: String::from("nowhere"),
    });
    assert!(ds.is_empty());
}

#[test]
fn three_sessions_one_room_scenario() {
    // s1 and s2 share "general"; s1 speaks; only s2 hears it.
    let mut hub = ChatServer::new();
    let s1 = hub.connect(Connect).unwrap();
    let s2 = hub.connect(Connect).unwrap();
    let s3 = hub.connect(Connect).unwrap();
    hub.join(Join { id: s1, name: String::from("general") });
    hub.join(Join { id: s2, name: String::from("general") });
    let ds = hub.client_message(&ClientMessage {
        id: s1,
        msg: String::from("hi"),
        room: String::from("general"),
    });
    assert_eq!(ds.len(), 1);
    assert_eq!(ds[0].to, s2);
    assert_eq!(ds[0].msg.0, "hi");
    assert!(ds.iter().all(|d| d.to != s1 && d.to != s3));
}

#[test]
fn list_rooms_snapshot() {
    let mut hub = ChatServer::new();
    let a = hub.connect(Connect).unwrap();
    let b = hub.connect(Connect).unwrap();
    hub.join(Join { id: a, name: String::from("alpha") });
    hub.join(Join { id: b, name: String::from("beta") });
    let mut names = hub.list_rooms(ListRooms);
    names.sort();
    assert_eq!(names, vec![String::from("alpha"), String::from("beta")]);
}

#[test]
fn pressed_increments_and_broadcasts_to_all() {
    let mut hub = ChatServer::new();
    let a = hub.connect(Connect).unwrap();
    let b = hub.connect(Connect).unwrap();
    let ds = hub.pressed();
    assert_eq!(hub.counter, 1);
    let mut expect = vec![a, b];
    expect.sort();
    assert_eq!(targets(&ds), expect);
    assert!(ds.iter().all(|d| d.msg.0 == "{\"t\":\"count\",\"c\":1}"));
}

#[test]
fn pressed_from_both_orders_reaches_two() {
    // Two sessions each press once, in either arrival order; both end up
    // observing the final broadcast value 2.
    for _order in 0..2 {
        let mut hub = ChatServer::new();
        let a = hub.connect(Connect).unwrap();
        let b = hub.connect(Connect).unwrap();
        // The hub serializes the two commands; either order is the same
        // pair of calls.
        let _first = hub.pressed();
        let last = hub.pressed();
        assert_eq!(hub.counter, 2);
        let mut expect = vec![a, b];
        expect.sort();
        assert_eq!(targets(&last), expect);
        assert!(last.iter().all(|d| d.msg.0 == "{\"t\":\"count\",\"c\":2}"));
    }
}

#[test]
fn pressed_n_times_no_lost_updates() {
    let mut hub = ChatServer::new();
    let n: usize = 5;
    let mut ids = Vec::new();
    for _ in 0..n {
        ids.push(hub.connect(Connect).unwrap());
    }
    let initial = hub.counter;
    for _ in 0..n {
        hub.pressed();
    }
    assert_eq!(hub.counter, initial + n as u64);
}

#[test]
fn broadcast_values_non_decreasing() {
    let mut hub = ChatServer::new();
    let a = hub.connect(Connect).unwrap();
    let mut observed: Vec<String> = Vec::new();
    for _ in 0..4 {
        let ds = hub.pressed();
        for d in ds {
            if d.to == a {
                observed.push(d.msg.0);
            }
        }
    }
    assert_eq!(
        observed,
        vec![
            String::from("{\"t\":\"count\",\"c\":1}"),
            String::from("{\"t\":\"count\",\"c\":2}"),
            String::from("{\"t\":\"count\",\"c\":3}"),
            String::from("{\"t\":\"count\",\"c\":4}"),
        ]
    );
}

#[test]
fn rejoining_same_room_keeps_single_membership() {
    let mut hub = ChatServer::new();
    let a = hub.connect(Connect).unwrap();
    hub.join(Join { id: a, name: String::from("r") });
    hub.join(Join { id: a, name: String::from("r") });
    let room = hub.rooms.iter().find(|r| r.name == "r").unwrap();
    assert_eq!(room.members.iter().filter(|m| **m == a).count(), 1);
}

#[test]
fn pressed_with_no_sessions_still_counts() {
    let mut hub = ChatServer::new();
    let ds = hub.pressed();
    assert!(ds.is_empty());
    assert_eq!(hub.counter, 1);
}

#[test]
fn list_rooms_empty_at_start() {
    let hub = ChatServer::new();
    assert!(hub.list_rooms(ListRooms).is_empty());
}

#[test]
fn empty_room_broadcast_after_everyone_left() {
    let mut hub = ChatServer::new();
    let a = hub.connect(Connect).unwrap();
    hub.join(Join { id: a, name: String::from("r") });
    hub.disconnect(Disconnect { id: a });
    let b = hub.connect(Connect).unwrap();
    let ds = hub.client_message(&ClientMessage {
        id: b,
        msg: String::from("x"),
        room: String::from("r"),
    });
    assert!(ds.is_empty());
}
