use boxy::events::{
    broadcast_update, conn_step, event_json, Action, ChangeBus, ConnAction, ConnEvent,
};

#[test]
fn event_json_plain_path() {
    let r = event_json(Action::Delete, &"docs/readme.txt".to_string());
    assert_eq!(r, "{\"action\":\"delete\",\"path\":\"docs/readme.txt\"}");
}

#[test]
fn event_json_every_action_tag() {
    let p = "p".to_string();
    assert_eq!(event_json(Action::Upload, &p), "{\"action\":\"upload\",\"path\":\"p\"}");
    assert_eq!(event_json(Action::Folder, &p), "{\"action\":\"folder\",\"path\":\"p\"}");
    assert_eq!(event_json(Action::Rename, &p), "{\"action\":\"rename\",\"path\":\"p\"}");
    assert_eq!(event_json(Action::Move, &p), "{\"action\":\"move\",\"path\":\"p\"}");
    assert_eq!(event_json(Action::Delete, &p), "{\"action\":\"delete\",\"path\":\"p\"}");
    assert_eq!(event_json(Action::Edit, &p), "{\"action\":\"edit\",\"path\":\"p\"}");
}

#[test]
fn event_json_escapes_quotes_backslashes_and_controls() {
    let tricky = "a\"b\\c\nd\te\u{1}f".to_string();
    let r = event_json(Action::Edit, &tricky);
    assert_eq!(r, "{\"action\":\"edit\",\"path\":\"a\\\"b\\\\c\\nd\\te\\u0001f\"}");
}

#[test]
fn subscriber_before_publish_receives_exactly_one_delete_event() {
    let mut bus = ChangeBus::new(100);
    let early = bus.subscribe();
    broadcast_update(&mut bus, Action::Delete, &"docs/readme.txt".to_string());
    let late = bus.subscribe();

    let msg = bus.next_message(early).expect("one event");
    assert_eq!(msg, "{\"action\":\"delete\",\"path\":\"docs/readme.txt\"}");
    assert!(bus.next_message(early).is_none());
    assert!(bus.next_message(late).is_none());
}

#[test]
fn full_queue_drops_its_oldest_message() {
    let mut bus = ChangeBus::new(2);
    let id = bus.subscribe();
    broadcast_update(&mut bus, Action::Upload, &"first".to_string());
    broadcast_update(&mut bus, Action::Upload, &"second".to_string());
    broadcast_update(&mut bus, Action::Upload, &"third".to_string());
    assert_eq!(bus.next_message(id).unwrap(), "{\"action\":\"upload\",\"path\":\"second\"}");
    assert_eq!(bus.next_message(id).unwrap(), "{\"action\":\"upload\",\"path\":\"third\"}");
    assert!(bus.next_message(id).is_none());
}

#[test]
fn unsubscribed_connection_is_gone() {
    let mut bus = ChangeBus::new(10);
    let a = bus.subscribe();
    let b = bus.subscribe();
    bus.unsubscribe(a);
    broadcast_update(&mut bus, Action::Edit, &"x".to_string());
    assert!(bus.next_message(a).is_none());
    assert!(bus.next_message(b).is_some());
}

#[test]
fn connection_loop_decisions() {
    match conn_step(ConnEvent::Bus("hello".to_string())) {
        ConnAction::SendText(t) => assert_eq!(t, "hello"),
        _ => panic!("bus text must be relayed"),
    }
    match conn_step(ConnEvent::Ping(vec![1, 2, 3])) {
        ConnAction::Pong(p) => assert_eq!(p, vec![1, 2, 3]),
        _ => panic!("pings must be answered"),
    }
    assert!(matches!(conn_step(ConnEvent::PeerClosed), ConnAction::Stop));
    assert!(matches!(conn_step(ConnEvent::BusLost), ConnAction::Ignore));
    assert!(matches!(conn_step(ConnEvent::PeerOther), ConnAction::Ignore));
}
