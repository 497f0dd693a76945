use dstp_relay::json::Json;
use dstp_relay::tunnel::{
    Backoff, Frame, Incoming, LinkAction, LinkEvent, SyncError, SyncOutcome, Tunnel,
};

fn json(text: &str) -> Json {
    Json::parse(text).unwrap()
}

fn open() -> Tunnel<&'static str, u8> {
    let mut tunnel = Tunnel::new();
    tunnel.connected();
    tunnel.attach("sender");
    tunnel
}

fn delay(action: LinkAction<u8>) -> u64 {
    match action {
        LinkAction::Wait(ms) => ms,
        _ => panic!("no wait"),
    }
}

#[test]
fn waits_double_up_to_the_longest() {
    let mut backoff = Backoff::new();
    let waits: Vec<u64> = (0..8).map(|_| backoff.next_delay()).collect();
    assert_eq!(waits, vec![1000, 2000, 4000, 8000, 16000, 30000, 30000, 30000]);
    backoff.reset();
    assert_eq!(backoff.next_delay(), 1000);
}

#[test]
fn the_connection_is_kept_up() {
    let mut tunnel: Tunnel<&str, u8> = Tunnel::new();
    let mut backoff = Backoff::new();
    assert!(matches!(tunnel.connect_ws(&mut backoff, LinkEvent::Due), LinkAction::Connect));
    assert_eq!(delay(tunnel.connect_ws(&mut backoff, LinkEvent::Refused)), 1000);
    assert_eq!(delay(tunnel.connect_ws(&mut backoff, LinkEvent::Refused)), 2000);
    assert!(matches!(tunnel.connect_ws(&mut backoff, LinkEvent::Opened), LinkAction::Attach));
    assert!(tunnel.is_ws_ready());
    assert!(tunnel.sender().is_none());
    assert!(matches!(
        tunnel.connect_ws(&mut backoff, LinkEvent::Attached("s")),
        LinkAction::Read(Incoming::Ignored)
    ));
    assert_eq!(tunnel.sender(), Some(&"s"));
    assert!(matches!(
        tunnel.connect_ws(&mut backoff, LinkEvent::Arrived(Frame::Other)),
        LinkAction::Read(Incoming::Ignored)
    ));
    tunnel.begin_sync(json("{}"), 1).unwrap();
    assert_eq!(delay(tunnel.connect_ws(&mut backoff, LinkEvent::Arrived(Frame::End))), 1000);
    assert!(!tunnel.is_ws_ready());
    assert!(tunnel.sender().is_none());
    assert!(matches!(tunnel.handle_ws_message("{\"id\":1}"), Incoming::Ignored));
}

#[test]
fn syncs_are_numbered_and_answered() {
    let mut tunnel = open();
    let first = tunnel.begin_sync(json("{\"a\":1}"), 11).unwrap();
    let second = tunnel.begin_sync(json("[]"), 22).unwrap();
    assert_eq!((first.id, second.id, tunnel.seq()), (1, 2, 2));
    assert_eq!(first.message, "{\"data\":{\"a\":1},\"id\":1,\"type\":\"sync\"}");
    match tunnel.handle_ws_message("{\"id\":2,\"data\":{\"x\":1}}") {
        Incoming::Answer { waiter, data } => {
            assert_eq!(waiter, 22);
            assert_eq!(data.to_text(), "{\"x\":1}");
        }
        _ => panic!("no answer"),
    }
    assert!(matches!(tunnel.handle_ws_message("{\"id\":2}"), Incoming::Ignored));
    match tunnel.take_message(json("{\"id\":1}")) {
        Incoming::Answer { waiter, data } => {
            assert_eq!(waiter, 11);
            assert!(matches!(data, Json::Null));
        }
        _ => panic!("no answer"),
    }
}

#[test]
fn answers_find_their_syncs_in_any_order() {
    let mut tunnel = open();
    let push = "{\"type\":\"command\",\"shard_id\":\"m\",\"command\":1,\"id\":2}";
    assert_eq!(tunnel.begin_sync(json("1"), 11).unwrap().id, 1);
    assert_eq!(tunnel.begin_sync(json("1"), 22).unwrap().id, 2);
    assert!(matches!(tunnel.handle_ws_message(push), Incoming::Pushed { .. }));
    assert_eq!(tunnel.begin_sync(json("1"), 33).unwrap().id, 3);
    assert_eq!(tunnel.drain("m").len(), 1);
    assert!(matches!(tunnel.handle_ws_message("{\"id\":3}"), Incoming::Answer { waiter: 33, .. }));
    assert!(tunnel.finish_sync(1, SyncOutcome::TimedOut).is_err());
    assert!(tunnel.drain("m").is_empty());
    assert_eq!(tunnel.begin_sync(json("1"), 44).unwrap().id, 4);
    assert!(matches!(tunnel.handle_ws_message("{\"id\":1}"), Incoming::Ignored));
    assert!(matches!(tunnel.handle_ws_message("{\"id\":2}"), Incoming::Answer { waiter: 22, .. }));
    assert!(matches!(tunnel.handle_ws_message("{\"id\":9}"), Incoming::Ignored));
    tunnel.disconnected();
    tunnel.connected();
    tunnel.attach("sender");
    assert!(matches!(tunnel.handle_ws_message("{\"id\":4}"), Incoming::Ignored));
    assert_eq!(tunnel.begin_sync(json("1"), 55).unwrap().id, 5);
    assert!(matches!(tunnel.handle_ws_message("{\"id\":5}"), Incoming::Answer { waiter: 55, .. }));
}

#[test]
fn syncs_need_a_connection() {
    let mut tunnel: Tunnel<&str, u8> = Tunnel::new();
    assert_eq!(tunnel.begin_sync(json("1"), 1).unwrap_err(), SyncError::NotReady);
    assert_eq!(tunnel.seq(), 0);
    tunnel.connected();
    assert_eq!(tunnel.begin_sync(json("1"), 1).unwrap_err(), SyncError::NotReady);
    assert_eq!(tunnel.seq(), 1);
    assert!(matches!(tunnel.handle_ws_message("{\"id\":1}"), Incoming::Ignored));
}

#[test]
fn syncs_end_in_one_of_four_ways() {
    let mut tunnel = open();
    for outcome in [SyncOutcome::SendFailed, SyncOutcome::TimedOut] {
        let id = tunnel.begin_sync(json("1"), 1).unwrap().id;
        let failed = matches!(outcome, SyncOutcome::SendFailed);
        let error = tunnel.finish_sync(id, outcome).unwrap_err();
        assert_eq!(error, if failed { SyncError::SendFailed } else { SyncError::TimedOut });
        assert!(matches!(tunnel.take_message(json(&format!("{{\"id\":{}}}", id))), Incoming::Ignored));
    }
    let id = tunnel.begin_sync(json("1"), 1).unwrap().id;
    assert_eq!(tunnel.finish_sync(id, SyncOutcome::Closed).unwrap_err(), SyncError::Closed);
    let answer = tunnel.finish_sync(id, SyncOutcome::Answered(json("5"))).unwrap();
    assert_eq!(answer.to_text(), "5");
}

#[test]
fn errors_have_names() {
    assert_eq!(SyncError::NotReady.text(), "ws_not_ready");
    assert_eq!(SyncError::SendFailed.text(), "ws_send_failed");
    assert_eq!(SyncError::Closed.text(), "websocket_closed");
    assert_eq!(SyncError::TimedOut.text(), "ws_timeout");
}

#[test]
fn commands_are_pushed() {
    let mut tunnel = open();
    let push = "{\"type\":\"command\",\"shard_id\":\"m\",\"command\":{\"type\":\"say\"},\"id\":1}";
    tunnel.begin_sync(json("1"), 7).unwrap();
    match tunnel.handle_ws_message(push) {
        Incoming::Pushed { kind, shard } => assert_eq!((kind.as_str(), shard.as_str()), ("say", "m")),
        _ => panic!("no push"),
    }
    match tunnel.handle_ws_message("{\"type\":\"command\",\"shard_id\":\"m\",\"command\":null}") {
        Incoming::Pushed { kind, .. } => assert_eq!(kind, "?"),
        _ => panic!("no push"),
    }
    tunnel.disconnected();
    let commands: Vec<String> = tunnel.drain("m").iter().map(|c| c.to_text()).collect();
    assert_eq!(commands, vec!["{\"type\":\"say\"}", "null"]);
    assert!(tunnel.drain("m").is_empty());
}

#[test]
fn an_incomplete_push_counts_as_an_answer() {
    let mut tunnel = open();
    tunnel.begin_sync(json("1"), 7).unwrap();
    let text = "{\"type\":\"command\",\"shard_id\":\"m\",\"id\":1,\"data\":2}";
    assert!(matches!(tunnel.handle_ws_message(text), Incoming::Answer { waiter: 7, .. }));
    assert!(tunnel.drain("m").is_empty());
}

#[test]
fn frames_are_taken_in() {
    let mut tunnel = open();
    tunnel.begin_sync(json("1"), 7).unwrap();
    assert!(matches!(tunnel.take_frame(Frame::Binary(vec![0xff])), Incoming::Ignored));
    assert!(matches!(tunnel.take_frame(Frame::Other), Incoming::Ignored));
    assert!(matches!(tunnel.take_frame(Frame::End), Incoming::Ended));
    match tunnel.take_frame(Frame::Text("{".to_string())) {
        Incoming::Malformed(reason) => {
            assert_eq!(reason, "EOF while parsing an object at line 1 column 1")
        }
        _ => panic!("not refused"),
    }
    let bytes = "{\"id\":1,\"data\":\"\u{e9}\"}".as_bytes().to_vec();
    match tunnel.take_frame(Frame::Binary(bytes)) {
        Incoming::Answer { waiter, data } => {
            assert_eq!(waiter, 7);
            assert_eq!(data.as_str(), Some("\u{e9}"));
        }
        _ => panic!("no answer"),
    }
    assert!(matches!(tunnel.take_frame(Frame::Text("{\"id\":-1}".to_string())), Incoming::Ignored));
}
