use dstp_relay::config::Config;
use dstp_relay::headers::Header;
use dstp_relay::json::Json;
use dstp_relay::relay::{
    pass_on, path_and_query, Conclusion, Counters, Forward, Relay, Reply, Request, Step, TunnelSync,
};
use dstp_relay::tunnel::{Incoming, SyncError, SyncOutcome};

fn relay() -> Relay<(), u8> {
    Relay::new(Config {
        upstream: "https://panel.example/".to_string(),
        port: 47834,
        token: Some("s3".to_string()),
    })
}

fn request(method: &str, path: &str, query: Option<&str>, body: &str) -> Request {
    Request {
        method: method.to_string(),
        path: path.to_string(),
        query: query.map(|q| q.to_string()),
        headers: vec![Header { name: "host".to_string(), value: b"127.0.0.1:47834".to_vec() }],
        body: body.as_bytes().to_vec(),
    }
}

fn text(reply: &Reply) -> &str {
    std::str::from_utf8(&reply.body).unwrap()
}

fn counts(counters: &Counters) -> (u64, u64, i64) {
    (counters.requests, counters.errors, counters.last_ok)
}

fn sync(step: Step) -> TunnelSync {
    match step {
        Step::Sync(sync) => sync,
        Step::Forward(_) => panic!("forwarded"),
    }
}

fn reply(conclusion: Conclusion) -> Reply {
    match conclusion {
        Conclusion::Reply(reply) => reply,
        Conclusion::Forward(..) => panic!("forwarded"),
    }
}

fn fallback(conclusion: Conclusion) -> (SyncError, Forward) {
    match conclusion {
        Conclusion::Reply(_) => panic!("answered"),
        Conclusion::Forward(error, out) => (error, out),
    }
}

fn is_forward(step: Step) -> bool {
    matches!(step, Step::Forward(_))
}

const SYNC: &str = "/api/dst/sync";

#[test]
fn the_relay_tells_about_itself() {
    let mut relay = relay();
    relay.counters.last_ok = -5;
    assert!(relay.receive("/api").is_none());
    let reply = relay.receive("/relay-status").unwrap();
    assert_eq!(reply.status, 200);
    assert_eq!(reply.content_type.as_deref(), Some("application/json"));
    assert_eq!(reply.content_length, None);
    assert_eq!(
        text(&reply),
        "{\n  \"errors\": 0,\n  \"lastUpstreamOkAt\": -5,\n  \"listening\": \"http://127.0.0.1:47834\",\n  \"relay\": \"DSTP\",\n  \"requests\": 2,\n  \"upstream\": \"https://panel.example/\"\n}"
    );
    assert!(relay.receive("/").is_some());
    assert!(relay.receive("/relay-status/").is_none());
    assert_eq!(counts(&relay.counters), (4, 0, -5));
    relay.counters.requests = u64::MAX;
    relay.receive("/");
    assert_eq!(relay.counters.requests, 0);
}

#[test]
fn paths_keep_their_query() {
    assert_eq!(path_and_query("/a", &None), "/a");
    assert_eq!(path_and_query("/a", &Some("x=1&y".to_string())), "/a?x=1&y");
    assert_eq!(path_and_query("/a", &Some(String::new())), "/a?");
}

#[test]
fn requests_are_forwarded() {
    let mut relay = relay();
    let out = match relay.handle(&request("PUT", "/a/b", Some("c=d"), "body"), 0) {
        Step::Forward(out) => out,
        Step::Sync(_) => panic!("tunnelled"),
    };
    assert_eq!(out.method, "PUT");
    assert_eq!(out.target, "https://panel.example/a/b?c=d");
    assert_eq!(out.headers.get("host").unwrap(), "panel.example");
    assert_eq!(out.headers.get("x-dstp-relay-token").unwrap(), "s3");
    assert_eq!(out.body.as_deref(), Some(&b"body"[..]));
}

#[test]
fn some_methods_have_no_body() {
    let relay = relay();
    assert!(relay.forward(&request("GET", "/", None, "x")).body.is_none());
    assert!(relay.forward(&request("HEAD", "/", None, "x")).body.is_none());
    assert_eq!(relay.forward(&request("DELETE", "/", None, "")).body, Some(vec![]));
}

#[test]
fn trailing_slashes_make_no_difference() {
    let mut relay = relay();
    for upstream in ["http://a", "http://a/", "http://a//"] {
        relay.config.upstream = upstream.to_string();
        assert_eq!(relay.forward(&request("GET", "/x", None, "")).target, "http://a/x");
    }
}

#[test]
fn syncs_go_through_the_tunnel() {
    let mut relay = relay();
    let asked = request("POST", SYNC, None, "{\"shard_id\":\"m\",\"n\":\"it\\'s\"}");
    assert!(is_forward(relay.handle(&asked, 1)));
    relay.tunnel.connected();
    relay.tunnel.attach(());
    relay.tunnel.handle_ws_message(
        "{\"type\":\"command\",\"shard_id\":\"m\",\"command\":{\"type\":\"a\"}}",
    );
    assert!(is_forward(relay.handle(&request("GET", SYNC, None, "{}"), 1)));
    assert!(is_forward(relay.handle(&request("POST", "/api/dst/sync/", None, "{}"), 1)));
    assert!(is_forward(relay.handle(&request("POST", SYNC, None, "{"), 1)));
    let begun = sync(relay.handle(&asked, 9));
    assert_eq!(
        begun.outgoing.message,
        "{\"data\":{\"n\":\"it's\",\"shard_id\":\"m\"},\"id\":1,\"type\":\"sync\"}"
    );
    assert_eq!(begun.local.len(), 1);
    assert!(relay.tunnel.drain("m").is_empty());
    let data = match relay.tunnel.handle_ws_message("{\"id\":1,\"data\":{\"commands\":[{\"type\":\"b\"}]}}") {
        Incoming::Answer { waiter: 9, data } => data,
        _ => panic!("no answer"),
    };
    let reply = reply(relay.conclude(&asked, begun, SyncOutcome::Answered(data), 77));
    assert_eq!(reply.status, 200);
    assert_eq!(reply.content_type.as_deref(), Some("application/json"));
    assert_eq!(text(&reply), "{\"commands\":[{\"type\":\"a\"},{\"type\":\"b\"}]}");
    assert_eq!(reply.content_length.as_deref(), Some("40"));
    assert_eq!(counts(&relay.counters), (0, 0, 77));
}

#[test]
fn a_failed_sync_is_forwarded() {
    let mut relay = relay();
    relay.tunnel.connected();
    relay.tunnel.attach(());
    for outcome in [SyncOutcome::SendFailed, SyncOutcome::Closed, SyncOutcome::TimedOut] {
        let asked = request("POST", SYNC, Some("a"), "");
        let begun = sync(relay.handle(&asked, 1));
        assert_eq!(begun.local.len(), 0);
        let expected = match outcome {
            SyncOutcome::SendFailed => SyncError::SendFailed,
            SyncOutcome::Closed => SyncError::Closed,
            _ => SyncError::TimedOut,
        };
        let (error, out) = fallback(relay.conclude(&asked, begun, outcome, 5));
        assert_eq!(error, expected);
        assert_eq!(out.method, "POST");
        assert_eq!(out.target, "https://panel.example/api/dst/sync?a");
        assert_eq!(out.headers.get("x-dstp-relay").unwrap(), "1");
        assert_eq!(out.body, Some(vec![]));
    }
    assert_eq!(counts(&relay.counters), (0, 0, 0));
    relay.tunnel.disconnected();
    assert!(relay.try_ws_sync(b"{}", 1).is_none());
    relay.tunnel.connected();
    assert!(is_forward(relay.handle(&request("POST", SYNC, None, "{}"), 1)));
    assert_eq!(relay.tunnel.seq(), 4);
}

#[test]
fn the_answer_of_the_backend_is_passed_on() {
    let mut relay = relay();
    relay.upstream_answered(9);
    assert_eq!(counts(&relay.counters), (0, 0, 9));
    let reply = pass_on(404, &Some(b"text/plain".to_vec()), b"gone".to_vec());
    assert_eq!(reply.status, 404);
    assert_eq!(reply.content_type.as_deref(), Some("text/plain"));
    assert_eq!(reply.content_length.as_deref(), Some("4"));
    assert_eq!(text(&reply), "gone");
    assert_eq!(pass_on(200, &None, vec![]).content_type, None);
    assert_eq!(pass_on(200, &Some(vec![200]), vec![]).content_type, None);
}

#[test]
fn failures_are_counted_and_told() {
    let mut relay = relay();
    let reply = relay.upstream_failed(true, "no \"answer\"");
    assert_eq!(reply.status, 504);
    assert_eq!(reply.content_type.as_deref(), Some("application/json"));
    assert_eq!(reply.content_length, None);
    assert_eq!(text(&reply), "{\"error\":\"relay_upstream_timeout\",\"message\":\"no \\\"answer\\\"\"}");
    let reply = relay.upstream_failed(false, "");
    assert_eq!(reply.status, 502);
    assert_eq!(text(&reply), "{\"error\":\"relay_upstream_unreachable\",\"message\":\"\"}");
    assert_eq!(counts(&relay.counters), (0, 2, 0));
    relay.counters.errors = u64::MAX;
    relay.upstream_failed(false, "");
    assert_eq!(relay.counters.errors, 0);
}

#[test]
fn a_response_that_is_no_object_is_passed_as_it_is() {
    let mut relay = relay();
    relay.tunnel.connected();
    relay.tunnel.attach(());
    let asked = request("POST", SYNC, None, "{\"shard_id\":\"m\"}");
    let begun = sync(relay.handle(&asked, 1));
    let reply = reply(relay.conclude(&asked, begun, SyncOutcome::Answered(Json::Null), 1));
    assert_eq!(text(&reply), "null");
}

#[test]
fn pushed_commands_go_back_once() {
    let mut relay = relay();
    relay.tunnel.connected();
    relay.tunnel.attach(());
    let push = "{\"type\":\"command\",\"shard_id\":\"m\",\"command\":{\"type\":\"a\"}}";
    relay.tunnel.handle_ws_message(push);
    let asked = request("POST", SYNC, None, "{\"shard_id\":\"m\"}");
    let first = sync(relay.handle(&asked, 1));
    relay.tunnel.handle_ws_message(
        "{\"type\":\"command\",\"shard_id\":\"other\",\"command\":{\"type\":\"b\"}}",
    );
    let second = sync(relay.handle(&asked, 2));
    let data = Json::parse("{\"ok\":1}").unwrap();
    let answer = reply(relay.conclude(&asked, second, SyncOutcome::Answered(data), 1));
    assert_eq!(text(&answer), "{\"commands\":[],\"ok\":1}");
    let data = Json::parse("{}").unwrap();
    let answer = reply(relay.conclude(&asked, first, SyncOutcome::Answered(data), 1));
    assert_eq!(text(&answer), "{\"commands\":[{\"type\":\"a\"}]}");
}

#[test]
fn calls_that_take_turns_are_counted() {
    let mut relay = relay();
    relay.tunnel.connected();
    relay.tunnel.attach(());
    let asked = request("POST", SYNC, None, "");
    assert!(relay.receive(SYNC).is_none());
    let first = sync(relay.handle(&asked, 1));
    assert!(relay.receive("/a").is_none());
    assert!(relay.receive("/").is_some());
    relay.upstream_failed(false, "");
    assert!(relay.receive("/b").is_none());
    assert_eq!(counts(&relay.counters), (4, 1, 0));
    fallback(relay.conclude(&asked, first, SyncOutcome::Closed, 5));
    relay.upstream_answered(6);
    relay.upstream_failed(true, "");
    assert_eq!(counts(&relay.counters), (4, 2, 6));
}

#[test]
fn numbers_are_needed_only_for_syncs() {
    let mut relay = relay();
    assert!(relay.try_ws_sync(b"{}", 1).is_none());
    assert_eq!(relay.tunnel.seq(), 0);
    relay.tunnel.connected();
    relay.tunnel.attach(());
    assert!(is_forward(relay.handle(&request("GET", "/x", None, ""), 1)));
    assert_eq!(relay.tunnel.seq(), 0);
    assert!(!relay.may_tunnel(&request("GET", SYNC, None, "")));
    assert!(!relay.may_tunnel(&request("POST", "/x", None, "")));
    assert!(relay.may_tunnel(&request("POST", SYNC, None, "")));
    let begun = relay.try_ws_sync("{\"n\":\"\u{e9}\"}".as_bytes(), 1).unwrap();
    assert_eq!(begun.outgoing.message, "{\"data\":{\"n\":\"\u{e9}\"},\"id\":1,\"type\":\"sync\"}");
}
