use dstp_relay::config::Config;
use dstp_relay::relay::Counters;
use dstp_relay::report::{banner, heartbeat, pad};

#[test]
fn texts_are_padded_and_cut() {
    assert_eq!(pad("ab", 4), "ab  ");
    assert_eq!(pad("abcd", 4), "abcd");
    assert_eq!(pad("abcde", 4), "abcd");
    assert_eq!(pad("", 0), "");
    assert_eq!(pad("a", 0), "");
    assert_eq!(pad("\u{e9}", 3), "\u{e9} ");
    assert_eq!(pad("\u{e9}\u{e9}", 2), "\u{e9}");
}

#[test]
fn the_banner_names_port_and_backend() {
    let config = Config { upstream: "https://panel.example".to_string(), port: 47834, token: None };
    let lines = banner(&config);
    assert_eq!(lines.len(), 13);
    assert_eq!(lines[0], "");
    assert_eq!(lines[4], format!("\u{2551}  Listening:  http://127.0.0.1:{:<31}\u{2551}", 47834));
    assert_eq!(lines[5], format!("\u{2551}  Upstream:   {:<49}\u{2551}", "https://panel.example"));
    assert_eq!(lines[8], format!("\u{2551}    http://127.0.0.1:{:<41}\u{2551}", 47834));
    for i in [1, 2, 3, 5, 6, 7, 9, 10, 11] {
        assert_eq!(lines[i].chars().count(), 65);
    }
}

#[test]
fn the_heartbeat_tells_how_it_goes() {
    let mut counters = Counters { requests: 12, errors: 3, last_ok: 0 };
    assert_eq!(heartbeat(&counters, false, 5), "[relay] 12 req, 3 err, WS down, upstream: never connected");
    counters.last_ok = 1000;
    assert_eq!(
        heartbeat(&counters, true, 4999),
        "[relay] 12 req, 3 err, WS up, upstream: last success 3s ago"
    );
    assert_eq!(
        heartbeat(&counters, true, -1999),
        "[relay] 12 req, 3 err, WS up, upstream: last success -2s ago"
    );
    assert_eq!(
        heartbeat(&counters, true, 1),
        "[relay] 12 req, 3 err, WS up, upstream: last success 0s ago"
    );
    counters.last_ok = i64::MAX;
    assert_eq!(
        heartbeat(&counters, true, -1),
        "[relay] 12 req, 3 err, WS up, upstream: last success -9223372036854775s ago"
    );
}
