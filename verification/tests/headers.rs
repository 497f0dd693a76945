use dstp_relay::headers::{
    forward_headers, forward_method, forwarded_for, header_text, is_hop_by_hop, Header,
};

fn header(name: &str, value: &str) -> Header {
    Header { name: name.to_string(), value: value.as_bytes().to_vec() }
}

#[test]
fn hop_by_hop_headers_are_known() {
    for name in ["host", "Host", "CONNECTION", "Content-Length"] {
        assert!(is_hop_by_hop(name));
    }
    for name in ["content-type", "hosts", "transfer-encoding", ""] {
        assert!(!is_hop_by_hop(name));
    }
}

#[test]
fn forwarded_headers_are_made() {
    let headers = vec![
        header("Host", "127.0.0.1:47834"),
        header("connection", "keep-alive"),
        header("content-length", "3"),
        header("Content-Type", "application/json"),
        header("x-many", "first"),
        header("X-Many", "last"),
        header("bad name", "x"),
        header("bad-value", "a\nb"),
        header("x-dstp-relay", "no"),
    ];
    let map = forward_headers(&headers, "panel.example", &Some("s3".to_string()));
    assert_eq!(map.get("host").unwrap(), "panel.example");
    assert_eq!(map.get("content-type").unwrap(), "application/json");
    assert_eq!(map.get_all("x-many").iter().count(), 1);
    assert_eq!(map.get("x-many").unwrap(), "last");
    assert_eq!(map.get("x-forwarded-for").unwrap(), "127.0.0.1");
    assert_eq!(map.get("x-dstp-relay").unwrap(), "1");
    assert_eq!(map.get("x-dstp-relay-token").unwrap(), "s3");
    assert!(map.get("connection").is_none());
    assert!(map.get("content-length").is_none());
    assert_eq!(map.len(), 6);
}

#[test]
fn the_token_is_sent_only_where_it_is_set() {
    assert!(forward_headers(&vec![], "h", &None).get("x-dstp-relay-token").is_none());
    let map = forward_headers(&vec![], "h", &Some("a\nb".to_string()));
    assert!(map.get("x-dstp-relay-token").is_none());
    let sent = vec![header("x-dstp-relay-token", "game")];
    assert_eq!(forward_headers(&sent, "h", &None).get("x-dstp-relay-token").unwrap(), "game");
    let map = forward_headers(&sent, "h", &Some("relay".to_string()));
    assert_eq!(map.get("x-dstp-relay-token").unwrap(), "relay");
}

#[test]
fn a_host_that_no_header_can_hold_is_left_out() {
    assert!(forward_headers(&vec![header("host", "x")], "a\u{7f}", &None).get("host").is_none());
    assert_eq!(forward_headers(&vec![], "", &None).get("host").unwrap(), "");
}

#[test]
fn the_client_is_named() {
    assert_eq!(forwarded_for(&vec![]), "127.0.0.1");
    let headers = vec![header("X-Forwarded-For", "10.0.0.1"), header("x-forwarded-for", "10.0.0.2")];
    assert_eq!(forwarded_for(&headers), "10.0.0.1");
    assert_eq!(forward_headers(&headers, "h", &None).get("x-forwarded-for").unwrap(), "10.0.0.1");
    let odd = vec![Header { name: "x-forwarded-for".to_string(), value: vec![200] }];
    assert_eq!(forwarded_for(&odd), "127.0.0.1");
    assert_eq!(forward_headers(&odd, "h", &None).get("x-forwarded-for").unwrap(), "127.0.0.1");
}

#[test]
fn header_values_are_read_as_text() {
    assert_eq!(header_text(b"text/html; a\tb").as_deref(), Some("text/html; a\tb"));
    assert_eq!(header_text(b"").as_deref(), Some(""));
    assert_eq!(header_text(&[200]), None);
    assert_eq!(header_text(b"a\nb"), None);
    assert_eq!(header_text(&[127]), None);
}

#[test]
fn methods_are_kept_where_they_are_methods() {
    assert_eq!(forward_method("POST"), "POST");
    assert_eq!(forward_method("X-odd!"), "X-odd!");
    assert_eq!(forward_method("a b"), "GET");
    assert_eq!(forward_method(""), "GET");
    assert_eq!(forward_method("\u{e9}"), "GET");
}

#[test]
fn as_many_headers_fit_as_are_let_through() {
    let mut headers = Vec::new();
    for i in 0..6549 {
        headers.push(header(&format!("x-{}", i), "v"));
    }
    assert_eq!(forward_headers(&headers, "h", &Some("t".to_string())).len(), 6553);
}
