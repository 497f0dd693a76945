use dstp_relay::sync::{fix_quotes, read_payload, shard_of, sync_payload};

#[test]
fn escaped_quotes_are_fixed() {
    assert_eq!(fix_quotes("{\"a\":\"it\\'s\"}"), "{\"a\":\"it's\"}");
    assert_eq!(fix_quotes("\\\\'"), "\\'");
    assert_eq!(fix_quotes("\\'\\'"), "''");
    assert_eq!(fix_quotes("a'b\\"), "a'b\\");
    assert_eq!(fix_quotes(""), "");
}

#[test]
fn payloads_are_read() {
    assert_eq!(sync_payload(b"").unwrap().to_text(), "{}");
    assert_eq!(sync_payload(b"{\"n\":\"it\\'s\"}").unwrap().to_text(), "{\"n\":\"it's\"}");
    assert!(sync_payload(b"{").is_none());
    assert!(sync_payload(b" ").is_none());
    assert_eq!(sync_payload(b"\"a\xffb\"").unwrap().to_text(), "\"a\u{fffd}b\"");
    assert_eq!(read_payload("[1]").unwrap().to_text(), "[1]");
}

#[test]
fn the_shard_is_named_by_a_string() {
    assert_eq!(shard_of(&read_payload("{\"shard_id\":\"m\"}").unwrap()).as_deref(), Some("m"));
    assert_eq!(shard_of(&read_payload("{\"shard_id\":1}").unwrap()), None);
    assert_eq!(shard_of(&read_payload("{}").unwrap()), None);
}
