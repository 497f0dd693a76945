use dstp_relay::commands::{command_key, merge_commands, merge_response, PushBuffer};
use dstp_relay::json::Json;

fn json(text: &str) -> Json {
    Json::parse(text).unwrap()
}

fn texts(commands: Vec<Json>) -> Vec<String> {
    commands.iter().map(|c| c.to_text()).collect()
}

#[test]
fn keys_tell_commands_apart() {
    assert_eq!(
        command_key(&json("{\"type\":\"say\",\"queued_at\":17,\"data\":{\"b\":1,\"a\":2}}")),
        "say|17|{\"a\":2,\"b\":1}"
    );
    assert_eq!(command_key(&json("{\"queued_at\":\"2024\"}")), "|2024|{}");
    assert_eq!(command_key(&json("{\"type\":7,\"queued_at\":null,\"data\":null}")), "||null");
    assert_eq!(command_key(&json("{\"queued_at\":\"\\\"x\"}")), "|\"x|{}");
    assert_eq!(
        command_key(&json("{\"type\":\"t\",\"queued_at\":\"a\\\"b\",\"data\":{}}")),
        "t|a\"b|{}"
    );
    assert_eq!(command_key(&json("{\"queued_at\":true}")), "|true|{}");
    assert_eq!(command_key(&json("{\"queued_at\":[\"x\"]}")), "|[\"x\"]|{}");
    assert_eq!(command_key(&json("{\"queued_at\":\"\"}")), "||{}");
    assert_eq!(command_key(&json("5")), "||{}");
}

#[test]
fn a_key_has_a_type_a_time_and_data() {
    let key = |text: &str| command_key(&json(text));
    let one = "{\"type\":\"say\",\"queued_at\":-7,\"data\":{}}";
    assert_eq!(key(one), "say|-7|{}");
    assert_eq!(key(one), key("{\"queued_at\":-7,\"type\":\"say\",\"more\":1}"));
    assert_ne!(key(one), key("{\"type\":\"sa\",\"queued_at\":-7}"));
    assert_ne!(key(one), key("{\"type\":\"say\",\"queued_at\":7}"));
    assert_ne!(key(one), key("{\"type\":\"say\",\"queued_at\":-7,\"data\":[]}"));
    let greatest = "{\"type\":\"a\",\"queued_at\":18446744073709551615}";
    assert_eq!(key(greatest), "a|18446744073709551615|{}");
    let least = "{\"type\":\"a\",\"queued_at\":-9223372036854775808}";
    assert_eq!(key(least), "a|-9223372036854775808|{}");
}

#[test]
fn merging_keeps_the_first_place_and_the_last_form() {
    let local = vec![
        json("{\"type\":\"a\",\"from\":\"push\"}"),
        json("{\"type\":\"b\"}"),
    ];
    let remote = vec![
        json("{\"type\":\"c\"}"),
        json("{\"type\":\"a\",\"from\":\"sync\"}"),
        json("{\"type\":\"c\",\"extra\":1}"),
    ];
    assert_eq!(
        texts(merge_commands(local, remote)),
        vec!["{\"from\":\"sync\",\"type\":\"a\"}", "{\"type\":\"b\"}", "{\"extra\":1,\"type\":\"c\"}"]
    );
    assert!(merge_commands(vec![], vec![]).is_empty());
}

#[test]
fn merging_twice_changes_nothing() {
    let once = merge_commands(
        vec![json("{\"type\":\"a\"}"), json("{\"type\":\"a\",\"x\":1}")],
        vec![json("{\"type\":\"b\"}")],
    );
    let before = texts(merge_commands(
        vec![json("{\"type\":\"a\"}"), json("{\"type\":\"a\",\"x\":1}")],
        vec![json("{\"type\":\"b\"}")],
    ));
    assert_eq!(texts(merge_commands(once, vec![])), before);
}

#[test]
fn a_response_carries_the_merged_commands() {
    let answer = merge_response(
        json("{\"ok\":true,\"commands\":[{\"type\":\"b\"}]}"),
        vec![json("{\"type\":\"a\"}")],
    );
    assert_eq!(answer.to_text(), "{\"commands\":[{\"type\":\"a\"},{\"type\":\"b\"}],\"ok\":true}");
    assert_eq!(merge_response(json("{}"), vec![]).to_text(), "{\"commands\":[]}");
    assert_eq!(
        merge_response(json("{\"commands\":5}"), vec![json("1")]).to_text(),
        "{\"commands\":[1]}"
    );
    assert_eq!(merge_response(json("[1]"), vec![json("1")]).to_text(), "[1]");
    assert_eq!(merge_response(json("null"), vec![]).to_text(), "null");
}

#[test]
fn pushed_commands_wait_for_their_shard() {
    let mut buffer = PushBuffer::new();
    buffer.push("a", json("1"));
    buffer.push("b", json("2"));
    buffer.push("a", json("3"));
    assert_eq!(texts(buffer.drain("a")), vec!["1", "3"]);
    assert!(buffer.drain("a").is_empty());
    assert!(buffer.drain("c").is_empty());
    buffer.push("a", json("4"));
    assert_eq!(texts(buffer.drain("b")), vec!["2"]);
    assert_eq!(texts(buffer.drain("a")), vec!["4"]);
}
