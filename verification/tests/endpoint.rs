use dstp_relay::endpoint::{checked_ws_url, tunnel_scheme, upstream_host, ws_url};
use dstp_relay::tunnel::{plan_tunnel, TunnelPlan};

#[test]
fn the_tunnel_address_follows_the_backend() {
    assert_eq!(
        ws_url("https://Panel.example:8443/base?x=1").as_deref(),
        Some("wss://panel.example:8443/api/dst/relay")
    );
    assert_eq!(ws_url("http://127.0.0.1:3000").as_deref(), Some("ws://127.0.0.1:3000/api/dst/relay"));
    assert_eq!(ws_url("https://a.example:443/").as_deref(), Some("wss://a.example/api/dst/relay"));
    assert_eq!(ws_url("https://a.example/#part").as_deref(), Some("wss://a.example/api/dst/relay#part"));
    assert_eq!(ws_url("ftp://a.example/").as_deref(), Some("ws://a.example/api/dst/relay"));
}

#[test]
fn path_and_query_make_no_difference_to_the_tunnel() {
    for rest in ["", "/", "/a/b", "?x=/y", "/a?b?c", "/a%3Fb?#"] {
        let address = ws_url(&format!("https://u:p@panel.example:8443{}", rest)).unwrap();
        let expected = "wss://u:p@panel.example:8443/api/dst/relay";
        assert_eq!(address.trim_end_matches('#'), expected);
    }
    assert_eq!(
        ws_url("http://[::1]:8080/a?b#c?d").as_deref(),
        Some("ws://[::1]:8080/api/dst/relay#c?d")
    );
    assert_eq!(ws_url("http://a.example:443/?").as_deref(), Some("ws://a.example:443/api/dst/relay"));
    assert_eq!(ws_url("wss://a.example:80/x?y").as_deref(), Some("ws://a.example/api/dst/relay"));
    assert_eq!(ws_url("file://a.example/x?y").as_deref(), Some("ws://a.example/api/dst/relay"));
}

#[test]
fn some_backends_have_no_tunnel() {
    assert_eq!(ws_url("no url"), None);
    assert_eq!(ws_url(""), None);
    assert_eq!(ws_url("mailto:a@b.example"), None);
    assert_eq!(ws_url("foo://a.example/"), None);
    assert_eq!(ws_url("file:///tmp"), None);
}

#[test]
fn the_checked_address_is_the_same() {
    assert_eq!(
        checked_ws_url("https://a.example?x"),
        Some(Some("wss://a.example/api/dst/relay".to_string()))
    );
    assert_eq!(checked_ws_url("no url"), Some(None));
    assert_eq!(checked_ws_url("foo:bar"), Some(None));
}

#[test]
fn the_tunnel_is_planned() {
    assert!(matches!(plan_tunnel(false, "https://a.example"), TunnelPlan::Off));
    assert!(matches!(plan_tunnel(true, "no url"), TunnelPlan::Off));
    match plan_tunnel(true, "https://a.example") {
        TunnelPlan::To(url) => assert_eq!(url, "wss://a.example/api/dst/relay"),
        _ => panic!("no plan"),
    }
}

#[test]
fn only_https_is_encrypted() {
    assert_eq!(tunnel_scheme("https"), "wss");
    assert_eq!(tunnel_scheme("http"), "ws");
    assert_eq!(tunnel_scheme("HTTPS"), "ws");
}

#[test]
fn the_host_is_taken_from_the_backend() {
    assert_eq!(upstream_host("https://Panel.example:8443/x"), "panel.example");
    assert_eq!(upstream_host("http://[::1]:80/"), "[::1]");
    assert_eq!(upstream_host("https://u:p@Panel.example?x@y:1"), "panel.example");
    assert_eq!(upstream_host("http://u@[::1]:81#[x]"), "[::1]");
    assert_eq!(upstream_host("http://@a.example"), "a.example");
    assert_eq!(upstream_host("foo://a.example:1/"), "a.example");
    assert_eq!(upstream_host("mailto:a@b.example"), "");
    assert_eq!(upstream_host("no url"), "");
}
