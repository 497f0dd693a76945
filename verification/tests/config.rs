use dstp_relay::config::{
    load_config, parse_u16, resolve, Config, Environment, BAKED_PORT, BAKED_UPSTREAM,
};
use dstp_relay::json::Json;

fn bare() -> Environment {
    Environment { upstream: None, port: None, token: None, verbose: None, use_ws: None }
}

fn env(upstream: &str, port: &str, token: &str) -> Environment {
    Environment {
        upstream: Some(upstream.to_string()),
        port: Some(port.to_string()),
        token: Some(token.to_string()),
        verbose: None,
        use_ws: None,
    }
}

fn parts(config: &Config) -> (&str, u16, Option<&str>) {
    (config.upstream.as_str(), config.port, config.token.as_deref())
}

const FILE: &str = "{\"upstream\":\"http://file\",\"port\":81,\"token\":\"f\"}";

#[test]
fn the_baked_values_stand_alone() {
    let config = resolve(&bare(), None);
    assert_eq!(parts(&config), ("https://local.marcosbrendon.com", 47834, None));
    assert_eq!((BAKED_UPSTREAM, BAKED_PORT), ("https://local.marcosbrendon.com", 47834));
}

#[test]
fn the_file_overrides_the_baked_values() {
    let file = Json::parse(FILE).unwrap();
    assert_eq!(parts(&resolve(&bare(), Some(&file))), ("http://file", 81, Some("f")));
}

#[test]
fn the_environment_overrides_the_file() {
    let file = Json::parse(FILE).unwrap();
    let config = resolve(&env("http://env", "82", "e"), Some(&file));
    assert_eq!(parts(&config), ("http://env", 82, Some("e")));
}

#[test]
fn unusable_environment_values_do_not_count() {
    let file = Json::parse(FILE).unwrap();
    for port in ["0", "65536", "", "x", "-1", "+", " 80"] {
        let config = resolve(&env("http://env", port, ""), Some(&file));
        assert_eq!(parts(&config), ("http://env", 81, Some("f")));
    }
    assert_eq!(parts(&resolve(&env("", "x", ""), None)), ("", 47834, None));
}

#[test]
fn unusable_file_values_do_not_count() {
    for file in [
        "{\"upstream\":\"\",\"port\":0,\"token\":\"\"}",
        "{\"upstream\":1,\"port\":65536,\"token\":null}",
        "{\"port\":\"80\"}",
        "{\"port\":-80}",
        "[]",
    ] {
        let json = Json::parse(file).unwrap();
        assert_eq!(
            parts(&resolve(&bare(), Some(&json))),
            ("https://local.marcosbrendon.com", 47834, None)
        );
    }
    let json = Json::parse("{\"port\":65535}").unwrap();
    assert_eq!(resolve(&bare(), Some(&json)).port, 65535);
}

#[test]
fn underscore_fields_are_ignored() {
    let json = Json::parse("{\"_upstream\":\"http://x\",\"_port\":1,\"_comment\":\"y\"}").unwrap();
    assert_eq!(
        parts(&resolve(&bare(), Some(&json))),
        ("https://local.marcosbrendon.com", 47834, None)
    );
}

#[test]
fn ports_are_read_as_numbers() {
    assert_eq!(parse_u16("0"), Some(0));
    assert_eq!(parse_u16("+65535"), Some(65535));
    assert_eq!(parse_u16("00000000080"), Some(80));
    for text in ["", "+", "65536", "99999999999999999999", "-1", "1 ", "1a", "++1", "\u{661}"] {
        assert_eq!(parse_u16(text), None);
        assert!(text.parse::<u16>().is_err());
    }
}

#[test]
fn the_first_usable_file_is_taken() {
    let read = |text: &str| load_config(&bare(), Ok(text.to_string()));
    assert_eq!(load_config(&bare(), Err("gone".to_string())).unwrap_err(), "gone");
    assert_eq!(read("{").unwrap_err(), "EOF while parsing an object at line 1 column 1");
    assert_eq!(parts(&read(FILE).unwrap()), ("http://file", 81, Some("f")));
    assert_eq!(parts(&read("{}").unwrap()), ("https://local.marcosbrendon.com", 47834, None));
    let first = ["x", FILE, "{}"].iter().find_map(|text| read(text).ok()).unwrap();
    assert_eq!(parts(&first), ("http://file", 81, Some("f")));
    let config = load_config(&env("http://env", "82", "e"), Ok(FILE.to_string())).unwrap();
    assert_eq!(parts(&config), ("http://env", 82, Some("e")));
}

#[test]
fn switches_are_read_from_the_environment() {
    let mut environment = bare();
    assert!(!environment.is_verbose());
    assert!(environment.uses_ws());
    environment.verbose = Some("1".to_string());
    environment.use_ws = Some("0".to_string());
    assert!(environment.is_verbose());
    assert!(!environment.uses_ws());
    environment.verbose = Some("true".to_string());
    environment.use_ws = Some("no".to_string());
    assert!(!environment.is_verbose());
    assert!(environment.uses_ws());
}
