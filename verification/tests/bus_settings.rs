use zbus::bus::{check_get_payload, classify_payload, reading_timestamp, Bus, GetFailure, Reception};
use zbus::fuzzy::is_novel;
use zbus::input::socket_url_check;

fn ready(address: &str) -> bool {
    let mut b = Bus::init(address.to_string());
    b.state()
}

#[test]
fn garbage_address_is_not_ready() {
    let mut b = Bus::init("garbage".to_string());
    assert!(!b.state());
    assert_eq!(b.address(), "garbage");
    assert!(!b.client_mode());
    assert!(!b.multicast_scouting());
    assert!(b.connect_endpoints().is_empty());
}

#[test]
fn endpoint_needs_text_on_both_sides_of_slash() {
    assert!(!ready("tcp/"));
    assert!(!ready("/127.0.0.1:7447"));
    assert!(ready("udp/x"));
}

#[test]
fn endpoint_metadata_and_config_forms() {
    assert!(ready("tcp/a?b"));
    assert!(!ready("tcp/a?"));
    assert!(ready("tcp/a#c"));
    assert!(!ready("tcp/a#"));
    assert!(ready("tcp/a?b#c"));
    assert!(!ready("tcp/a#c?b"));
    assert!(!ready("tcp/a?#c"));
    assert!(!ready("tcp?x/a"));
}

#[test]
fn ready_bus_settings() {
    let b = Bus::init("tcp/127.0.0.1:7447".to_string());
    assert!(b.client_mode());
    assert!(!b.multicast_scouting());
    assert_eq!(b.connect_endpoints(), vec!["tcp/127.0.0.1:7447".to_string()]);
}

#[test]
fn payload_classes() {
    assert_eq!(classify_payload(&[0xff, 0xfe]), Reception::NotText);
    assert_eq!(classify_payload(b"x"), Reception::NotJson);
    assert_eq!(classify_payload(b"{}"), Reception::NoValue);
    assert_eq!(classify_payload(br#"{"value":1}"#), Reception::NoTimestamp);
    assert_eq!(classify_payload(br#"{"value":1,"ts":1.5}"#), Reception::TimestampNotInteger);
    assert_eq!(classify_payload(br#"{"value":"a","ts":1}"#), Reception::ValueNotNumeric);
    assert_eq!(classify_payload(br#"{"value":2.5,"ts":7}"#), Reception::Reading);
    assert_eq!(classify_payload(br#"{"value":3,"ts":7}"#), Reception::Reading);
}

#[test]
fn socket_url_accepted() {
    assert_eq!(socket_url_check("http://www.example.com/data"), Ok(()));
    assert_eq!(socket_url_check("https://example.org"), Ok(()));
}

#[test]
fn socket_url_refused_with_message() {
    assert_eq!(
        socket_url_check("not a url"),
        Err("input::socket() url error: not a url".to_string())
    );
    assert_eq!(socket_url_check(""), Err("input::socket() url error: ".to_string()));
}

#[test]
fn novelty_against_held_texts() {
    let held = vec!["kitten".to_string(), "sitting".to_string()];
    assert!(!is_novel(3, &"kitten".to_string(), &held));
    assert!(is_novel(4, &"kitten".to_string(), &held));
    assert!(is_novel(1, &"x".to_string(), &vec![]));
    assert!(!is_novel(0, &"x".to_string(), &vec![]));
}

#[test]
fn timestamp_of_reading_payload() {
    assert_eq!(reading_timestamp(br#"{"value":2.5,"ts":7}"#), Some(7));
    assert_eq!(reading_timestamp(br#"{"ts":7,"value":-1}"#), Some(7));
    assert_eq!(reading_timestamp(br#"{"value":"a","ts":7}"#), None);
    assert_eq!(reading_timestamp(br#"{"value":1,"ts":1.5}"#), None);
    assert_eq!(reading_timestamp(b"x"), None);
}

#[test]
fn payload_keys_are_not_swapped() {
    assert_eq!(classify_payload(br#"{"ts":2.5,"value":7}"#), Reception::TimestampNotInteger);
    assert_eq!(classify_payload(br#"{"ts":"a","value":7}"#), Reception::TimestampNotInteger);
    assert_eq!(classify_payload(br#"{"value":7}"#), Reception::NoTimestamp);
    assert_eq!(classify_payload(br#"[1,2]"#), Reception::NoValue);
}

#[test]
fn get_payload_checks() {
    assert_eq!(check_get_payload(br#"{"a":1,"b":[true]}"#), Ok(r#"{"a":1,"b":[true]}"#.to_string()));
    assert_eq!(check_get_payload(b"{}"), Ok("{}".to_string()));
    assert!(matches!(check_get_payload(&[0x61, 0xff]), Err(GetFailure::NotText(_))));
    assert!(matches!(check_get_payload(b"[1,2]"), Err(GetFailure::NotObject(_))));
    assert!(matches!(check_get_payload(b"42"), Err(GetFailure::NotObject(_))));
    assert!(matches!(check_get_payload(b"not json"), Err(GetFailure::NotObject(_))));
}

#[test]
fn get_payload_errors_carry_the_decoder_text() {
    match check_get_payload(&[0x61, 0xff]) {
        Err(GetFailure::NotText(e)) => assert!(e.contains("valid_up_to: 1")),
        other => panic!("unexpected {:?}", other),
    }
}
