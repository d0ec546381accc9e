use zbus::bus::{feed_decision, FeedOutcome};
use zbus::bus::{collect_done, collect_step, is_bus_key, BusKey, CollectError, CollectStep, Reception};

#[test]
fn key_parts_are_last_three() {
    let k = BusKey::parse("zbus/metric/v1/local/localhost/answer");
    assert_eq!(k.platform, "local");
    assert_eq!(k.src, "localhost");
    assert_eq!(k.skey, "answer");
}

#[test]
fn three_part_key() {
    let k = BusKey::parse("p/s/k");
    assert_eq!((k.platform.as_str(), k.src.as_str(), k.skey.as_str()), ("p", "s", "k"));
}

#[test]
fn key_shape() {
    assert!(is_bus_key("a/b/c"));
    assert!(is_bus_key("//"));
    assert!(!is_bus_key("a/b"));
    assert!(!is_bus_key("plain"));
}

#[test]
fn collect_counts_readings() {
    assert_eq!(collect_step(0, 2, Reception::Reading), CollectStep::Record { collected: 1 });
    assert_eq!(collect_step(1, 2, Reception::Lost), CollectStep::Skip);
    assert_eq!(collect_step(1, 2, Reception::NotText), CollectStep::Skip);
    assert_eq!(collect_step(1, 2, Reception::NotJson), CollectStep::Skip);
    assert_eq!(collect_step(1, 2, Reception::NoValue), CollectStep::Skip);
}

#[test]
fn collect_stops_on_bad_samples() {
    assert_eq!(collect_step(0, 5, Reception::NoTimestamp), CollectStep::Fail(CollectError::Timestamp));
    assert_eq!(
        collect_step(0, 5, Reception::TimestampNotInteger),
        CollectStep::Fail(CollectError::Timestamp)
    );
    assert_eq!(
        collect_step(0, 5, Reception::ValueNotNumeric),
        CollectStep::Fail(CollectError::NotNumeric)
    );
}

#[test]
fn collect_finishes_at_n() {
    assert!(!collect_done(1, 2));
    assert!(collect_done(2, 2));
    assert!(collect_done(0, 0));
    assert!(collect_done(0, -3));
}

#[test]
fn bus_for_valid_endpoint_is_ready() {
    let mut b = zbus::bus::Bus::init("tcp/127.0.0.1:7447".to_string());
    assert!(b.state());
    assert_eq!(b.address(), "tcp/127.0.0.1:7447");
}

#[test]
fn bus_for_bad_endpoint_is_not_ready() {
    let mut b = zbus::bus::Bus::init("no endpoint here".to_string());
    assert!(!b.state());
    assert_eq!(b.address(), "no endpoint here");
}

#[test]
fn feed_decisions() {
    assert_eq!(feed_decision(true, true, true), FeedOutcome::Store);
    assert_eq!(feed_decision(false, true, true), FeedOutcome::MissingValue);
    assert_eq!(feed_decision(true, false, false), FeedOutcome::BadTimestamp);
    assert_eq!(feed_decision(true, true, false), FeedOutcome::BadTimestamp);
}
