use llmos::service_bus::{MessageId, MessageIdGenerator, TopicRouter, TransportError};

#[test]
fn publish_delivers_to_subscriber() {
    let mut router = TopicRouter::new();
    let id = router.subscribe("events");
    assert_eq!(router.route("events").unwrap(), vec![id]);
}

#[test]
fn publish_to_topic_with_no_subscribers_returns_error() {
    let router = TopicRouter::new();
    let err = router.route("nowhere").unwrap_err();
    assert!(matches!(err, TransportError::NoSubscribers(_)));
    assert_eq!(err.message(), "no subscribers for topic: nowhere");
}

#[test]
fn multiple_subscribers_each_receive_a_copy() {
    let mut router = TopicRouter::new();
    let a = router.subscribe("topic-a");
    let b = router.subscribe("topic-a");
    assert_ne!(a, b);
    assert_eq!(router.route("topic-a").unwrap(), vec![a, b]);
}

#[test]
fn message_id_is_unique() {
    let a = MessageId::generate(1_700_000_000_000, 1);
    let b = MessageId::generate(1_700_000_000_000, 2);
    assert_ne!(a, b);
    assert_ne!(MessageId::generate(12, 3), MessageId::generate(1, 23));
}

#[test]
fn message_id_text() {
    assert_eq!(MessageId::generate(1700000000123, 42).as_str(), "msg-1700000000123-42");
    assert_eq!(MessageId::generate(0, 0).as_str(), "msg-0-0");
}

#[test]
fn separate_topics_are_isolated() {
    let mut router = TopicRouter::new();
    let a = router.subscribe("topic-a");
    let b = router.subscribe("topic-b");
    assert_eq!(router.route("topic-a").unwrap(), vec![a]);
    assert_eq!(router.route("topic-b").unwrap(), vec![b]);
}

#[test]
fn transport_error_messages() {
    assert_eq!(TransportError::SendFailed("x".into()).message(), "send failed: x");
    assert_eq!(TransportError::ReceiveFailed("y".into()).message(), "receive failed: y");
    assert_eq!(TransportError::Closed.message(), "transport closed");
}

#[test]
fn generator_ids_take_increasing_sequence_numbers() {
    let mut ids = MessageIdGenerator::new();
    let a = ids.generate(1_700_000_000_000);
    let b = ids.generate(1_700_000_000_000);
    assert_eq!(a.as_str(), "msg-1700000000000-1");
    assert_eq!(b.as_str(), "msg-1700000000000-2");
    assert_ne!(a, b);
}
