use chat_events::events::{EncodedEvent, Event, EventBody, MailBoxType, MessageRecord};
use chat_events::wire::encode;

#[test]
fn new_message_wire_shape() {
    let e = Event::new_message(MessageRecord {
        id: 1,
        channel_id: 0x67e5504410b1426f9247bb680e5fe0c8,
        json: "{\"id\":\"x\"}".to_string(),
    })
    .stamp(1000);
    assert_eq!(
        encode(&e),
        "{\"mailbox\":\"67e55044-10b1-426f-9247-bb680e5fe0c8\",\"mailboxType\":\"CHANNEL\",\
         \"timestamp\":1000,\"type\":\"NEW_MESSAGE\",\"message\":{\"id\":\"x\"}}"
    );
}

#[test]
fn message_deleted_wire_shape() {
    let e = Event::message_deleted(0, u128::MAX).stamp(i64::MIN);
    assert_eq!(
        encode(&e),
        "{\"mailbox\":\"00000000-0000-0000-0000-000000000000\",\"mailboxType\":\"CHANNEL\",\
         \"timestamp\":-9223372036854775808,\"type\":\"MESSAGE_DELETED\",\
         \"messageId\":\"ffffffff-ffff-ffff-ffff-ffffffffffff\"}"
    );
}

#[test]
fn initialized_wire_shape() {
    let e = Event::initialized(0x10, MailBoxType::Channel, i64::MAX);
    let enc = EncodedEvent::new(e);
    assert_eq!(
        enc.encoded,
        "{\"mailbox\":\"00000000-0000-0000-0000-000000000010\",\"mailboxType\":\"CHANNEL\",\
         \"timestamp\":9223372036854775807,\"type\":\"INITIALIZED\"}"
    );
    assert!(matches!(enc.event.body, EventBody::Initialized));
}

#[test]
fn heartbeat_wire_shapes() {
    let single = Event {
        mailbox: 2,
        mailbox_type: MailBoxType::Channel,
        timestamp: 0,
        body: EventBody::Heartbeat { user_id: 0xa },
    };
    assert_eq!(
        encode(&single),
        "{\"mailbox\":\"00000000-0000-0000-0000-000000000002\",\"mailboxType\":\"CHANNEL\",\
         \"timestamp\":0,\"type\":\"HEARTBEAT\",\"userId\":\"00000000-0000-0000-0000-00000000000a\"}"
    );
    let map = Event::push_heartbeat_map(2, vec![(1, 5), (2, -5)]).stamp(9);
    assert_eq!(
        encode(&map),
        "{\"mailbox\":\"00000000-0000-0000-0000-000000000002\",\"mailboxType\":\"CHANNEL\",\
         \"timestamp\":9,\"type\":\"HEARTBEAT_MAP\",\"heartbeatMap\":{\
         \"00000000-0000-0000-0000-000000000001\":5,\"00000000-0000-0000-0000-000000000002\":-5}}"
    );
    let empty = Event::push_heartbeat_map(2, vec![]).stamp(9);
    assert!(encode(&empty).ends_with("\"heartbeatMap\":{}}"));
}

#[test]
fn cache_key_names_mailbox() {
    assert_eq!(
        Event::cache_key(0x67e5504410b1426f9247bb680e5fe0c8),
        "mailbox:67e55044-10b1-426f-9247-bb680e5fe0c8:events"
    );
}
