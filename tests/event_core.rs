use chat_events::event_bus::{EventBus, Received};
use chat_events::event_log::EventLog;
use chat_events::events::{
    ChannelRecord, EncodedEvent, Event, EventBody, MailBoxType, MessageRecord, PendingEvent, Preview,
};
use chat_events::heartbeat::HeartbeatTracker;
use chat_events::producer::dispatch;
use std::sync::Arc;

const CHAN_1: u128 = 0xc4a1;
const SENDER: u128 = 0x5e;

fn message(id: u128, channel_id: u128) -> MessageRecord {
    MessageRecord { id, channel_id, json: format!("{{\"text\":\"m{}\"}}", id) }
}

fn preview(id: u128, sender_id: u128, mailbox: u128, text: &str) -> PendingEvent {
    Event::message_preview(Preview {
        id,
        sender_id,
        mailbox,
        mailbox_type: MailBoxType::Channel,
        json: format!("{{\"text\":\"{}\"}}", text),
    })
}

fn preview_json(e: &EncodedEvent) -> Option<&str> {
    match &e.event.body {
        EventBody::MessagePreview { preview } => Some(preview.json.as_str()),
        _ => None,
    }
}

fn message_id(e: &EncodedEvent) -> Option<u128> {
    match &e.event.body {
        EventBody::NewMessage { message } => Some(message.id),
        _ => None,
    }
}

#[test]
fn end_to_end_new_message() {
    let mut log = EventLog::new();
    let mut bus = EventBus::new(16);
    let sub = bus.subscribe(CHAN_1).unwrap();
    let x: u128 = 0xabc;
    dispatch(&mut log, &mut bus, Event::new_message(message(x, CHAN_1)), 1000);
    match bus.recv(CHAN_1, sub) {
        Received::Event(e) => {
            assert_eq!(message_id(&e), Some(x));
            assert_eq!(e.event.timestamp, 1000);
            assert_eq!(e.event.mailbox, CHAN_1);
        }
        _ => panic!("expected an event"),
    }
    assert!(matches!(bus.recv(CHAN_1, sub), Received::Empty));
    let back = log.backlog(CHAN_1, 999);
    assert_eq!(back.len(), 1);
    assert_eq!(message_id(&back[0]), Some(x));
    assert!(log.backlog(CHAN_1, 1001).is_empty());
}

#[test]
fn live_and_backlog_share_one_encoding() {
    let mut log = EventLog::new();
    let mut bus = EventBus::new(4);
    let sub = bus.subscribe(CHAN_1).unwrap();
    let sent = dispatch(&mut log, &mut bus, Event::channel_deleted(CHAN_1), 5);
    let live = match bus.recv(CHAN_1, sub) {
        Received::Event(e) => e,
        _ => panic!("expected an event"),
    };
    let back = log.backlog(CHAN_1, 0);
    assert!(Arc::ptr_eq(&live, &sent));
    assert!(Arc::ptr_eq(&back[0], &sent));
    assert_eq!(live.encoded, back[0].encoded);
}

#[test]
fn subscriber_sees_publishes_in_order() {
    let mut log = EventLog::new();
    let mut bus = EventBus::new(8);
    let sub = bus.subscribe(CHAN_1).unwrap();
    for id in 0..8u128 {
        dispatch(&mut log, &mut bus, Event::new_message(message(id, CHAN_1)), 100 + id as i64);
    }
    for id in 0..8u128 {
        match bus.recv(CHAN_1, sub) {
            Received::Event(e) => assert_eq!(message_id(&e), Some(id)),
            _ => panic!("expected event {}", id),
        }
    }
    assert!(matches!(bus.recv(CHAN_1, sub), Received::Empty));
    let back = log.backlog(CHAN_1, i64::MIN);
    let ids: Vec<Option<u128>> = back.iter().map(|e| message_id(e)).collect();
    assert_eq!(ids, (0..8u128).map(Some).collect::<Vec<_>>());
}

#[test]
fn lagging_subscriber_loses_oldest_and_is_told() {
    let mut log = EventLog::new();
    let mut bus = EventBus::new(2);
    let sub = bus.subscribe(CHAN_1).unwrap();
    for id in 0..5u128 {
        dispatch(&mut log, &mut bus, Event::new_message(message(id, CHAN_1)), id as i64);
    }
    assert!(matches!(bus.recv(CHAN_1, sub), Received::Lagged(3)));
    match bus.recv(CHAN_1, sub) {
        Received::Event(e) => assert_eq!(message_id(&e), Some(3)),
        _ => panic!("expected event 3"),
    }
    match bus.recv(CHAN_1, sub) {
        Received::Event(e) => assert_eq!(message_id(&e), Some(4)),
        _ => panic!("expected event 4"),
    }
    assert!(matches!(bus.recv(CHAN_1, sub), Received::Empty));
    assert_eq!(log.backlog(CHAN_1, 0).len(), 5);
}

#[test]
fn publish_without_members_is_harmless() {
    let mut log = EventLog::new();
    let mut bus = EventBus::new(4);
    dispatch(&mut log, &mut bus, Event::channel_deleted(CHAN_1), 1);
    assert_eq!(bus.receiver_count(CHAN_1), 0);
    assert_eq!(log.backlog(CHAN_1, 0).len(), 1);
}

#[test]
fn preview_coalesces_within_window() {
    let mut log = EventLog::new();
    let mut bus = EventBus::new(64);
    dispatch(&mut log, &mut bus, Event::new_message(message(1, CHAN_1)), 1);
    dispatch(&mut log, &mut bus, preview(7, SENDER, CHAN_1, "he"), 2);
    for id in 10..20u128 {
        dispatch(&mut log, &mut bus, Event::new_message(message(id, CHAN_1)), 3);
    }
    dispatch(&mut log, &mut bus, preview(7, SENDER, CHAN_1, "hello"), 4);
    let back = log.backlog(CHAN_1, 0);
    assert_eq!(back.len(), 12);
    let previews: Vec<&str> = back.iter().filter_map(|e| preview_json(e)).collect();
    assert_eq!(previews, vec!["{\"text\":\"hello\"}"]);
    assert_eq!(preview_json(&back[1]), Some("{\"text\":\"hello\"}"));
    assert_eq!(back[1].event.timestamp, 4);
}

#[test]
fn previews_of_other_senders_stay_apart() {
    let mut log = EventLog::new();
    let mut bus = EventBus::new(64);
    dispatch(&mut log, &mut bus, preview(1, SENDER, CHAN_1, "a"), 1);
    dispatch(&mut log, &mut bus, preview(2, SENDER + 1, CHAN_1, "b"), 2);
    dispatch(&mut log, &mut bus, preview(1, SENDER, CHAN_1, "c"), 3);
    let back = log.backlog(CHAN_1, 0);
    let previews: Vec<&str> = back.iter().filter_map(|e| preview_json(e)).collect();
    assert_eq!(previews, vec!["{\"text\":\"c\"}", "{\"text\":\"b\"}"]);
}

#[test]
fn preview_outside_window_appends() {
    let mut log = EventLog::new();
    let mut bus = EventBus::new(64);
    dispatch(&mut log, &mut bus, preview(7, SENDER, CHAN_1, "first"), 1);
    for id in 0..32u128 {
        dispatch(&mut log, &mut bus, Event::new_message(message(id, CHAN_1)), 2);
    }
    dispatch(&mut log, &mut bus, preview(7, SENDER, CHAN_1, "second"), 3);
    let back = log.backlog(CHAN_1, 0);
    assert_eq!(back.len(), 34);
    assert_eq!(preview_json(&back[0]), Some("{\"text\":\"first\"}"));
    assert_eq!(preview_json(&back[33]), Some("{\"text\":\"second\"}"));
}

#[test]
fn preview_at_window_edge_still_coalesces() {
    let mut log = EventLog::new();
    let mut bus = EventBus::new(64);
    dispatch(&mut log, &mut bus, preview(7, SENDER, CHAN_1, "first"), 1);
    for id in 0..31u128 {
        dispatch(&mut log, &mut bus, Event::new_message(message(id, CHAN_1)), 2);
    }
    dispatch(&mut log, &mut bus, preview(7, SENDER, CHAN_1, "second"), 3);
    let back = log.backlog(CHAN_1, 0);
    assert_eq!(back.len(), 32);
    assert_eq!(preview_json(&back[0]), Some("{\"text\":\"second\"}"));
}

#[test]
fn backlog_filters_by_timestamp_in_arrival_order() {
    let mut log = EventLog::new();
    let mut bus = EventBus::new(4);
    dispatch(&mut log, &mut bus, Event::new_message(message(1, CHAN_1)), 50);
    dispatch(&mut log, &mut bus, Event::new_message(message(2, CHAN_1)), 10);
    dispatch(&mut log, &mut bus, Event::new_message(message(3, CHAN_1)), 60);
    let ids: Vec<Option<u128>> = log.backlog(CHAN_1, 50).iter().map(|e| message_id(e)).collect();
    assert_eq!(ids, vec![Some(1), Some(3)]);
    assert!(log.backlog(CHAN_1 + 1, 0).is_empty());
}

#[test]
fn events_stay_in_their_mailbox() {
    let mut log = EventLog::new();
    let mut bus = EventBus::new(4);
    let other = bus.subscribe(CHAN_1 + 1).unwrap();
    dispatch(&mut log, &mut bus, Event::message_deleted(CHAN_1, 9), 1);
    assert!(matches!(bus.recv(CHAN_1 + 1, other), Received::Empty));
    assert!(log.backlog(CHAN_1 + 1, 0).is_empty());
}

#[test]
fn heartbeat_snapshot_lists_users() {
    let mut hb = HeartbeatTracker::new();
    hb.heartbeat(CHAN_1, 1, 100);
    hb.heartbeat(CHAN_1, 2, 200);
    let mut snap = hb.snapshot(CHAN_1);
    snap.sort();
    assert_eq!(snap, vec![(1, 100), (2, 200)]);
    hb.heartbeat(CHAN_1, 1, 300);
    let mut snap = hb.snapshot(CHAN_1);
    snap.sort();
    assert_eq!(snap, vec![(1, 300), (2, 200)]);
    assert!(hb.snapshot(CHAN_1 + 1).is_empty());
}

#[test]
fn heartbeat_map_event_is_dispatched() {
    let mut hb = HeartbeatTracker::new();
    hb.heartbeat(CHAN_1, 3, 42);
    let mut log = EventLog::new();
    let mut bus = EventBus::new(4);
    let e = dispatch(&mut log, &mut bus, Event::push_heartbeat_map(CHAN_1, hb.snapshot(CHAN_1)), 43);
    assert_eq!(
        e.encoded,
        "{\"mailbox\":\"00000000-0000-0000-0000-00000000c4a1\",\"mailboxType\":\"CHANNEL\",\
         \"timestamp\":43,\"type\":\"HEARTBEAT_MAP\",\
         \"heartbeatMap\":{\"00000000-0000-0000-0000-000000000003\":42}}"
    );
}

#[test]
fn idle_sweep_removes_empty_groups() {
    let mut bus = EventBus::new(4);
    let a = bus.subscribe(1).unwrap();
    let _b = bus.subscribe(2).unwrap();
    let mut log = EventLog::new();
    dispatch(&mut log, &mut bus, Event::channel_deleted(3), 1);
    assert!(bus.unsubscribe(1, a));
    assert!(!bus.unsubscribe(1, a));
    bus.sweep_idle();
    assert_eq!(bus.receiver_count(2), 1);
    assert_eq!(bus.receiver_count(1), 0);
    assert!(matches!(bus.recv(1, a), Received::Closed));
    let c = bus.subscribe(1).unwrap();
    assert!(c > a);
    assert!(matches!(bus.recv(1, c), Received::Empty));
}

#[test]
fn members_event_carries_roster() {
    let mut log = EventLog::new();
    let mut bus = EventBus::new(4);
    let e = dispatch(&mut log, &mut bus, Event::push_members(CHAN_1, "[{\"userId\":1}]".to_string()), -7);
    assert_eq!(
        e.encoded,
        "{\"mailbox\":\"00000000-0000-0000-0000-00000000c4a1\",\"mailboxType\":\"CHANNEL\",\
         \"timestamp\":-7,\"type\":\"MEMBERS\",\"members\":[{\"userId\":1}]}"
    );
}

#[test]
fn channel_edited_goes_to_that_channel() {
    let p = Event::channel_edited(ChannelRecord { id: 77, json: "{}".to_string() });
    assert_eq!(p.mailbox, 77);
    let e = p.stamp(1);
    assert!(matches!(e.body, EventBody::ChannelEdited { .. }));
}
