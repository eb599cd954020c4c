//! The event data model: mailboxes, the closed set of event bodies, and the
//! encoded form shared by live delivery and history.
use std::sync::Arc;
use vstd::prelude::*;

verus! {

/// Kind of routing destination an event is addressed to.
#[derive(Clone, Copy, Debug, PartialEq, Eq, Structural)]
pub enum MailBoxType {
    Channel,
}

/// A request for the backlog of a mailbox: the events stamped `after` or
/// later.
pub struct EventQuery {
    pub mailbox: u128,
    pub mailbox_type: MailBoxType,
    pub after: i64,
}

/// What a connected client sends over its live connection.
pub enum ClientEvent {
    /// The draft the client's user is typing.
    Preview { preview: Preview },
    /// The client's user is still there.
    Heartbeat,
}

/// A message row as the event core carries it: the identifiers it routes and
/// matches on, and the client-facing JSON object of the full record.
pub struct MessageRecord {
    pub id: u128,
    pub channel_id: u128,
    pub json: String,
}

/// A channel row: its identifier and the client-facing JSON object.
pub struct ChannelRecord {
    pub id: u128,
    pub json: String,
}

/// An ephemeral, frequently replaced draft of a message being typed.
pub struct Preview {
    pub id: u128,
    pub sender_id: u128,
    pub mailbox: u128,
    pub mailbox_type: MailBoxType,
    pub json: String,
}

/// What happened. Each variant carries only what a client needs to update
/// its local state without fetching again.
pub enum EventBody {
    NewMessage { message: MessageRecord },
    MessageDeleted { message_id: u128 },
    MessageEdited { message: MessageRecord },
    MessagePreview { preview: Preview },
    ChannelDeleted,
    ChannelEdited { channel: ChannelRecord },
    /// `members` is the JSON array of the channel's roster.
    Members { members: String },
    Initialized,
    Heartbeat { user_id: u128 },
    /// Last-seen time of every user of the mailbox, keys unique.
    HeartbeatMap { heartbeat_map: Vec<(u128, i64)> },
}

/// An event addressed to one mailbox, stamped with the time of dispatch in
/// milliseconds since the epoch.
pub struct Event {
    pub mailbox: u128,
    pub mailbox_type: MailBoxType,
    pub timestamp: i64,
    pub body: EventBody,
}

/// An event together with its one canonical serialized form.
pub struct EncodedEvent {
    pub event: Event,
    pub encoded: String,
}

/// The sender of a preview event, if the event is one.
pub open spec fn preview_sender(e: EncodedEvent) -> Option<u128> {
    match e.event.body {
        EventBody::MessagePreview { preview } => Some(preview.sender_id),
        _ => None,
    }
}

/// An event body with its destination, waiting to be stamped and dispatched.
pub struct PendingEvent {
    pub body: EventBody,
    pub mailbox: u128,
    pub mailbox_type: MailBoxType,
}

impl PendingEvent {
    /// The event as dispatched at time `now`.
    pub open spec fn at(self, now: i64) -> Event {
        Event { mailbox: self.mailbox, mailbox_type: self.mailbox_type, timestamp: now, body: self.body }
    }

    pub fn stamp(self, now: i64) -> (r: Event)
        ensures
            r == self.at(now),
    {
        Event { mailbox: self.mailbox, mailbox_type: self.mailbox_type, timestamp: now, body: self.body }
    }
}

impl Event {
    /// The first event of a freshly opened mailbox, stamped `now`.
    pub fn initialized(mailbox: u128, mailbox_type: MailBoxType, now: i64) -> (r: Event)
        ensures
            r == (Event { mailbox, mailbox_type, timestamp: now, body: EventBody::Initialized }),
    {
        Event { mailbox, mailbox_type, timestamp: now, body: EventBody::Initialized }
    }

    /// A new message, for its channel.
    pub fn new_message(message: MessageRecord) -> (r: PendingEvent)
        ensures
            r.mailbox == message.channel_id,
            r.mailbox_type == MailBoxType::Channel,
            r.body == (EventBody::NewMessage { message }),
    {
        let channel_id = message.channel_id;
        PendingEvent { body: EventBody::NewMessage { message }, mailbox: channel_id, mailbox_type: MailBoxType::Channel }
    }

    /// A message of `channel_id` was deleted.
    pub fn message_deleted(channel_id: u128, message_id: u128) -> (r: PendingEvent)
        ensures
            r == (PendingEvent {
                body: EventBody::MessageDeleted { message_id },
                mailbox: channel_id,
                mailbox_type: MailBoxType::Channel,
            }),
    {
        PendingEvent { body: EventBody::MessageDeleted { message_id }, mailbox: channel_id, mailbox_type: MailBoxType::Channel }
    }

    /// A message was edited, for its channel.
    pub fn message_edited(message: MessageRecord) -> (r: PendingEvent)
        ensures
            r.mailbox == message.channel_id,
            r.mailbox_type == MailBoxType::Channel,
            r.body == (EventBody::MessageEdited { message }),
    {
        let channel_id = message.channel_id;
        PendingEvent { body: EventBody::MessageEdited { message }, mailbox: channel_id, mailbox_type: MailBoxType::Channel }
    }

    /// A channel was deleted.
    pub fn channel_deleted(channel_id: u128) -> (r: PendingEvent)
        ensures
            r == (PendingEvent {
                body: EventBody::ChannelDeleted,
                mailbox: channel_id,
                mailbox_type: MailBoxType::Channel,
            }),
    {
        PendingEvent { body: EventBody::ChannelDeleted, mailbox: channel_id, mailbox_type: MailBoxType::Channel }
    }

    /// A preview, for the mailbox it is typed in.
    pub fn message_preview(preview: Preview) -> (r: PendingEvent)
        ensures
            r.mailbox == preview.mailbox,
            r.mailbox_type == preview.mailbox_type,
            r.body == (EventBody::MessagePreview { preview }),
    {
        let mailbox = preview.mailbox;
        let mailbox_type = preview.mailbox_type;
        PendingEvent { body: EventBody::MessagePreview { preview }, mailbox, mailbox_type }
    }

    /// A channel was edited, for that channel.
    pub fn channel_edited(channel: ChannelRecord) -> (r: PendingEvent)
        ensures
            r.mailbox == channel.id,
            r.mailbox_type == MailBoxType::Channel,
            r.body == (EventBody::ChannelEdited { channel }),
    {
        let channel_id = channel.id;
        PendingEvent { body: EventBody::ChannelEdited { channel }, mailbox: channel_id, mailbox_type: MailBoxType::Channel }
    }

    /// The current roster of a channel, as a JSON array read from the
    /// system of record.
    pub fn push_members(channel_id: u128, members: String) -> (r: PendingEvent)
        ensures
            r == (PendingEvent {
                body: EventBody::Members { members },
                mailbox: channel_id,
                mailbox_type: MailBoxType::Channel,
            }),
    {
        PendingEvent { body: EventBody::Members { members }, mailbox: channel_id, mailbox_type: MailBoxType::Channel }
    }

    /// The full presence map of a channel.
    pub fn push_heartbeat_map(channel_id: u128, heartbeat_map: Vec<(u128, i64)>) -> (r: PendingEvent)
        ensures
            r == (PendingEvent {
                body: EventBody::HeartbeatMap { heartbeat_map },
                mailbox: channel_id,
                mailbox_type: MailBoxType::Channel,
            }),
    {
        PendingEvent { body: EventBody::HeartbeatMap { heartbeat_map }, mailbox: channel_id, mailbox_type: MailBoxType::Channel }
    }
}

impl EncodedEvent {
    /// Pairs `event` with its canonical serialized form.
    pub fn new(event: Event) -> (r: EncodedEvent)
        ensures
            r.event == event,
            r.encoded@ == crate::wire::wire(event),
    {
        let encoded = crate::wire::encode(&event);
        EncodedEvent { event, encoded }
    }
}

} // verus!
