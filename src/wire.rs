//! The canonical wire form of an event: one flat JSON object
//! `{mailbox, mailboxType, timestamp, type, <variant fields>}`.
use crate::events::{EncodedEvent, Event, EventBody, MailBoxType};
use vstd::prelude::*;

verus! {

/// `16^k`.
pub open spec fn pow16(k: nat) -> nat
    decreases k,
{
    if k == 0 {
        1
    } else {
        16 * pow16((k - 1) as nat)
    }
}

/// Lower-case hexadecimal digit of `d` (`d < 16`).
pub open spec fn hex_char(d: int) -> char {
    seq!['0', '1', '2', '3', '4', '5', '6', '7', '8', '9', 'a', 'b', 'c', 'd', 'e', 'f'][d]
}

/// The `k`-th four-bit digit of `id`, counting from the most significant.
pub open spec fn nibble(id: u128, k: int) -> int {
    (id as int / pow16((31 - k) as nat) as int) % 16
}

/// Which digit of the identifier stands at character `p` of its 8-4-4-4-12 text.
pub open spec fn nibble_at(p: int) -> int {
    if p < 8 {
        p
    } else if p < 13 {
        p - 1
    } else if p < 18 {
        p - 2
    } else if p < 23 {
        p - 3
    } else {
        p - 4
    }
}

/// The hyphenated lower-case text of an identifier, such as
/// `67e55044-10b1-426f-9247-bb680e5fe0c8`.
pub open spec fn hyphenated(id: u128) -> Seq<char> {
    Seq::new(
        36,
        |p: int|
            if p == 8 || p == 13 || p == 18 || p == 23 {
                '-'
            } else {
                hex_char(nibble(id, nibble_at(p)))
            },
    )
}

/// Relies on uuid's `Uuid::from_u128` (big-endian bytes) and its hyphenated
/// `Display`: two lower-case hex digits per byte, grouped 8-4-4-4-12.
#[verifier::external_body]
pub(crate) fn uuid_text(id: u128) -> (r: String)
    ensures
        r@ == hyphenated(id),
{
    uuid::Uuid::from_u128(id).hyphenated().to_string()
}

/// Decimal digit character of `d` (`d < 10`).
pub open spec fn digit_char(d: int) -> char {
    seq!['0', '1', '2', '3', '4', '5', '6', '7', '8', '9'][d]
}

/// Decimal text of a natural number, without leading zeros.
pub open spec fn decimal(n: nat) -> Seq<char>
    decreases n,
{
    if n < 10 {
        seq![digit_char(n as int)]
    } else {
        decimal(n / 10).push(digit_char((n % 10) as int))
    }
}

/// Decimal text of an integer, with a leading `-` when negative.
pub open spec fn int_text(i: int) -> Seq<char> {
    if i < 0 {
        seq!['-'] + decimal((-i) as nat)
    } else {
        decimal(i as nat)
    }
}

fn digit_str(d: u64) -> (r: &'static str)
    requires
        d < 10,
    ensures
        r@ == seq![digit_char(d as int)],
{
    proof {
        reveal_strlit("0");
        reveal_strlit("1");
        reveal_strlit("2");
        reveal_strlit("3");
        reveal_strlit("4");
        reveal_strlit("5");
        reveal_strlit("6");
        reveal_strlit("7");
        reveal_strlit("8");
        reveal_strlit("9");
    }
    match d {
        0 => "0",
        1 => "1",
        2 => "2",
        3 => "3",
        4 => "4",
        5 => "5",
        6 => "6",
        7 => "7",
        8 => "8",
        _ => "9",
    }
}

fn write_decimal(out: &mut String, n: u64)
    ensures
        final(out)@ == old(out)@ + decimal(n as nat),
    decreases n,
{
    if n >= 10 {
        write_decimal(out, n / 10);
    }
    out.append(digit_str(n % 10));
    assert(final(out)@ =~= old(out)@ + decimal(n as nat));
}

/// Appends the decimal text of `i` to `out`.
pub fn write_int(out: &mut String, i: i64)
    ensures
        final(out)@ == old(out)@ + int_text(i as int),
{
    proof {
        reveal_strlit("-");
    }
    if i < 0 {
        out.append("-");
        let magnitude: u64 = (0i128 - i as i128) as u64;
        write_decimal(out, magnitude);
        assert(final(out)@ =~= old(out)@ + int_text(i as int));
    } else {
        write_decimal(out, i as u64);
    }
}

/// Wire name of a mailbox type.
pub open spec fn mailbox_type_tag(t: MailBoxType) -> Seq<char> {
    match t {
        MailBoxType::Channel => "CHANNEL"@,
    }
}

/// Wire discriminant of an event body.
pub open spec fn body_tag(b: EventBody) -> Seq<char> {
    match b {
        EventBody::NewMessage { .. } => "NEW_MESSAGE"@,
        EventBody::MessageDeleted { .. } => "MESSAGE_DELETED"@,
        EventBody::MessageEdited { .. } => "MESSAGE_EDITED"@,
        EventBody::MessagePreview { .. } => "MESSAGE_PREVIEW"@,
        EventBody::ChannelDeleted => "CHANNEL_DELETED"@,
        EventBody::ChannelEdited { .. } => "CHANNEL_EDITED"@,
        EventBody::Members { .. } => "MEMBERS"@,
        EventBody::Initialized => "INITIALIZED"@,
        EventBody::Heartbeat { .. } => "HEARTBEAT"@,
        EventBody::HeartbeatMap { .. } => "HEARTBEAT_MAP"@,
    }
}

/// `"<id>":<time>`, one member of a heartbeat map object.
pub open spec fn heartbeat_entry(e: (u128, i64)) -> Seq<char> {
    "\""@ + hyphenated(e.0) + "\":"@ + int_text(e.1 as int)
}

/// The members of a heartbeat map object, separated by commas.
pub open spec fn heartbeat_entries(s: Seq<(u128, i64)>) -> Seq<char>
    decreases s.len(),
{
    if s.len() == 0 {
        Seq::empty()
    } else if s.len() == 1 {
        heartbeat_entry(s[0])
    } else {
        heartbeat_entries(s.drop_last()) + ","@ + heartbeat_entry(s.last())
    }
}

/// The variant's own fields, each preceded by a comma.
pub open spec fn body_fields(b: EventBody) -> Seq<char> {
    match b {
        EventBody::NewMessage { message } => ",\"message\":"@ + message.json@,
        EventBody::MessageDeleted { message_id } => ",\"messageId\":\""@ + hyphenated(message_id)
            + "\""@,
        EventBody::MessageEdited { message } => ",\"message\":"@ + message.json@,
        EventBody::MessagePreview { preview } => ",\"preview\":"@ + preview.json@,
        EventBody::ChannelDeleted => Seq::empty(),
        EventBody::ChannelEdited { channel } => ",\"channel\":"@ + channel.json@,
        EventBody::Members { members } => ",\"members\":"@ + members@,
        EventBody::Initialized => Seq::empty(),
        EventBody::Heartbeat { user_id } => ",\"userId\":\""@ + hyphenated(user_id) + "\""@,
        EventBody::HeartbeatMap { heartbeat_map } => ",\"heartbeatMap\":{"@ + heartbeat_entries(
            heartbeat_map@,
        ) + "}"@,
    }
}

/// The canonical serialized form of an event.
pub open spec fn wire(e: Event) -> Seq<char> {
    "{\"mailbox\":\""@ + hyphenated(e.mailbox) + "\",\"mailboxType\":\""@ + mailbox_type_tag(
        e.mailbox_type,
    ) + "\",\"timestamp\":"@ + int_text(e.timestamp as int) + ",\"type\":\""@ + body_tag(e.body)
        + "\""@ + body_fields(e.body) + "}"@
}

fn write_uuid(out: &mut String, id: u128)
    ensures
        final(out)@ == old(out)@ + hyphenated(id),
{
    let text = uuid_text(id);
    out.append(text.as_str());
}

fn write_heartbeat_map(out: &mut String, entries: &Vec<(u128, i64)>)
    ensures
        final(out)@ == old(out)@ + heartbeat_entries(entries@),
{
    let ghost start = out@;
    let mut i: usize = 0;
    while i < entries.len()
        invariant
            i <= entries.len(),
            out@ == start + heartbeat_entries(entries@.subrange(0, i as int)),
        decreases entries.len() - i,
    {
        let (id, time) = entries[i];
        let ghost before = out@;
        if i > 0 {
            out.append(",");
        }
        out.append("\"");
        write_uuid(out, id);
        out.append("\":");
        write_int(out, time);
        proof {
            let s = entries@.subrange(0, i + 1);
            assert(s.drop_last() =~= entries@.subrange(0, i as int));
            assert(s.last() == entries@[i as int]);
            if i == 0 {
                assert(out@ =~= before + heartbeat_entry(entries@[0]));
            } else {
                assert(out@ =~= before + ","@ + heartbeat_entry(entries@[i as int]));
            }
        }
        i = i + 1;
    }
    assert(entries@.subrange(0, entries.len() as int) =~= entries@);
}

fn body_tag_str(b: &EventBody) -> (r: &'static str)
    ensures
        r@ == body_tag(*b),
{
    match b {
        EventBody::NewMessage { .. } => "NEW_MESSAGE",
        EventBody::MessageDeleted { .. } => "MESSAGE_DELETED",
        EventBody::MessageEdited { .. } => "MESSAGE_EDITED",
        EventBody::MessagePreview { .. } => "MESSAGE_PREVIEW",
        EventBody::ChannelDeleted => "CHANNEL_DELETED",
        EventBody::ChannelEdited { .. } => "CHANNEL_EDITED",
        EventBody::Members { .. } => "MEMBERS",
        EventBody::Initialized => "INITIALIZED",
        EventBody::Heartbeat { .. } => "HEARTBEAT",
        EventBody::HeartbeatMap { .. } => "HEARTBEAT_MAP",
    }
}

fn write_fields(out: &mut String, b: &EventBody)
    ensures
        final(out)@ == old(out)@ + body_fields(*b),
{
    let ghost start = out@;
    match b {
        EventBody::NewMessage { message } => {
            out.append(",\"message\":");
            out.append(message.json.as_str());
        },
        EventBody::MessageDeleted { message_id } => {
            out.append(",\"messageId\":\"");
            write_uuid(out, *message_id);
            out.append("\"");
        },
        EventBody::MessageEdited { message } => {
            out.append(",\"message\":");
            out.append(message.json.as_str());
        },
        EventBody::MessagePreview { preview } => {
            out.append(",\"preview\":");
            out.append(preview.json.as_str());
        },
        EventBody::ChannelDeleted => {},
        EventBody::ChannelEdited { channel } => {
            out.append(",\"channel\":");
            out.append(channel.json.as_str());
        },
        EventBody::Members { members } => {
            out.append(",\"members\":");
            out.append(members.as_str());
        },
        EventBody::Initialized => {},
        EventBody::Heartbeat { user_id } => {
            out.append(",\"userId\":\"");
            write_uuid(out, *user_id);
            out.append("\"");
        },
        EventBody::HeartbeatMap { heartbeat_map } => {
            out.append(",\"heartbeatMap\":{");
            write_heartbeat_map(out, heartbeat_map);
            out.append("}");
        },
    }
    assert(out@ =~= start + body_fields(*b));
}

fn mailbox_type_str(t: MailBoxType) -> (r: &'static str)
    ensures
        r@ == mailbox_type_tag(t),
{
    match t {
        MailBoxType::Channel => "CHANNEL",
    }
}

/// The canonical serialized form of `e`.
pub fn encode(e: &Event) -> (r: String)
    ensures
        r@ == wire(*e),
{
    let mut out = String::new();
    out.append("{\"mailbox\":\"");
    write_uuid(&mut out, e.mailbox);
    out.append("\",\"mailboxType\":\"");
    out.append(mailbox_type_str(e.mailbox_type));
    out.append("\",\"timestamp\":");
    write_int(&mut out, e.timestamp);
    out.append(",\"type\":\"");
    out.append(body_tag_str(&e.body));
    out.append("\"");
    write_fields(&mut out, &e.body);
    out.append("}");
    assert(out@ =~= wire(*e));
    out
}

} // verus!
