//! Dispatch of one event: stamp it, encode it once, record it in the
//! history, and fan it out to the live members of its mailbox.
use crate::event_bus::{fan_out, EventBus};
use crate::event_log::{appended, EventLog};
use crate::events::{EncodedEvent, PendingEvent};
use crate::wire::wire;
use std::sync::Arc;
use vstd::prelude::*;

verus! {

/// Stamps `pending` with `now`, encodes it once, inserts it into the history
/// of its mailbox (coalescing previews), then delivers the same encoded
/// event to every live member of that mailbox. The history and the live
/// members therefore see events of a mailbox in one and the same order.
pub fn dispatch(log: &mut EventLog, bus: &mut EventBus, pending: PendingEvent, now: i64) -> (r: Arc<
    EncodedEvent,
>)
    requires
        old(bus).wf(),
    ensures
        r.event == pending.at(now),
        r.encoded@ == wire(r.event),
        final(log)@ == old(log)@.insert(pending.mailbox, appended(old(log).history(pending.mailbox), *r)),
        final(bus).wf(),
        final(bus)@ == old(bus)@.insert(
            pending.mailbox,
            fan_out(old(bus).group(pending.mailbox), *r, old(bus).capacity()),
        ),
        final(bus).capacity() == old(bus).capacity(),
        final(bus).next_id() == old(bus).next_id(),
{
    let event = Arc::new(EncodedEvent::new(pending.stamp(now)));
    log.append(event.clone());
    bus.publish(&event);
    event
}

} // verus!
