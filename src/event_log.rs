//! Per-mailbox history of published events, in arrival order, with preview
//! coalescing; serves backlog replay to clients that reconnect.
use crate::events::{preview_sender, EncodedEvent, EventBody};
use std::collections::HashMap;
use std::sync::Arc;
use vstd::prelude::*;

verus! {

broadcast use vstd::std_specs::hash::group_hash_axioms;

/// How many of the most recent entries a new preview looks back through for
/// an earlier preview of the same sender to replace.
pub const PREVIEW_WINDOW: usize = 32;

/// First index of the lookback window of a history of length `len`.
pub open spec fn window_start(len: int) -> int {
    if len > PREVIEW_WINDOW {
        len - PREVIEW_WINDOW
    } else {
        0
    }
}

/// Whether `e` is a preview sent by `sender`.
pub open spec fn is_preview_from(e: EncodedEvent, sender: u128) -> bool {
    preview_sender(e) == Some(sender)
}

/// The last index in `[stop, i)` holding a preview of `sender`.
pub open spec fn find_preview(h: Seq<EncodedEvent>, sender: u128, i: int, stop: int) -> Option<int>
    decreases i - stop,
{
    if i <= stop {
        None
    } else if is_preview_from(h[i - 1], sender) {
        Some(i - 1)
    } else {
        find_preview(h, sender, i - 1, stop)
    }
}

/// The entry that a new event replaces in place, if it is a preview and an
/// earlier preview of its sender lies in the lookback window.
pub open spec fn coalesce_slot(h: Seq<EncodedEvent>, e: EncodedEvent) -> Option<int> {
    match preview_sender(e) {
        Some(sender) => find_preview(h, sender, h.len() as int, window_start(h.len() as int)),
        None => None,
    }
}

/// A history after `e` is inserted: replacing the entry that it coalesces
/// with, or else at the end.
pub open spec fn appended(h: Seq<EncodedEvent>, e: EncodedEvent) -> Seq<EncodedEvent> {
    match coalesce_slot(h, e) {
        Some(i) => h.update(i, e),
        None => h.push(e),
    }
}

/// A history after each of `evs` is inserted in turn.
pub open spec fn append_all(h: Seq<EncodedEvent>, evs: Seq<EncodedEvent>) -> Seq<EncodedEvent>
    decreases evs.len(),
{
    if evs.len() == 0 {
        h
    } else {
        appended(append_all(h, evs.drop_last()), evs.last())
    }
}

/// The entries of `h` whose timestamp is at least `after`, in stored order.
pub open spec fn since(h: Seq<EncodedEvent>, after: i64) -> Seq<EncodedEvent>
    decreases h.len(),
{
    if h.len() == 0 {
        Seq::empty()
    } else if h.last().event.timestamp >= after {
        since(h.drop_last(), after).push(h.last())
    } else {
        since(h.drop_last(), after)
    }
}

/// The events that a sequence of shared handles points to.
pub open spec fn events_of(v: Seq<Arc<EncodedEvent>>) -> Seq<EncodedEvent> {
    v.map_values(|a: Arc<EncodedEvent>| *a)
}

/// Histories of all mailboxes that have had an event.
pub struct EventLog {
    mailboxes: HashMap<u128, Vec<Arc<EncodedEvent>>>,
}

impl View for EventLog {
    type V = Map<u128, Seq<EncodedEvent>>;

    closed spec fn view(&self) -> Map<u128, Seq<EncodedEvent>> {
        self.mailboxes@.map_values(|v: Vec<Arc<EncodedEvent>>| events_of(v@))
    }
}

impl EventLog {
    /// The history of `mailbox`; empty when it never had an event.
    pub open spec fn history(&self, mailbox: u128) -> Seq<EncodedEvent> {
        if self@.contains_key(mailbox) {
            self@[mailbox]
        } else {
            Seq::empty()
        }
    }

    pub fn new() -> (r: EventLog)
        ensures
            r@ == Map::<u128, Seq<EncodedEvent>>::empty(),
    {
        let r = EventLog { mailboxes: HashMap::new() };
        assert(r@ =~= Map::<u128, Seq<EncodedEvent>>::empty());
        r
    }

    /// Inserts `event` into the history of its mailbox: in place of the last
    /// preview of the same sender among the newest entries, if it is a
    /// preview and there is one, else at the end.
    pub fn append(&mut self, event: Arc<EncodedEvent>)
        ensures
            final(self)@ == old(self)@.insert(
                event.event.mailbox,
                appended(old(self).history(event.event.mailbox), *event),
            ),
    {
        let mailbox = event.event.mailbox;
        let mut history = match self.mailboxes.remove(&mailbox) {
            Some(h) => h,
            None => Vec::new(),
        };
        let ghost h0 = events_of(history@);
        assert(h0 =~= old(self).history(mailbox));
        let slot = coalescing_slot(&history, &event);
        match slot {
            Some(i) => {
                history.set(i, event);
                assert(events_of(history@) =~= h0.update(i as int, *event));
                assert(coalesce_slot(h0, *event) == Some(i as int));
                assert(events_of(history@) == appended(h0, *event));
            },
            None => {
                history.push(event);
                assert(events_of(history@) =~= h0.push(*event));
                assert(coalesce_slot(h0, *event) is None);
                assert(events_of(history@) == appended(h0, *event));
            },
        }
        assert(events_of(history@) == appended(h0, *event));
        let ghost hv = history@;
        self.mailboxes.insert(mailbox, history);
        assert(self.mailboxes@[mailbox]@ == hv);
        assert(self.mailboxes@.dom() =~= old(self).mailboxes@.dom().insert(mailbox));
        assert(forall|k: u128| k != mailbox ==> self.mailboxes@.get(k) == old(self).mailboxes@.get(k));
        assert(self@ =~= old(self)@.insert(mailbox, appended(h0, *event)));
    }

    /// Entries of the history of `mailbox` whose timestamp is at least
    /// `after`, in stored (arrival) order; empty for an unknown mailbox.
    pub fn backlog(&self, mailbox: u128, after: i64) -> (r: Vec<Arc<EncodedEvent>>)
        ensures
            events_of(r@) == since(self.history(mailbox), after),
    {
        let mut r: Vec<Arc<EncodedEvent>> = Vec::new();
        match self.mailboxes.get(&mailbox) {
            Some(history) => {
                let ghost h = events_of(history@);
                assert(h =~= self.history(mailbox));
                let mut i: usize = 0;
                while i < history.len()
                    invariant
                        i <= history.len(),
                        h == events_of(history@),
                        events_of(r@) == since(h.subrange(0, i as int), after),
                    decreases history.len() - i,
                {
                    let e = &history[i];
                    proof {
                        let s = h.subrange(0, i + 1);
                        assert(s.drop_last() =~= h.subrange(0, i as int));
                        assert(s.last() == h[i as int]);
                    }
                    if e.event.timestamp >= after {
                        r.push(e.clone());
                        assert(events_of(r@) =~= since(h.subrange(0, i + 1), after));
                    }
                    i = i + 1;
                }
                assert(h.subrange(0, history.len() as int) =~= h);
            },
            None => {
                assert(events_of(r@) =~= Seq::<EncodedEvent>::empty());
            },
        }
        r
    }
}

/// Characterizes the search: the index found is the last one in range that
/// holds a preview of `sender`; none is found only if no entry in range does.
pub proof fn lemma_find_preview(h: Seq<EncodedEvent>, sender: u128, i: int, stop: int)
    requires
        0 <= stop,
        i <= h.len(),
    ensures
        match find_preview(h, sender, i, stop) {
            Some(k) => {
                &&& stop <= k < i
                &&& is_preview_from(h[k], sender)
                &&& forall|j: int| k < j < i ==> !is_preview_from(#[trigger] h[j], sender)
            },
            None => forall|j: int| stop <= j < i ==> !is_preview_from(#[trigger] h[j], sender),
        },
    decreases i - stop,
{
    if i > stop {
        lemma_find_preview(h, sender, i - 1, stop);
    }
}

/// Index at which `e` lands when appended to `h`.
pub open spec fn landing(h: Seq<EncodedEvent>, e: EncodedEvent) -> int {
    match coalesce_slot(h, e) {
        Some(i) => i,
        None => h.len() as int,
    }
}

/// Entry `k` holds `e`, a preview of `sender`, and no later entry holds a
/// preview of `sender`.
pub open spec fn newest_preview_at(h: Seq<EncodedEvent>, sender: u128, k: int, e: EncodedEvent) -> bool {
    &&& 0 <= k < h.len()
    &&& h[k] == e
    &&& is_preview_from(e, sender)
    &&& forall|j: int| k < j < h.len() ==> !is_preview_from(#[trigger] h[j], sender)
}

proof fn lemma_coalesce_slot(h: Seq<EncodedEvent>, e: EncodedEvent)
    ensures
        match coalesce_slot(h, e) {
            Some(i) => {
                &&& window_start(h.len() as int) <= i < h.len()
                &&& preview_sender(h[i]) == preview_sender(e)
                &&& forall|j: int|
                    i < j < h.len() ==> preview_sender(#[trigger] h[j]) != preview_sender(e)
            },
            None => forall|j: int|
                window_start(h.len() as int) <= j < h.len() ==> !is_preview_from(
                    #[trigger] h[j],
                    preview_sender(e)->0,
                ) || preview_sender(e) is None,
        },
        appended(h, e).len() >= h.len(),
        landing(h, e) < appended(h, e).len(),
        appended(h, e)[landing(h, e)] == e,
        forall|j: int|
            0 <= j < appended(h, e).len() && j != landing(h, e) ==> #[trigger] appended(h, e)[j]
                == h[j],
{
    if let Some(sender) = preview_sender(e) {
        lemma_find_preview(h, sender, h.len() as int, window_start(h.len() as int));
    }
}

proof fn lemma_others_keep_newest_preview(
    h: Seq<EncodedEvent>,
    others: Seq<EncodedEvent>,
    sender: u128,
    k: int,
    p: EncodedEvent,
)
    requires
        newest_preview_at(h, sender, k, p),
        forall|i: int| 0 <= i < others.len() ==> !is_preview_from(#[trigger] others[i], sender),
    ensures
        newest_preview_at(append_all(h, others), sender, k, p),
    decreases others.len(),
{
    if others.len() > 0 {
        let rest = others.drop_last();
        assert forall|i: int| 0 <= i < rest.len() implies !is_preview_from(#[trigger] rest[i], sender) by {
            assert(rest[i] == others[i]);
        }
        lemma_others_keep_newest_preview(h, rest, sender, k, p);
        let m = append_all(h, rest);
        let e = others.last();
        assert(!is_preview_from(e, sender));
        lemma_coalesce_slot(m, e);
        if let Some(i) = coalesce_slot(m, e) {
            assert(i != k);
        }
    }
}

/// Preview coalescing. A preview of `sender` replaces in place the previous
/// preview `p1` of the same sender, when the events appended in between are
/// no previews of that sender and `p1`'s entry is still among the newest
/// entries that the lookback window covers.
pub proof fn lemma_preview_coalesces(
    h: Seq<EncodedEvent>,
    p1: EncodedEvent,
    others: Seq<EncodedEvent>,
    p2: EncodedEvent,
    sender: u128,
)
    requires
        is_preview_from(p1, sender),
        is_preview_from(p2, sender),
        forall|i: int| 0 <= i < others.len() ==> !is_preview_from(#[trigger] others[i], sender),
        landing(h, p1) >= window_start(append_all(appended(h, p1), others).len() as int),
    ensures
        ({
            let mid = append_all(appended(h, p1), others);
            &&& mid[landing(h, p1)] == p1
            &&& appended(mid, p2) == mid.update(landing(h, p1), p2)
        }),
{
    let k = landing(h, p1);
    let h1 = appended(h, p1);
    lemma_coalesce_slot(h, p1);
    lemma_find_preview(h, sender, h.len() as int, window_start(h.len() as int));
    assert(newest_preview_at(h1, sender, k, p1));
    lemma_others_keep_newest_preview(h1, others, sender, k, p1);
    let mid = append_all(h1, others);
    lemma_find_preview(mid, sender, mid.len() as int, window_start(mid.len() as int));
}

/// Preview non-coalescing. Once the previous preview `p1` of `sender` has
/// left the lookback window, with no preview of that sender appended since, a
/// new preview of `sender` is appended as a separate entry and `p1` stays.
pub proof fn lemma_preview_outside_window_appends(
    h: Seq<EncodedEvent>,
    p1: EncodedEvent,
    others: Seq<EncodedEvent>,
    p2: EncodedEvent,
    sender: u128,
)
    requires
        is_preview_from(p1, sender),
        is_preview_from(p2, sender),
        forall|i: int| 0 <= i < others.len() ==> !is_preview_from(#[trigger] others[i], sender),
        landing(h, p1) < window_start(append_all(appended(h, p1), others).len() as int),
    ensures
        ({
            let mid = append_all(appended(h, p1), others);
            &&& mid[landing(h, p1)] == p1
            &&& appended(mid, p2) == mid.push(p2)
        }),
{
    let k = landing(h, p1);
    let h1 = appended(h, p1);
    lemma_coalesce_slot(h, p1);
    lemma_find_preview(h, sender, h.len() as int, window_start(h.len() as int));
    assert(newest_preview_at(h1, sender, k, p1));
    lemma_others_keep_newest_preview(h1, others, sender, k, p1);
    let mid = append_all(h1, others);
    lemma_find_preview(mid, sender, mid.len() as int, window_start(mid.len() as int));
}

/// Events that are no previews are appended at the end, one after another.
pub proof fn lemma_append_all_plain(h: Seq<EncodedEvent>, evs: Seq<EncodedEvent>)
    requires
        forall|i: int| 0 <= i < evs.len() ==> preview_sender(#[trigger] evs[i]) is None,
    ensures
        append_all(h, evs) == h + evs,
    decreases evs.len(),
{
    if evs.len() > 0 {
        let rest = evs.drop_last();
        assert forall|i: int| 0 <= i < rest.len() implies preview_sender(#[trigger] rest[i]) is None by {
            assert(rest[i] == evs[i]);
        }
        lemma_append_all_plain(h, rest);
        assert(preview_sender(evs.last()) is None);
        assert(h + rest + seq![evs.last()] =~= h + evs);
    }
}

/// With at least as many plain events as the lookback window appended after
/// a preview, the next preview of the same sender gets an entry of its own:
/// both previews remain.
pub proof fn lemma_window_of_plain_events_separates_previews(
    h: Seq<EncodedEvent>,
    p1: EncodedEvent,
    others: Seq<EncodedEvent>,
    p2: EncodedEvent,
    sender: u128,
)
    requires
        is_preview_from(p1, sender),
        is_preview_from(p2, sender),
        others.len() >= PREVIEW_WINDOW,
        forall|i: int| 0 <= i < others.len() ==> preview_sender(#[trigger] others[i]) is None,
    ensures
        appended(appended(h, p1) + others, p2) == appended(h, p1) + others + seq![p2],
        (appended(h, p1) + others)[landing(h, p1)] == p1,
{
    lemma_append_all_plain(appended(h, p1), others);
    lemma_coalesce_slot(h, p1);
    lemma_preview_outside_window_appends(h, p1, others, p2, sender);
    assert((appended(h, p1) + others).push(p2) =~= appended(h, p1) + others + seq![p2]);
}

fn is_preview_of(e: &EncodedEvent, sender: u128) -> (r: bool)
    ensures
        r == is_preview_from(*e, sender),
{
    match &e.event.body {
        EventBody::MessagePreview { preview } => preview.sender_id == sender,
        _ => false,
    }
}

fn coalescing_slot(history: &Vec<Arc<EncodedEvent>>, event: &EncodedEvent) -> (r: Option<usize>)
    ensures
        r matches Some(i) ==> i < history.len() && coalesce_slot(events_of(history@), *event)
            == Some(i as int),
        r is None ==> coalesce_slot(events_of(history@), *event) is None,
{
    let sender = match &event.event.body {
        EventBody::MessagePreview { preview } => preview.sender_id,
        _ => {
            return None;
        },
    };
    let ghost h = events_of(history@);
    let len = history.len();
    let stop: usize = if len > PREVIEW_WINDOW {
        len - PREVIEW_WINDOW
    } else {
        0
    };
    let mut i: usize = len;
    while i > stop
        invariant
            stop <= i <= len,
            len == history.len(),
            h == events_of(history@),
            stop == window_start(len as int),
            preview_sender(*event) == Some(sender),
            find_preview(h, sender, len as int, stop as int) == find_preview(
                h,
                sender,
                i as int,
                stop as int,
            ),
        decreases i,
    {
        if is_preview_of(&history[i - 1], sender) {
            return Some(i - 1);
        }
        i = i - 1;
    }
    None
}

} // verus!
