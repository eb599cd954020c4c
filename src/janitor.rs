//! The periodic sweeps: how often they run, which durable entries a prune
//! removes, and the keys under which the durable store keeps each mailbox's
//! events.
use crate::events::Event;
use crate::wire::{hyphenated, int_text, uuid_text, write_int};
use vstd::prelude::*;

verus! {

/// Milliseconds between two sweeps of idle broadcast groups.
pub const IDLE_SWEEP_PERIOD_MS: u64 = 300_000;

/// Milliseconds between two prunes of the durable history.
pub const PRUNE_PERIOD_MS: u64 = 43_200_000;

/// How long the durable store keeps an event, in milliseconds.
pub const RETENTION_MS: i64 = 86_400_000;

pub const HOUR_MS: i64 = 3_600_000;

/// The oldest time a prune at `now` keeps; earlier entries go.
pub open spec fn prune_cutoff_spec(now: int) -> int {
    if now - RETENTION_MS >= i64::MIN {
        now - RETENTION_MS
    } else {
        i64::MIN as int
    }
}

/// Whether a prune with `cutoff` removes an entry stamped `ts`.
pub open spec fn is_stale(ts: int, cutoff: int) -> bool {
    ts < cutoff
}

/// The time before which a prune at `now` removes durable entries.
pub fn prune_cutoff(now: i64) -> (r: i64)
    ensures
        r == prune_cutoff_spec(now as int),
{
    if now >= i64::MIN + RETENTION_MS {
        now - RETENTION_MS
    } else {
        i64::MIN
    }
}

/// Whether a prune with `cutoff` removes an entry stamped `ts`.
pub fn stale(ts: i64, cutoff: i64) -> (r: bool)
    ensures
        r == is_stale(ts as int, cutoff as int),
{
    ts < cutoff
}

/// The exclusive upper score bound, in the durable store's range syntax,
/// that selects the entries stamped before `cutoff`.
pub open spec fn stale_bound_text(cutoff: i64) -> Seq<char> {
    "("@ + int_text(cutoff as int)
}

pub fn stale_score_bound(cutoff: i64) -> (r: String)
    ensures
        r@ == stale_bound_text(cutoff),
{
    let mut out = String::from_str("(");
    write_int(&mut out, cutoff);
    out
}

/// Durable pruning. With a 24-hour retention, a prune removes an entry
/// stamped 25 hours before it and keeps one stamped an hour before it.
pub proof fn lemma_prune_keeps_last_day(now: int)
    requires
        i64::MIN + 25 * HOUR_MS <= now <= i64::MAX,
    ensures
        is_stale(now - 25 * HOUR_MS, prune_cutoff_spec(now)),
        !is_stale(now - HOUR_MS, prune_cutoff_spec(now)),
{
}

/// Key of the durable events of `mailbox`: `mailbox:<id>:events`.
pub open spec fn cache_key_text(mailbox: u128) -> Seq<char> {
    "mailbox:"@ + hyphenated(mailbox) + ":events"@
}

impl Event {
    pub fn cache_key(mailbox: u128) -> (r: String)
        ensures
            r@ == cache_key_text(mailbox),
    {
        let mut key = String::from_str("mailbox:");
        let id = uuid_text(mailbox);
        key.append(id.as_str());
        key.append(":events");
        key
    }
}

} // verus!
