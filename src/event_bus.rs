//! Live fan-out: one broadcast group per mailbox, each member with a bounded
//! queue of undelivered events. A member that falls behind loses its oldest
//! events and is told how many it missed; publishers never wait.
use crate::event_log::events_of;
use crate::events::EncodedEvent;
use std::collections::{HashMap, VecDeque};
use std::sync::Arc;
use vstd::prelude::*;

verus! {

broadcast use vstd::std_specs::hash::group_hash_axioms;

/// What one member of a broadcast group holds: the events not yet received,
/// oldest first, and how many it lost by lagging since it last heard of it.
pub struct SubscriberState {
    pub id: u64,
    pub queue: Seq<EncodedEvent>,
    pub missed: u64,
}

/// `n + 1`, staying at the largest value.
pub open spec fn saturating_inc(n: u64) -> u64 {
    if n < u64::MAX {
        (n + 1) as u64
    } else {
        n
    }
}

/// A member after `e` is published to a group with per-member bound `cap`:
/// `e` joins the queue; if the queue was full its oldest event is dropped and
/// counted as missed.
pub open spec fn delivered(s: SubscriberState, e: EncodedEvent, cap: nat) -> SubscriberState {
    if s.queue.len() < cap {
        SubscriberState { queue: s.queue.push(e), ..s }
    } else {
        SubscriberState { queue: s.queue.drop_first().push(e), missed: saturating_inc(s.missed), ..s }
    }
}

/// A group after `e` is published to it.
pub open spec fn fan_out(g: Seq<SubscriberState>, e: EncodedEvent, cap: nat) -> Seq<SubscriberState> {
    g.map_values(|s: SubscriberState| delivered(s, e, cap))
}

/// Index of the member with identifier `id`, searching from index `i` on.
pub open spec fn position_from(g: Seq<SubscriberState>, id: u64, i: int) -> Option<int>
    decreases g.len() - i,
{
    if i >= g.len() || i < 0 {
        None
    } else if g[i].id == id {
        Some(i)
    } else {
        position_from(g, id, i + 1)
    }
}

/// Index of the member with identifier `id`.
pub open spec fn position(g: Seq<SubscriberState>, id: u64) -> Option<int> {
    position_from(g, id, 0)
}

/// A group whose queues respect the bound and whose identifiers are
/// distinct and all below `next_id`.
pub open spec fn group_ok(g: Seq<SubscriberState>, cap: nat, next_id: u64) -> bool {
    &&& forall|j: int| 0 <= j < g.len() ==> (#[trigger] g[j]).queue.len() <= cap
    &&& forall|j: int| 0 <= j < g.len() ==> (#[trigger] g[j]).id < next_id
    &&& forall|i: int, j: int| 0 <= i < j < g.len() ==> (#[trigger] g[i]).id != (#[trigger] g[j]).id
}

/// A member after it asks for its next event: a pending lag report is
/// consumed first, else the oldest queued event.
pub open spec fn after_receive(s: SubscriberState) -> SubscriberState {
    if s.missed > 0 {
        SubscriberState { missed: 0, ..s }
    } else if s.queue.len() > 0 {
        SubscriberState { queue: s.queue.drop_first(), ..s }
    } else {
        s
    }
}

/// `r` is what a member in state `s` gets when it asks for its next event.
pub open spec fn receives(s: SubscriberState, r: Received) -> bool {
    if s.missed > 0 {
        r == Received::Lagged(s.missed)
    } else if s.queue.len() > 0 {
        r matches Received::Event(e) && *e == s.queue[0]
    } else {
        r is Empty
    }
}

/// The groups of `m` that have at least one member.
pub open spec fn without_idle(m: Map<u128, Seq<SubscriberState>>) -> Map<u128, Seq<SubscriberState>> {
    Map::new(|k: u128| m.contains_key(k) && m[k].len() > 0, |k: u128| m[k])
}

/// A group after each of `evs` is published to it in turn.
pub open spec fn published_all(g: Seq<SubscriberState>, evs: Seq<EncodedEvent>, cap: nat) -> Seq<
    SubscriberState,
>
    decreases evs.len(),
{
    if evs.len() == 0 {
        g
    } else {
        fan_out(published_all(g, evs.drop_last(), cap), evs.last(), cap)
    }
}

/// The last `cap` elements of `s` (all of them when there are fewer).
pub open spec fn newest(s: Seq<EncodedEvent>, cap: nat) -> Seq<EncodedEvent> {
    if s.len() > cap {
        s.subrange(s.len() - cap, s.len() as int)
    } else {
        s
    }
}

/// Ordered fan-out. After a run of publishes to a mailbox, each member that
/// belonged to its group throughout holds, oldest first, the newest events
/// of what it held before followed by the published events in publication
/// order, as many as its bound allows; and when they all fit, it holds every
/// one of them and has missed none.
pub proof fn lemma_publish_order(g: Seq<SubscriberState>, evs: Seq<EncodedEvent>, cap: nat, j: int)
    requires
        cap > 0,
        0 <= j < g.len(),
        g[j].queue.len() <= cap,
    ensures
        published_all(g, evs, cap).len() == g.len(),
        published_all(g, evs, cap)[j].id == g[j].id,
        published_all(g, evs, cap)[j].queue == newest(g[j].queue + evs, cap),
        g[j].queue.len() + evs.len() <= cap ==> published_all(g, evs, cap)[j].queue == g[j].queue + evs
            && published_all(g, evs, cap)[j].missed == g[j].missed,
    decreases evs.len(),
{
    if evs.len() == 0 {
        assert(g[j].queue + evs =~= g[j].queue);
    } else {
        let rest = evs.drop_last();
        let e = evs.last();
        lemma_publish_order(g, rest, cap, j);
        let before = published_all(g, rest, cap)[j];
        let all = g[j].queue + evs;
        let prev = g[j].queue + rest;
        assert(all =~= prev.push(e));
        if prev.len() >= cap {
            assert(before.queue.len() == cap);
            assert(newest(all, cap) =~= newest(prev, cap).drop_first().push(e));
        } else {
            assert(newest(all, cap) =~= newest(prev, cap).push(e));
        }
    }
}

/// Idle sweep. A mailbox whose group has no member is gone from the registry
/// after a sweep; one whose group has a member keeps it unchanged.
pub proof fn lemma_sweep_idle(m: Map<u128, Seq<SubscriberState>>, mailbox: u128)
    requires
        m.contains_key(mailbox),
    ensures
        m[mailbox].len() == 0 ==> !without_idle(m).contains_key(mailbox),
        m[mailbox].len() > 0 ==> without_idle(m).contains_key(mailbox) && without_idle(m)[mailbox]
            == m[mailbox],
{
}

/// What a member gets when it asks for its next event.
pub enum Received {
    /// The oldest event it had not received.
    Event(Arc<EncodedEvent>),
    /// It fell behind and lost this many events; it should catch up from
    /// the history.
    Lagged(u64),
    /// Nothing new.
    Empty,
    /// It is not a member of that mailbox's group.
    Closed,
}

struct Subscriber {
    id: u64,
    queue: VecDeque<Arc<EncodedEvent>>,
    missed: u64,
}

impl View for Subscriber {
    type V = SubscriberState;

    closed spec fn view(&self) -> SubscriberState {
        SubscriberState { id: self.id, queue: events_of(self.queue@), missed: self.missed }
    }
}

impl Subscriber {
    fn take_next(&mut self) -> (r: Received)
        ensures
            receives(old(self)@, r),
            final(self)@ == after_receive(old(self)@),
    {
        if self.missed > 0 {
            let n = self.missed;
            self.missed = 0;
            Received::Lagged(n)
        } else {
            match self.queue.pop_front() {
                Some(e) => {
                    assert(self@.queue =~= old(self)@.queue.drop_first());
                    Received::Event(e)
                },
                None => Received::Empty,
            }
        }
    }

    fn deliver(&mut self, e: &Arc<EncodedEvent>, cap: usize)
        requires
            cap > 0,
            old(self)@.queue.len() <= cap,
        ensures
            final(self)@ == delivered(old(self)@, **e, cap as nat),
    {
        if self.queue.len() >= cap {
            let _ = self.queue.pop_front();
            self.missed = if self.missed < u64::MAX {
                self.missed + 1
            } else {
                self.missed
            };
        }
        self.queue.push_back(e.clone());
        assert(self@.queue =~= delivered(old(self)@, **e, cap as nat).queue);
    }
}

/// Registry of the broadcast groups of all live mailboxes.
pub struct EventBus {
    groups: HashMap<u128, Vec<Subscriber>>,
    /// The mailboxes that have a group, each once.
    mailboxes: Vec<u128>,
    capacity: usize,
    next_id: u64,
}

spec fn states_of(v: Seq<Subscriber>) -> Seq<SubscriberState> {
    v.map_values(|s: Subscriber| s@)
}

impl View for EventBus {
    type V = Map<u128, Seq<SubscriberState>>;

    closed spec fn view(&self) -> Map<u128, Seq<SubscriberState>> {
        self.groups@.map_values(|v: Vec<Subscriber>| states_of(v@))
    }
}

impl EventBus {
    /// Bound on the undelivered events each member holds.
    pub closed spec fn capacity(&self) -> nat {
        self.capacity as nat
    }

    /// Identifier the next member will get.
    pub closed spec fn next_id(&self) -> u64 {
        self.next_id
    }

    /// The members of the group of `mailbox`; none when it has no group.
    pub open spec fn group(&self, mailbox: u128) -> Seq<SubscriberState> {
        if self@.contains_key(mailbox) {
            self@[mailbox]
        } else {
            Seq::empty()
        }
    }

    /// The registry is well formed: the bound is positive, the list of
    /// mailboxes matches the groups, and every group is `group_ok`.
    pub closed spec fn wf(&self) -> bool {
        &&& self.capacity > 0
        &&& self.mailboxes@.no_duplicates()
        &&& forall|k: u128| self.mailboxes@.contains(k) <==> self.groups@.contains_key(k)
        &&& forall|k: u128|
            #[trigger] self@.contains_key(k) ==> group_ok(self@[k], self.capacity as nat, self.next_id)
    }

    /// A registry with no groups, whose members each hold at most
    /// `capacity` undelivered events.
    pub fn new(capacity: usize) -> (r: EventBus)
        requires
            capacity > 0,
        ensures
            r.wf(),
            r@ == Map::<u128, Seq<SubscriberState>>::empty(),
            r.capacity() == capacity,
            r.next_id() == 0,
    {
        let r = EventBus { groups: HashMap::new(), mailboxes: Vec::new(), capacity, next_id: 0 };
        assert(r@ =~= Map::<u128, Seq<SubscriberState>>::empty());
        r
    }

    /// Takes the group of `mailbox` out of the registry, or an empty one.
    fn take_group(&mut self, mailbox: u128) -> (r: Vec<Subscriber>)
        requires
            old(self).wf(),
        ensures
            states_of(r@) == old(self).group(mailbox),
            final(self).groups@ == old(self).groups@.remove(mailbox),
            final(self).mailboxes == old(self).mailboxes,
            final(self).capacity == old(self).capacity,
            final(self).next_id == old(self).next_id,
    {
        match self.groups.remove(&mailbox) {
            Some(g) => g,
            None => {
                let g: Vec<Subscriber> = Vec::new();
                assert(states_of(g@) =~= Seq::<SubscriberState>::empty());
                g
            },
        }
    }

    /// Puts a group back for `mailbox` after `take_group`.
    fn put_group(&mut self, mailbox: u128, g: Vec<Subscriber>, Ghost(before): Ghost<EventBus>)
        requires
            before.wf(),
            old(self).groups@ == before.groups@.remove(mailbox),
            old(self).mailboxes == before.mailboxes,
            old(self).capacity == before.capacity,
            group_ok(states_of(g@), old(self).capacity as nat, old(self).next_id),
            old(self).next_id >= before.next_id,
        ensures
            final(self).wf(),
            final(self)@ == before@.insert(mailbox, states_of(g@)),
            final(self).capacity == old(self).capacity,
            final(self).next_id == old(self).next_id,
    {
        let ghost mb0 = self.mailboxes@;
        if !contains(&self.mailboxes, mailbox) {
            self.mailboxes.push(mailbox);
            proof {
                let mb = self.mailboxes@;
                assert forall|k: u128| mb.contains(k) <==> (mb0.contains(k) || k == mailbox) by {
                    if mb0.contains(k) {
                        let i = choose|i: int| 0 <= i < mb0.len() && mb0[i] == k;
                        assert(mb[i] == k);
                    }
                    if k == mailbox {
                        assert(mb[mb0.len() as int] == k);
                    }
                    if mb.contains(k) {
                        let i = choose|i: int| 0 <= i < mb.len() && mb[i] == k;
                        if i < mb0.len() {
                            assert(mb0[i] == k);
                        }
                    }
                }
                assert forall|i: int, j: int| 0 <= i < mb.len() && 0 <= j < mb.len() && i != j
                    implies mb[i] != mb[j] by {
                    if i < mb0.len() && j < mb0.len() {
                    } else if i < mb0.len() {
                        assert(mb0.contains(mb[i]));
                    } else {
                        assert(mb0.contains(mb[j]));
                    }
                }
            }
        }
        self.groups.insert(mailbox, g);
        assert(self@ =~= before@.insert(mailbox, states_of(g@)));
        assert forall|k: u128| #[trigger] self@.contains_key(k) implies group_ok(
            self@[k],
            self.capacity as nat,
            self.next_id,
        ) by {
            if k != mailbox {
                assert(before@.contains_key(k));
                let gk = self@[k];
                assert(group_ok(gk, before.capacity as nat, before.next_id));
                assert forall|j: int| 0 <= j < gk.len() implies (#[trigger] gk[j]).id < self.next_id by {
                    assert(gk[j].id < before.next_id);
                }
            }
        }
    }

    /// Delivers `event` to every member of the group of its mailbox, making
    /// the group if there is none. A full queue loses its oldest event.
    pub fn publish(&mut self, event: &Arc<EncodedEvent>)
        requires
            old(self).wf(),
        ensures
            final(self).wf(),
            final(self)@ == old(self)@.insert(
                event.event.mailbox,
                fan_out(old(self).group(event.event.mailbox), **event, old(self).capacity()),
            ),
            final(self).capacity() == old(self).capacity(),
            final(self).next_id() == old(self).next_id(),
    {
        let ghost before = *self;
        let mailbox = event.event.mailbox;
        let mut g = self.take_group(mailbox);
        let ghost g0 = states_of(g@);
        let cap = self.capacity;
        assert(before@.contains_key(mailbox) ==> g0 == before@[mailbox]);
        let mut j: usize = 0;
        while j < g.len()
            invariant
                cap == before.capacity,
                cap > 0,
                j <= g.len(),
                g.len() == g0.len(),
                group_ok(g0, cap as nat, before.next_id),
                forall|i: int| 0 <= i < j ==> #[trigger] states_of(g@)[i] == delivered(g0[i], **event, cap as nat),
                forall|i: int| j <= i < g.len() ==> #[trigger] states_of(g@)[i] == g0[i],
            decreases g.len() - j,
        {
            assert(states_of(g@)[j as int] == g0[j as int]);
            let ghost prev = g@;
            g[j].deliver(event, cap);
            assert(g@ == prev.update(j as int, g@[j as int]));
            assert forall|i: int| 0 <= i < g.len() && i != j implies #[trigger] states_of(g@)[i]
                == states_of(prev)[i] by {
                assert(g@[i] == prev[i]);
            }
            j = j + 1;
        }
        assert(states_of(g@) =~= fan_out(g0, **event, cap as nat));
        self.put_group(mailbox, g, Ghost(before));
    }

    /// Adds a member to the group of `mailbox`, making the group if there is
    /// none, and returns the new member's identifier; `None`, with nothing
    /// changed, once identifiers are used up.
    pub fn subscribe(&mut self, mailbox: u128) -> (r: Option<u64>)
        requires
            old(self).wf(),
        ensures
            final(self).wf(),
            final(self).capacity() == old(self).capacity(),
            match r {
                Some(id) => {
                    &&& old(self).next_id() < u64::MAX
                    &&& id == old(self).next_id()
                    &&& final(self).next_id() == id + 1
                    &&& final(self)@ == old(self)@.insert(
                        mailbox,
                        old(self).group(mailbox).push(
                            SubscriberState { id, queue: Seq::empty(), missed: 0 },
                        ),
                    )
                },
                None => {
                    &&& old(self).next_id() == u64::MAX
                    &&& final(self)@ == old(self)@
                    &&& final(self).next_id() == old(self).next_id()
                },
            },
    {
        if self.next_id == u64::MAX {
            return None;
        }
        let ghost before = *self;
        let id = self.next_id;
        let mut g = self.take_group(mailbox);
        let ghost g0 = states_of(g@);
        let member = Subscriber { id, queue: VecDeque::new(), missed: 0 };
        assert(member@.queue =~= Seq::<EncodedEvent>::empty());
        g.push(member);
        self.next_id = id + 1;
        assert(states_of(g@) =~= g0.push(SubscriberState { id, queue: Seq::empty(), missed: 0 }));
        assert(group_ok(g0, self.capacity as nat, before.next_id));
        self.put_group(mailbox, g, Ghost(before));
        Some(id)
    }

    /// Removes the member `id` from the group of `mailbox`; false, with
    /// nothing changed, when it is not a member there. The group stays, even
    /// when empty, until the next sweep.
    pub fn unsubscribe(&mut self, mailbox: u128, id: u64) -> (r: bool)
        requires
            old(self).wf(),
        ensures
            final(self).wf(),
            final(self).capacity() == old(self).capacity(),
            final(self).next_id() == old(self).next_id(),
            match position(old(self).group(mailbox), id) {
                Some(j) => r && final(self)@ == old(self)@.insert(mailbox, old(self).group(mailbox).remove(j)),
                None => !r && final(self)@ == old(self)@,
            },
    {
        if !self.groups.contains_key(&mailbox) {
            return false;
        }
        let ghost before = *self;
        let mut g = self.take_group(mailbox);
        let ghost g0 = states_of(g@);
        assert(group_ok(g0, self.capacity as nat, self.next_id));
        match find_member(&g, id) {
            Some(j) => {
                g.remove(j);
                assert(states_of(g@) =~= g0.remove(j as int));
                assert(group_ok(states_of(g@), self.capacity as nat, self.next_id)) by {
                    let g1 = states_of(g@);
                    assert forall|a: int, b: int| 0 <= a < b < g1.len() implies (#[trigger] g1[a]).id
                        != (#[trigger] g1[b]).id by {
                        let a0 = if a < j { a } else { a + 1 };
                        let b0 = if b < j { b } else { b + 1 };
                        assert(g1[a] == g0[a0] && g1[b] == g0[b0]);
                    }
                    assert forall|a: int| 0 <= a < g1.len() implies (#[trigger] g1[a]).queue.len()
                        <= self.capacity && g1[a].id < self.next_id by {
                        let a0 = if a < j { a } else { a + 1 };
                        assert(g1[a] == g0[a0]);
                    }
                }
                self.put_group(mailbox, g, Ghost(before));
                true
            },
            None => {
                self.put_group(mailbox, g, Ghost(before));
                assert(self@ =~= before@);
                false
            },
        }
    }

    /// The next thing member `id` of the group of `mailbox` is to receive: a
    /// pending lag report first, else its oldest queued event.
    pub fn recv(&mut self, mailbox: u128, id: u64) -> (r: Received)
        requires
            old(self).wf(),
        ensures
            final(self).wf(),
            final(self).capacity() == old(self).capacity(),
            final(self).next_id() == old(self).next_id(),
            match position(old(self).group(mailbox), id) {
                Some(j) => {
                    &&& receives(old(self).group(mailbox)[j], r)
                    &&& final(self)@ == old(self)@.insert(
                        mailbox,
                        old(self).group(mailbox).update(j, after_receive(old(self).group(mailbox)[j])),
                    )
                },
                None => r is Closed && final(self)@ == old(self)@,
            },
    {
        if !self.groups.contains_key(&mailbox) {
            return Received::Closed;
        }
        let ghost before = *self;
        let mut g = self.take_group(mailbox);
        let ghost g0 = states_of(g@);
        assert(group_ok(g0, self.capacity as nat, self.next_id));
        match find_member(&g, id) {
            Some(j) => {
                let ghost prev = g@;
                let r = g[j].take_next();
                assert(g@ == prev.update(j as int, g@[j as int]));
                assert(states_of(g@) =~= g0.update(j as int, after_receive(g0[j as int])));
                assert(group_ok(states_of(g@), self.capacity as nat, self.next_id)) by {
                    let g1 = states_of(g@);
                    assert forall|a: int| 0 <= a < g1.len() implies #[trigger] g1[a].id == g0[a].id
                        && g1[a].queue.len() <= g0[a].queue.len() by {
                        if a == j {
                            if g0[a].missed == 0 && g0[a].queue.len() > 0 {
                                assert(g1[a].queue.len() == g0[a].queue.len() - 1);
                            }
                        }
                    }
                }
                self.put_group(mailbox, g, Ghost(before));
                r
            },
            None => {
                self.put_group(mailbox, g, Ghost(before));
                assert(self@ =~= before@);
                Received::Closed
            },
        }
    }

    /// Removes every group that has no member.
    pub fn sweep_idle(&mut self)
        requires
            old(self).wf(),
        ensures
            final(self).wf(),
            final(self)@ == without_idle(old(self)@),
            final(self).capacity() == old(self).capacity(),
            final(self).next_id() == old(self).next_id(),
    {
        let ghost orig = self.groups@;
        let ghost before = *self;
        let mut kept: Vec<u128> = Vec::new();
        let mut i: usize = 0;
        while i < self.mailboxes.len()
            invariant
                before.wf(),
                self.mailboxes == before.mailboxes,
                self.capacity == before.capacity,
                self.next_id == before.next_id,
                orig == before.groups@,
                i <= self.mailboxes.len(),
                forall|k: u128| #[trigger] self.groups@.contains_key(k) <==> (orig.contains_key(k)
                    && (orig[k]@.len() > 0 || !self.mailboxes@.subrange(0, i as int).contains(k))),
                forall|k: u128| #[trigger] self.groups@.contains_key(k) ==> self.groups@[k] == orig[k],
                kept@.no_duplicates(),
                forall|k: u128| #[trigger] kept@.contains(k) <==> (orig.contains_key(k) && orig[k]@.len() > 0
                    && self.mailboxes@.subrange(0, i as int).contains(k)),
            decreases self.mailboxes.len() - i,
        {
            let k = self.mailboxes[i];
            let ghost seen = self.mailboxes@.subrange(0, i as int);
            let ghost seen1 = self.mailboxes@.subrange(0, i + 1);
            assert(seen1 =~= seen.push(k));
            assert(forall|x: u128| seen1.contains(x) <==> (seen.contains(x) || x == k)) by {
                assert forall|x: u128| seen1.contains(x) <==> (seen.contains(x) || x == k) by {
                    if seen.contains(x) {
                        let a = choose|a: int| 0 <= a < seen.len() && seen[a] == x;
                        assert(seen1[a] == x);
                    }
                    if x == k {
                        assert(seen1[i as int] == x);
                    }
                    if seen1.contains(x) {
                        let a = choose|a: int| 0 <= a < seen1.len() && seen1[a] == x;
                        if a < i {
                            assert(seen[a] == x);
                        }
                    }
                }
            }
            assert(!seen.contains(k)) by {
                if seen.contains(k) {
                    let a = choose|a: int| 0 <= a < seen.len() && seen[a] == k;
                    assert(self.mailboxes@[a] == self.mailboxes@[i as int]);
                }
            }
            assert(orig.contains_key(k)) by {
                assert(self.mailboxes@.contains(k) ==> orig.contains_key(k));
                assert(self.mailboxes@[i as int] == k);
            }
            assert(self.groups@.contains_key(k));
            let idle = match self.groups.get(&k) {
                Some(g) => g.len() == 0,
                None => false,
            };
            assert(idle == (orig[k]@.len() == 0));
            let ghost kept0 = kept@;
            assert(!kept0.contains(k));
            if idle {
                self.groups.remove(&k);
            } else {
                kept.push(k);
                proof {
                    assert forall|x: u128| kept@.contains(x) <==> (kept0.contains(x) || x == k) by {
                        if kept0.contains(x) {
                            let a = choose|a: int| 0 <= a < kept0.len() && kept0[a] == x;
                            assert(kept@[a] == x);
                        }
                        if x == k {
                            assert(kept@[kept0.len() as int] == x);
                        }
                        if kept@.contains(x) {
                            let a = choose|a: int| 0 <= a < kept@.len() && kept@[a] == x;
                            if a < kept0.len() {
                                assert(kept0[a] == x);
                            }
                        }
                    }
                    assert forall|a: int, b: int| 0 <= a < kept@.len() && 0 <= b < kept@.len() && a != b
                        implies kept@[a] != kept@[b] by {
                        if a < kept0.len() && b < kept0.len() {
                        } else if a < kept0.len() {
                            assert(kept0.contains(kept@[a]));
                        } else {
                            assert(kept0.contains(kept@[b]));
                        }
                    }
                }
            }
            assert forall|x: u128| #[trigger] kept@.contains(x) <==> (orig.contains_key(x)
                && orig[x]@.len() > 0 && seen1.contains(x)) by {
                if x != k {
                    assert(kept@.contains(x) <==> kept0.contains(x));
                }
            }
            i = i + 1;
        }
        assert(self.mailboxes@.subrange(0, i as int) =~= self.mailboxes@);
        self.mailboxes = kept;
        assert(self@ =~= without_idle(before@));
        assert forall|k: u128| #[trigger] self@.contains_key(k) implies group_ok(
            self@[k],
            self.capacity as nat,
            self.next_id,
        ) by {
            assert(before@.contains_key(k));
        }
    }

    /// How many members the group of `mailbox` has.
    pub fn receiver_count(&self, mailbox: u128) -> (r: usize)
        ensures
            r == self.group(mailbox).len(),
    {
        match self.groups.get(&mailbox) {
            Some(g) => g.len(),
            None => 0,
        }
    }
}

fn find_member(g: &Vec<Subscriber>, id: u64) -> (r: Option<usize>)
    ensures
        r matches Some(j) ==> j < g.len() && position(states_of(g@), id) == Some(j as int),
        r is None ==> position(states_of(g@), id) is None,
{
    let ghost s = states_of(g@);
    let mut i: usize = 0;
    while i < g.len()
        invariant
            i <= g.len(),
            s == states_of(g@),
            position(s, id) == position_from(s, id, i as int),
        decreases g.len() - i,
    {
        if g[i].id == id {
            return Some(i);
        }
        i = i + 1;
    }
    None
}

fn contains(v: &Vec<u128>, x: u128) -> (r: bool)
    ensures
        r == v@.contains(x),
{
    let mut i: usize = 0;
    while i < v.len()
        invariant
            i <= v.len(),
            forall|j: int| 0 <= j < i ==> v@[j] != x,
        decreases v.len() - i,
    {
        if v[i] == x {
            return true;
        }
        i = i + 1;
    }
    false
}

} // verus!
