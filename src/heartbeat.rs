//! Presence: for each mailbox, the last time each user was seen.
use std::collections::HashMap;
use vstd::std_specs::iter::IteratorSpec;
use vstd::prelude::*;

verus! {

broadcast use vstd::std_specs::hash::group_hash_axioms;

/// `entries` lists exactly the pairs of `m`, each key once.
pub open spec fn lists_map(entries: Seq<(u128, i64)>, m: Map<u128, i64>) -> bool {
    &&& forall|i: int, j: int| 0 <= i < j < entries.len() ==> (#[trigger] entries[i]).0 != (#[trigger] entries[j]).0
    &&& forall|i: int| 0 <= i < entries.len() ==> m.contains_key((#[trigger] entries[i]).0) && m[entries[i].0] == entries[i].1
    &&& forall|u: u128| #[trigger] m.contains_key(u) ==> exists|i: int| 0 <= i < entries.len() && (#[trigger] entries[i]).0 == u
}

/// Last-seen times of the users of `mailbox` in `v`; none when it has none.
pub open spec fn seen_in(v: Map<u128, Map<u128, i64>>, mailbox: u128) -> Map<u128, i64> {
    if v.contains_key(mailbox) {
        v[mailbox]
    } else {
        Map::empty()
    }
}

/// `v` after `user` is seen in `mailbox` at `now`.
pub open spec fn beat(v: Map<u128, Map<u128, i64>>, mailbox: u128, user: u128, now: i64) -> Map<
    u128,
    Map<u128, i64>,
> {
    v.insert(mailbox, seen_in(v, mailbox).insert(user, now))
}

/// Heartbeats. After heartbeats of two distinct users in a mailbox, both
/// are in its map with the times of their heartbeats; a repeated heartbeat
/// of the first replaces its time and adds no user.
pub proof fn lemma_heartbeats(
    v: Map<u128, Map<u128, i64>>,
    mailbox: u128,
    u1: u128,
    u2: u128,
    t1: i64,
    t2: i64,
    t3: i64,
)
    requires
        u1 != u2,
    ensures
        ({
            let v2 = beat(beat(v, mailbox, u1, t1), mailbox, u2, t2);
            let v3 = beat(v2, mailbox, u1, t3);
            &&& seen_in(v2, mailbox).contains_key(u1)
            &&& seen_in(v2, mailbox)[u1] == t1
            &&& seen_in(v2, mailbox).contains_key(u2)
            &&& seen_in(v2, mailbox)[u2] == t2
            &&& seen_in(v3, mailbox)[u1] == t3
            &&& seen_in(v3, mailbox)[u2] == t2
            &&& seen_in(v3, mailbox).dom() == seen_in(v2, mailbox).dom()
        }),
{
    let v2 = beat(beat(v, mailbox, u1, t1), mailbox, u2, t2);
    let v3 = beat(v2, mailbox, u1, t3);
    assert(seen_in(v3, mailbox).dom() =~= seen_in(v2, mailbox).dom());
}

/// Last-seen times of users, per mailbox.
pub struct HeartbeatTracker {
    maps: HashMap<u128, HashMap<u128, i64>>,
}

impl View for HeartbeatTracker {
    type V = Map<u128, Map<u128, i64>>;

    closed spec fn view(&self) -> Map<u128, Map<u128, i64>> {
        self.maps@.map_values(|m: HashMap<u128, i64>| m@)
    }
}

impl HeartbeatTracker {
    pub fn new() -> (r: HeartbeatTracker)
        ensures
            r@ == Map::<u128, Map<u128, i64>>::empty(),
    {
        let r = HeartbeatTracker { maps: HashMap::new() };
        assert(r@ =~= Map::<u128, Map<u128, i64>>::empty());
        r
    }

    /// Records that `user` was seen in `mailbox` at `now`, replacing any
    /// earlier time of that user there.
    pub fn heartbeat(&mut self, mailbox: u128, user: u128, now: i64)
        ensures
            final(self)@ == beat(old(self)@, mailbox, user, now),
    {
        let mut users = match self.maps.remove(&mailbox) {
            Some(m) => m,
            None => HashMap::new(),
        };
        assert(users@ == seen_in(old(self)@, mailbox));
        users.insert(user, now);
        let ghost uv = users@;
        self.maps.insert(mailbox, users);
        assert(self.maps@[mailbox]@ == uv);
        assert(self.maps@.dom() =~= old(self).maps@.dom().insert(mailbox));
        assert(forall|k: u128| k != mailbox ==> self.maps@.get(k) == old(self).maps@.get(k));
        assert(self@ =~= old(self)@.insert(mailbox, seen_in(old(self)@, mailbox).insert(user, now)));
    }

    /// Every user seen in `mailbox` with its last-seen time, each once, in
    /// no particular order.
    pub fn snapshot(&self, mailbox: u128) -> (r: Vec<(u128, i64)>)
        ensures
            lists_map(r@, seen_in(self@, mailbox)),
    {
        let mut r: Vec<(u128, i64)> = Vec::new();
        match self.maps.get(&mailbox) {
            Some(users) => {
                let ghost m = users@;
                assert(m == seen_in(self@, mailbox));
                let ghost s = users.iter().remaining();
                for pair in it: users.iter()
                    invariant
                        m == users@,
                        it.seq() == s,
                        r.len() == it.index(),
                        it.seq().len() == m.dom().len(),
                        it.seq().no_duplicates(),
                        forall|i: int| 0 <= i < it.seq().len() ==> m.contains_key(*(#[trigger] it.seq()[i]).0)
                            && m[*it.seq()[i].0] == *it.seq()[i].1,
                        forall|u: u128| #[trigger] m.contains_key(u) ==> it.seq().contains((&u, &m[u])),
                        forall|i: int| 0 <= i < r.len() ==> (#[trigger] r@[i]).0 == *it.seq()[i].0 && r@[i].1
                            == *it.seq()[i].1,
                {
                    let (u, t) = pair;
                    r.push((*u, *t));
                }
                proof {
                    assert forall|i: int, j: int| 0 <= i < j < r.len() implies (#[trigger] r@[i]).0
                        != (#[trigger] r@[j]).0 by {
                        if r@[i].0 == r@[j].0 {
                            assert(m[*s[i].0] == m[*s[j].0]);
                            assert(s[i] == s[j]);
                        }
                    }
                    assert forall|u: u128| #[trigger] m.contains_key(u) implies exists|i: int|
                        0 <= i < r.len() && (#[trigger] r@[i]).0 == u by {
                        assert(s.contains((&u, &m[u])));
                        let i = choose|i: int| 0 <= i < s.len() && s[i] == (&u, &m[u]);
                        assert(r@[i].0 == u);
                    }
                }
            },
            None => {},
        }
        r
    }
}

} // verus!
