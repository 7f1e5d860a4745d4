//! The recent activity of every tracked identity.

use std::collections::VecDeque;

use vstd::prelude::*;

use crate::engine::identity::Identity;
use crate::engine::time::{Duration, Instant};

verus! {

/// Whether an event is older than a window of `window` nanoseconds at `now`.
/// An event in the future is not.
pub open spec fn is_expired(event: Instant, now: Instant, window: nat) -> bool {
    now.nanos - event.nanos > window
}

/// What is left of `events` once the expired ones at the front are dropped.
pub open spec fn unexpired(events: Seq<Instant>, now: Instant, window: nat) -> Seq<Instant>
    decreases events.len(),
{
    if events.len() > 0 && is_expired(events[0], now, window) {
        unexpired(events.skip(1), now, window)
    } else {
        events
    }
}

/// Whether `a` was active no later than `b`: never having been active comes
/// first, and otherwise the last recorded event counts.
pub open spec fn no_more_recent(a: Seq<Instant>, b: Seq<Instant>) -> bool {
    a.len() == 0 || (b.len() > 0 && a.last().nanos <= b.last().nanos)
}

/// Whether `after` is `before` cut down to `limit` identities by forgetting
/// the least recently active ones. Among equally recent ones, any may go.
pub open spec fn trimmed(
    before: Map<Seq<char>, Seq<Instant>>,
    limit: nat,
    after: Map<Seq<char>, Seq<Instant>>,
) -> bool {
    &&& after.submap_of(before)
    &&& before.dom().len() <= limit ==> after == before
    &&& before.dom().len() > limit ==> after.dom().len() == limit
    &&& forall|gone: Seq<char>, kept: Seq<char>|
        before.dom().contains(gone) && !after.dom().contains(gone) && #[trigger] after.dom().contains(
            kept,
        ) ==> no_more_recent(#[trigger] before[gone], before[kept])
}

/// How many identities may stay when one more is about to join a history
/// capped at `cap`.
pub open spec fn room_for_one(cap: nat) -> nat {
    if cap > 0 {
        (cap - 1) as nat
    } else {
        0
    }
}

/// Whether `after` is `before` with `key` among its tracked identities. An
/// identity new to a history that is already at `cap` makes room for itself
/// at the expense of the least recently active one.
pub open spec fn tracking(
    before: Map<Seq<char>, Seq<Instant>>,
    key: Seq<char>,
    cap: nat,
    after: Map<Seq<char>, Seq<Instant>>,
) -> bool {
    if before.dom().contains(key) {
        after == before
    } else {
        exists|room: Map<Seq<char>, Seq<Instant>>| #[trigger]
            trimmed(before, room_for_one(cap), room) && after
                == room.insert(key, Seq::empty())
    }
}

/// Tracking one more identity keeps a memory within any bound that is no
/// smaller than its cap.
pub(crate) proof fn lemma_tracking_bound(
    before: Map<Seq<char>, Seq<Instant>>,
    key: Seq<char>,
    cap: nat,
    after: Map<Seq<char>, Seq<Instant>>,
    bound: nat,
)
    requires
        tracking(before, key, cap, after),
        bound >= cap,
        bound >= 1,
        before.dom().finite(),
        before.dom().len() <= bound,
    ensures
        after.dom().finite(),
        after.dom().len() <= bound,
        after.dom().contains(key),
{
    if !before.dom().contains(key) {
        let limit = room_for_one(cap);
        let room = choose|room: Map<Seq<char>, Seq<Instant>>| #[trigger]
            trimmed(before, limit, room) && after == room.insert(key, Seq::empty());
        assert(room.dom().subset_of(before.dom()));
        vstd::set_lib::lemma_len_subset(room.dom(), before.dom());
        assert(after.dom() =~= room.dom().insert(key));
    }
}

/// Whether an event is older than `window` at `now`.
pub fn expired(event: Instant, now: Instant, window: Duration) -> (old: bool)
    ensures
        old == is_expired(event, now, window.total_nanos()),
{
    let window_nanos: u128 = window.as_nanos();
    match now.nanos.checked_sub(event.nanos) {
        Some(age) => age > 0 && (age as u128) > window_nanos,
        None => now.nanos > event.nanos,
    }
}

/// One tracked identity and the admitted events remembered for it.
struct Bucket {
    identity: Identity,
    events: VecDeque<Instant>,
}

/// The admitted events of every tracked identity, one per unit of blast
/// radius, in the order of admission.
pub struct History {
    buckets: Vec<Bucket>,
}

impl View for History {
    type V = Map<Seq<char>, Seq<Instant>>;

    closed spec fn view(&self) -> Map<Seq<char>, Seq<Instant>> {
        Map::new(
            |key: Seq<char>| self.keys().contains(key),
            |key: Seq<char>| self.buckets@[self.keys().index_of(key)].events@,
        )
    }
}

impl History {
    spec fn keys(self) -> Seq<Seq<char>> {
        Seq::new(self.buckets@.len(), |i: int| self.buckets@[i].identity@)
    }

    /// No identity is tracked twice.
    pub closed spec fn wf(self) -> bool {
        self.keys().no_duplicates()
    }

    proof fn lemma_bucket(self, i: int)
        requires
            self.wf(),
            0 <= i < self.buckets@.len(),
        ensures
            self@.dom().contains(self.buckets@[i].identity@),
            self@[self.buckets@[i].identity@] == self.buckets@[i].events@,
    {
        let key = self.buckets@[i].identity@;
        assert(self.keys()[i] == key);
        assert(self.keys().contains(key));
    }

    /// The identities of a history form a finite set, as large as the number
    /// of buckets.
    proof fn lemma_len(self)
        requires
            self.wf(),
        ensures
            self@.dom().finite(),
            self@.dom().len() == self.buckets@.len(),
    {
        self.keys().unique_seq_to_set();
        assert(self@.dom() =~= self.keys().to_set());
        vstd::seq_lib::seq_to_set_is_finite(self.keys());
    }

    pub fn new() -> (history: History)
        ensures
            history.wf(),
            history@ == Map::<Seq<char>, Seq<Instant>>::empty(),
    {
        let history = History { buckets: Vec::new() };
        assert(history@ =~= Map::<Seq<char>, Seq<Instant>>::empty());
        history
    }

    /// How many identities are tracked.
    pub fn len(&self) -> (n: usize)
        requires
            self.wf(),
        ensures
            n == self@.dom().len(),
            self@.dom().finite(),
    {
        proof {
            self.lemma_len();
        }
        self.buckets.len()
    }

    pub(crate) proof fn lemma_finite(self)
        requires
            self.wf(),
        ensures
            self@.dom().finite(),
    {
        self.lemma_len();
    }

    fn find(&self, identity: &Identity) -> (at: Option<usize>)
        requires
            self.wf(),
        ensures
            match at {
                Some(i) => i < self.buckets@.len() && self.buckets@[i as int].identity@ == identity@,
                None => !self@.dom().contains(identity@),
            },
    {
        let mut i: usize = 0;
        while i < self.buckets.len()
            invariant
                i <= self.buckets@.len(),
                forall|j: int| 0 <= j < i ==> self.keys()[j] != identity@,
            decreases self.buckets.len() - i,
        {
            if self.buckets[i].identity.0 == identity.0 {
                return Some(i);
            }
            assert(self.keys()[i as int] != identity@);
            i += 1;
        }
        None
    }

    /// The bucket with the least recent activity.
    fn stalest(&self) -> (at: usize)
        requires
            self.buckets@.len() > 0,
        ensures
            at < self.buckets@.len(),
            forall|j: int|
                0 <= j < self.buckets@.len() ==> no_more_recent(
                    self.buckets@[at as int].events@,
                    #[trigger] self.buckets@[j].events@,
                ),
    {
        let mut best: usize = 0;
        let mut i: usize = 1;
        while i < self.buckets.len()
            invariant
                best < i <= self.buckets@.len(),
                forall|j: int|
                    0 <= j < i ==> no_more_recent(
                        self.buckets@[best as int].events@,
                        #[trigger] self.buckets@[j].events@,
                    ),
            decreases self.buckets.len() - i,
        {
            let candidate = &self.buckets[i].events;
            let current = &self.buckets[best].events;
            let staler = if current.len() == 0 {
                false
            } else if candidate.len() == 0 {
                true
            } else {
                candidate[candidate.len() - 1].nanos < current[current.len() - 1].nanos
            };
            if staler {
                best = i;
            }
            i += 1;
        }
        best
    }

    /// Forgets least recently active identities until at most `limit` are
    /// left.
    pub fn evict_stalest_until(&mut self, limit: usize)
        requires
            old(self).wf(),
        ensures
            final(self).wf(),
            trimmed(old(self)@, limit as nat, final(self)@),
    {
        proof {
            self.lemma_len();
        }
        while self.buckets.len() > limit
            invariant
                old(self).wf(),
                self.wf(),
                self@.submap_of(old(self)@),
                old(self)@.dom().finite(),
                old(self)@.dom().len() == old(self).buckets@.len(),
                old(self)@.dom().len() <= limit ==> self@ == old(self)@,
                old(self)@.dom().len() > limit ==> self.buckets@.len() >= limit,
                forall|gone: Seq<char>, kept: Seq<char>|
                    old(self)@.dom().contains(gone) && !self@.dom().contains(gone)
                        && #[trigger] self@.dom().contains(kept) ==> no_more_recent(
                        #[trigger] old(self)@[gone],
                        old(self)@[kept],
                    ),
            decreases self.buckets.len(),
        {
            let ghost before = *self;
            let at: usize = self.stalest();
            let evicted = self.buckets.remove(at);
            proof {
                lemma_remove(before, *self, at as int);
                self.lemma_len();
                before.lemma_len();
                before.lemma_bucket(at as int);
                assert forall|gone: Seq<char>, kept: Seq<char>|
                    old(self)@.dom().contains(gone) && !self@.dom().contains(gone)
                        && #[trigger] self@.dom().contains(kept) implies no_more_recent(
                    #[trigger] old(self)@[gone],
                    old(self)@[kept],
                ) by {
                    let k = before.keys().index_of(kept);
                    assert(before.keys().contains(kept));
                    before.lemma_bucket(k);
                    if before@.dom().contains(gone) {
                        assert(gone == before.buckets@[at as int].identity@);
                    }
                }
            }
        }
        proof {
            self.lemma_len();
        }
    }

    /// Makes sure that `identity` is tracked, keeping at most `cap`
    /// identities (at least one) in all.
    pub fn track(&mut self, identity: &Identity, cap: usize)
        requires
            old(self).wf(),
        ensures
            final(self).wf(),
            final(self)@.dom().contains(identity@),
            tracking(old(self)@, identity@, cap as nat, final(self)@),
    {
        if self.find(identity).is_some() {
            proof {
                let i = choose|i: int|
                    0 <= i < self.buckets@.len() && self.buckets@[i].identity@ == identity@;
                self.lemma_bucket(i);
            }
            return;
        }
        self.evict_stalest_until(if cap > 0 { cap - 1 } else { 0 });
        let ghost room = *self;
        self.buckets.push(Bucket { identity: identity.duplicate(), events: VecDeque::new() });
        proof {
            assert(!room@.dom().contains(identity@));
            assert(self.buckets@.drop_last() =~= room.buckets@);
            lemma_push(room, *self);
            assert(trimmed(old(self)@, room_for_one(cap as nat), room@));
        }
    }

    /// Drops the expired events at the front of a tracked identity's bucket
    /// and returns how many are left.
    pub fn prune(&mut self, identity: &Identity, now: Instant, window: Duration) -> (left: usize)
        requires
            old(self).wf(),
            old(self)@.dom().contains(identity@),
        ensures
            final(self).wf(),
            final(self)@ == old(self)@.insert(
                identity@,
                unexpired(old(self)@[identity@], now, window.total_nanos()),
            ),
            left == final(self)@[identity@].len(),
    {
        if let Some(at) = self.find(identity) {
            proof {
                self.lemma_bucket(at as int);
            }
            let events = &mut self.buckets[at].events;
            let ghost start = events@;
            while events.len() > 0 && expired(events[0], now, window)
                invariant
                    unexpired(events@, now, window.total_nanos()) == unexpired(
                        start,
                        now,
                        window.total_nanos(),
                    ),
                decreases events.len(),
            {
                let ghost front = events@;
                let _ = events.pop_front();
                assert(events@ =~= front.skip(1));
            }
            let left: usize = events.len();
            proof {
                lemma_update(*old(self), *self, at as int);
            }
            left
        } else {
            0
        }
    }

    /// Appends `count` events at `now` to a tracked identity's bucket.
    pub fn record(&mut self, identity: &Identity, now: Instant, count: usize)
        requires
            old(self).wf(),
            old(self)@.dom().contains(identity@),
        ensures
            final(self).wf(),
            final(self)@ == old(self)@.insert(
                identity@,
                old(self)@[identity@] + Seq::new(count as nat, |i: int| now),
            ),
    {
        if let Some(at) = self.find(identity) {
            proof {
                self.lemma_bucket(at as int);
            }
            let events = &mut self.buckets[at].events;
            let ghost start = events@;
            let mut done: usize = 0;
            while done < count
                invariant
                    done <= count,
                    events@ == start + Seq::new(done as nat, |i: int| now),
                decreases count - done,
            {
                events.push_back(now);
                done += 1;
                assert(events@ =~= start + Seq::new(done as nat, |i: int| now));
            }
            proof {
                lemma_update(*old(self), *self, at as int);
            }
        }
    }

    /// Replaces everything remembered for `identity`.
    pub fn replace(&mut self, identity: Identity, events: VecDeque<Instant>)
        requires
            old(self).wf(),
        ensures
            final(self).wf(),
            final(self)@ == old(self)@.insert(identity@, events@),
    {
        match self.find(&identity) {
            Some(at) => {
                self.buckets[at].events = events;
                proof {
                    lemma_update(*old(self), *self, at as int);
                }
            },
            None => {
                self.buckets.push(Bucket { identity, events });
                proof {
                    assert(self.buckets@.drop_last() =~= old(self).buckets@);
                    lemma_push(*old(self), *self);
                }
            },
        }
    }
}

/// Removing one bucket forgets exactly its identity.
proof fn lemma_remove(before: History, after: History, at: int)
    requires
        before.wf(),
        0 <= at < before.buckets@.len(),
        after.buckets@ == before.buckets@.remove(at),
    ensures
        after.wf(),
        after@ == before@.remove(before.buckets@[at].identity@),
{
    let key = before.buckets@[at].identity@;
    assert forall|i: int| 0 <= i < after.keys().len() implies #[trigger] after.keys()[i]
        == before.keys()[if i < at { i } else { i + 1 }] by {}
    assert(after.wf());
    assert forall|k: Seq<char>| before.keys().contains(k) && k != key implies #[trigger] after.keys().contains(k) by {
        let i = before.keys().index_of(k);
        assert(before.keys()[at] == key);
        let j = if i < at { i } else { i - 1 };
        assert(after.keys()[j] == k);
    }
    assert(!after.keys().contains(key)) by {
        if after.keys().contains(key) {
            let j = after.keys().index_of(key);
            assert(before.keys()[at] == key);
        }
    }
    assert(after@.dom() =~= before@.dom().remove(key));
    assert forall|k: Seq<char>| after@.dom().contains(k) implies #[trigger] after@[k] == before@[k] by {
        let j = after.keys().index_of(k);
        after.lemma_bucket(j);
        let i = if j < at { j } else { j + 1 };
        before.lemma_bucket(i);
    }
    assert(after@ =~= before@.remove(key));
}

/// Changing the events of one bucket changes what its identity maps to.
proof fn lemma_update(before: History, after: History, at: int)
    requires
        before.wf(),
        0 <= at < before.buckets@.len(),
        after.buckets@.len() == before.buckets@.len(),
        after.buckets@[at].identity == before.buckets@[at].identity,
        forall|i: int|
            0 <= i < before.buckets@.len() && i != at ==> #[trigger] after.buckets@[i]
                == before.buckets@[i],
    ensures
        after.wf(),
        after@ == before@.insert(before.buckets@[at].identity@, after.buckets@[at].events@),
{
    let key = before.buckets@[at].identity@;
    assert(after.keys() =~= before.keys());
    before.lemma_bucket(at);
    after.lemma_bucket(at);
    assert(after@.dom() =~= before@.dom().insert(key));
    assert forall|k: Seq<char>| before@.dom().contains(k) && k != key implies #[trigger] after@[k]
        == before@[k] by {
        let i = before.keys().index_of(k);
        before.lemma_bucket(i);
        after.lemma_bucket(i);
    }
    assert(after@ =~= before@.insert(key, after.buckets@[at].events@));
}

/// Adding a bucket for a new identity adds exactly that identity.
proof fn lemma_push(before: History, after: History)
    requires
        before.wf(),
        after.buckets@.len() == before.buckets@.len() + 1,
        after.buckets@.drop_last() == before.buckets@,
        !before@.dom().contains(after.buckets@.last().identity@),
    ensures
        after.wf(),
        after@ == before@.insert(after.buckets@.last().identity@, after.buckets@.last().events@),
{
    let key = after.buckets@.last().identity@;
    let n = before.buckets@.len() as int;
    assert forall|i: int| 0 <= i < n implies #[trigger] after.keys()[i] == before.keys()[i] by {
        assert(after.buckets@.drop_last()[i] == before.buckets@[i]);
    }
    assert(!before.keys().contains(key));
    assert forall|i: int| 0 <= i < n implies #[trigger] after.keys()[i] != key by {
        assert(before.keys().contains(before.keys()[i]));
    }
    after.lemma_bucket(n);
    assert(after@.dom() =~= before@.dom().insert(key)) by {
        assert forall|k: Seq<char>| before.keys().contains(k) implies #[trigger] after.keys().contains(k) by {
            let i = before.keys().index_of(k);
            assert(after.keys()[i] == k);
        }
        assert forall|k: Seq<char>| #[trigger] after.keys().contains(k) && k != key implies before.keys().contains(k) by {
            let i = after.keys().index_of(k);
            assert(before.keys()[i] == k);
        }
    }
    assert forall|k: Seq<char>| before@.dom().contains(k) implies #[trigger] after@[k] == before@[k] by {
        let i = before.keys().index_of(k);
        before.lemma_bucket(i);
        assert(after.buckets@.drop_last()[i] == before.buckets@[i]);
        after.lemma_bucket(i);
    }
    assert(after@ =~= before@.insert(key, after.buckets@.last().events@));
}

/// Forgetting goes by recency and no further than it has to: a memory within
/// the limit stays as it is, a larger one keeps as many identities as the
/// limit allows, each with all its events, and none that is kept was active
/// earlier than one that is forgotten; who was never active goes first.
pub proof fn the_least_recent_are_forgotten(
    before: Map<Seq<char>, Seq<Instant>>,
    limit: nat,
    after: Map<Seq<char>, Seq<Instant>>,
    gone: Seq<char>,
    kept: Seq<char>,
)
    requires
        trimmed(before, limit, after),
        before.dom().finite(),
    ensures
        before.dom().len() <= limit ==> after == before,
        before.dom().len() > limit ==> after.dom().len() == limit,
        after.dom().contains(kept) ==> before.dom().contains(kept) && after[kept] == before[kept],
        before.dom().contains(gone) && !after.dom().contains(gone) && after.dom().contains(kept)
            && before[gone].len() > 0 ==> before[kept].len() > 0 && before[gone][before[gone].len()
            - 1].nanos <= before[kept][before[kept].len() - 1].nanos,
{
}

/// Whoever is asked about is tracked afterwards, with the events remembered so
/// far. A newcomer begins without events; while fewer identities than the cap
/// are tracked nobody is forgotten for one, and at the cap as few as it takes,
/// the least recent first, so that the cap holds (or one, if the cap is none).
pub proof fn newcomers_take_the_place_of_the_least_recent(
    before: Map<Seq<char>, Seq<Instant>>,
    key: Seq<char>,
    cap: nat,
    after: Map<Seq<char>, Seq<Instant>>,
    other: Seq<char>,
    gone: Seq<char>,
)
    requires
        tracking(before, key, cap, after),
        before.dom().finite(),
        other != key,
    ensures
        after.dom().contains(key),
        before.dom().contains(key) ==> after == before,
        !before.dom().contains(key) ==> after[key].len() == 0,
        after.dom().contains(other) ==> before.dom().contains(other) && after[other]
            == before[other],
        before.dom().contains(other) && (before.dom().contains(key) || before.dom().len() < cap)
            ==> after.dom().contains(other),
        !before.dom().contains(key) && before.dom().len() >= cap ==> after.dom().len() == if cap
            > 0 {
            cap
        } else {
            1
        },
        before.dom().contains(gone) && !after.dom().contains(gone) && after.dom().contains(other)
            && before[gone].len() > 0 ==> before[other].len() > 0
            && before[gone][before[gone].len() - 1].nanos <= before[other][before[other].len()
            - 1].nanos,
{
    if !before.dom().contains(key) {
        let limit = room_for_one(cap);
        let room = choose|room: Map<Seq<char>, Seq<Instant>>| #[trigger]
            trimmed(before, limit, room) && after == room.insert(key, Seq::empty());
        the_least_recent_are_forgotten(before, limit, room, gone, other);
        assert(room.dom().subset_of(before.dom()));
        vstd::set_lib::lemma_len_subset(room.dom(), before.dom());
        assert(after.dom() =~= room.dom().insert(key));
    }
}

}
