//! What connects a rule's memory to a backing store: moments that can be
//! written down, and rows that turn back into events.

pub mod valkey;

use std::collections::VecDeque;

use vstd::prelude::*;

use crate::engine::identity::Identity;
use crate::engine::policy::history;
use crate::engine::time;
use crate::engine::time::{Clock, Duration, Instant};

verus! {

/// The milliseconds from one moment to another, rounded toward zero.
pub open spec fn millis_from(earlier: Instant, later: Instant) -> int {
    if later.nanos >= earlier.nanos {
        (later.nanos - earlier.nanos) / 1_000_000
    } else {
        -((earlier.nanos - later.nanos) / 1_000_000)
    }
}

/// The nearest number that an `i64` can hold.
pub open spec fn clamped(n: int) -> int {
    if n < i64::MIN {
        i64::MIN as int
    } else if n > i64::MAX {
        i64::MAX as int
    } else {
        n
    }
}

/// A moment together with the wall-clock time it fell on, which lets other
/// moments be written down as epoch milliseconds and read back later, even by
/// another process.
#[derive(Debug, Clone, Copy)]
pub struct Anchor {
    instant: Instant,
    epoch_millis: i64,
}

impl Anchor {
    /// The anchored moment.
    pub closed spec fn instant(self) -> Instant {
        self.instant
    }

    /// The wall-clock time of the anchored moment.
    pub closed spec fn epoch_millis(self) -> i64 {
        self.epoch_millis
    }

    /// The wall-clock time of a moment.
    pub open spec fn epoch_millis_of(self, instant: Instant) -> int {
        self.epoch_millis() + millis_from(self.instant(), instant)
    }

    /// The moment that a wall-clock time fell on; none when it is out of
    /// range.
    pub open spec fn instant_of(self, epoch_millis: i64) -> Option<Instant> {
        let delta = epoch_millis - self.epoch_millis();
        let nanos = self.instant().nanos + delta * 1_000_000;
        if i64::MIN <= delta <= i64::MAX && i128::MIN <= nanos <= i128::MAX {
            Some(Instant { nanos: nanos as i128 })
        } else {
            None
        }
    }

    /// The wall-clock time up to which nothing is kept for a `window` that
    /// ends at the anchored moment.
    pub open spec fn cutoff_of(self, window: Duration) -> int {
        clamped(self.epoch_millis() - window.total_millis())
    }

    /// Anchors the present moment of `clock` to the present wall-clock time,
    /// as [`Anchor::from_readings`] does with any readings of the two. Which
    /// readings they are depends on the time.
    pub fn now(clock: &Clock) -> (anchor: Anchor)
        ensures
            time::is_reading(anchor.instant()),
    {
        let instant = clock.now();
        Anchor::from_readings(instant, time::wall_clock_millis())
    }

    /// An anchor made of a monotonic reading and the wall-clock milliseconds
    /// since the epoch, which count as zero when the wall clock stands before
    /// it.
    pub fn from_readings(instant: Instant, since_epoch: Option<u128>) -> (anchor: Anchor)
        ensures
            anchor.instant() == instant,
            anchor.epoch_millis() == match since_epoch {
                Some(millis) => #[verifier::truncate] (millis as i64),
                None => 0,
            },
    {
        let epoch_millis: i64 = match since_epoch {
            Some(millis) => #[verifier::truncate] (millis as i64),
            None => 0,
        };
        Anchor { instant, epoch_millis }
    }

    /// Writes a moment down as the nearest epoch milliseconds that can be
    /// stored.
    pub fn stored_millis(&self, instant: Instant) -> (millis: i64)
        ensures
            millis == clamped(self.epoch_millis_of(instant)),
    {
        match instant.nanos.checked_sub(self.instant.nanos) {
            Some(delta) => {
                let offset: i128 = if delta >= 0 {
                    delta / 1_000_000
                } else if delta == i128::MIN {
                    return i64::MIN;
                } else {
                    -((-delta) / 1_000_000)
                };
                let total: i128 = self.epoch_millis as i128 + offset;
                if total < i64::MIN as i128 {
                    i64::MIN
                } else if total > i64::MAX as i128 {
                    i64::MAX
                } else {
                    total as i64
                }
            },
            None => if instant.nanos > self.instant.nanos {
                i64::MAX
            } else {
                i64::MIN
            },
        }
    }

    /// Writes a moment down as epoch milliseconds.
    pub fn to_epoch_millis(&self, instant: Instant) -> (millis: i64)
        requires
            i64::MIN <= self.epoch_millis_of(instant) <= i64::MAX,
        ensures
            millis == self.epoch_millis_of(instant),
    {
        self.stored_millis(instant)
    }

    /// Reads a moment back. None means that it lies outside the range that
    /// moments can have, and so outside every window.
    pub fn to_instant(&self, epoch_millis: i64) -> (instant: Option<Instant>)
        ensures
            instant == self.instant_of(epoch_millis),
    {
        match epoch_millis.checked_sub(self.epoch_millis) {
            Some(delta) => match self.instant.nanos.checked_add(delta as i128 * 1_000_000) {
                Some(nanos) => Some(Instant { nanos }),
                None => None,
            },
            None => None,
        }
    }

    /// The wall-clock time one `window` before the anchored moment.
    pub fn epoch_millis_before(&self, window: Duration) -> (millis: i64)
        requires
            self.epoch_millis() - window.total_millis() >= i64::MIN,
        ensures
            millis == self.epoch_millis() - window.total_millis(),
    {
        self.cutoff(window)
    }

    /// The wall-clock time up to which nothing is kept for a `window` that
    /// ends at the anchored moment.
    pub fn cutoff(&self, window: Duration) -> (millis: i64)
        ensures
            millis == clamped(self.epoch_millis() - window.total_millis()),
            millis == self.cutoff_of(window),
    {
        let total: i128 = self.epoch_millis as i128 - (window.as_nanos() / 1_000_000) as i128;
        if total < i64::MIN as i128 {
            i64::MIN
        } else {
            total as i64
        }
    }
}

/// A moment written down as epoch milliseconds and read back with the same
/// anchor is off by less than one millisecond.
pub proof fn anchor_round_trip(anchor: Anchor, instant: Instant)
    requires
        i64::MIN <= anchor.epoch_millis_of(instant) <= i64::MAX,
        i64::MIN <= millis_from(anchor.instant(), instant) <= i64::MAX,
    ensures
        anchor.instant_of(anchor.epoch_millis_of(instant) as i64) matches Some(back)
            && -1_000_000 < back.nanos - instant.nanos < 1_000_000,
{
}

/// The rows that a store returned, as mathematical values.
pub open spec fn rows_view(rows: Seq<(String, i64)>) -> Seq<(Seq<char>, i64)> {
    Seq::new(rows.len(), |i: int| (rows[i].0@, rows[i].1))
}

/// The rows of a store by identity, as mathematical values.
pub open spec fn grouped_view(rows: Seq<(String, Vec<i64>)>) -> Seq<(Seq<char>, Seq<i64>)> {
    Seq::new(rows.len(), |i: int| (rows[i].0@, rows[i].1@))
}

/// Events by identity, as mathematical values.
pub open spec fn events_view(events: Seq<(Identity, VecDeque<Instant>)>) -> Seq<
    (Seq<char>, Seq<Instant>),
> {
    Seq::new(events.len(), |i: int| (events[i].0@, events[i].1@))
}

/// The timestamps of one identity, in the order of the rows.
pub open spec fn timestamps_of(rows: Seq<(Seq<char>, i64)>, identity: Seq<char>) -> Seq<i64>
    decreases rows.len(),
{
    if rows.len() == 0 {
        Seq::empty()
    } else {
        let earlier = timestamps_of(rows.drop_last(), identity);
        if rows.last().0 == identity {
            earlier.push(rows.last().1)
        } else {
            earlier
        }
    }
}

/// Whether some row belongs to `identity`.
pub open spec fn has_rows(rows: Seq<(Seq<char>, i64)>, identity: Seq<char>) -> bool {
    exists|i: int| 0 <= i < rows.len() && (#[trigger] rows[i]).0 == identity
}

/// Whether `groups` holds the rows by identity: each identity once, with all
/// its timestamps in order.
pub open spec fn is_grouping(
    rows: Seq<(Seq<char>, i64)>,
    groups: Seq<(Seq<char>, Seq<i64>)>,
) -> bool {
    &&& forall|i: int, j: int|
        0 <= i < j < groups.len() ==> (#[trigger] groups[i]).0 != (#[trigger] groups[j]).0
    &&& forall|i: int|
        0 <= i < groups.len() ==> has_rows(rows, (#[trigger] groups[i]).0) && groups[i].1
            == timestamps_of(rows, groups[i].0)
    &&& forall|i: int|
        0 <= i < rows.len() ==> exists|j: int|
            0 <= j < groups.len() && (#[trigger] groups[j]).0 == (#[trigger] rows[i]).0
}

/// Gathers the rows of each identity, in the order they were returned.
pub fn group_rows(rows: Vec<(String, i64)>) -> (groups: Vec<(String, Vec<i64>)>)
    ensures
        is_grouping(rows_view(rows@), grouped_view(groups@)),
{
    let mut groups: Vec<(String, Vec<i64>)> = Vec::new();
    let mut n: usize = 0;
    assert(rows_view(rows@).take(0) =~= Seq::<(Seq<char>, i64)>::empty());
    while n < rows.len()
        invariant
            n <= rows@.len(),
            is_grouping(rows_view(rows@).take(n as int), grouped_view(groups@)),
        decreases rows.len() - n,
    {
        let ghost seen = rows_view(rows@).take(n as int);
        let ghost next = rows_view(rows@).take(n + 1);
        let ghost identity = rows@[n as int].0@;
        let ghost before = grouped_view(groups@);
        assert(next.drop_last() =~= seen);
        assert(next.last() == (identity, rows@[n as int].1));
        let mut at: usize = 0;
        while at < groups.len() && groups[at].0 != rows[n].0
            invariant
                n < rows@.len(),
                at <= groups@.len(),
                identity == rows@[n as int].0@,
                forall|j: int| 0 <= j < at ==> (#[trigger] groups@[j]).0@ != identity,
            decreases groups.len() - at,
        {
            at += 1;
        }
        if at < groups.len() {
            groups[at].1.push(rows[n].1);
            let ghost after = grouped_view(groups@);
            proof {
                assert(before[at as int].0 == identity);
                assert(after =~= before.update(
                    at as int,
                    (identity, before[at as int].1.push(next.last().1)),
                ));
                lemma_group_step(seen, next, before, after);
            }
        } else {
            let mut timestamps: Vec<i64> = Vec::new();
            timestamps.push(rows[n].1);
            let ghost single = timestamps@;
            groups.push((rows[n].0.clone(), timestamps));
            let ghost after = grouped_view(groups@);
            proof {
                assert forall|j: int| 0 <= j < before.len() implies (#[trigger] before[j]).0
                    != identity by {
                    assert(groups@[j].0@ != identity);
                }
                assert(single =~= seq![next.last().1]);
                assert(after =~= before.push((identity, seq![next.last().1])));
                lemma_group_step(seen, next, before, after);
            }
        }
        n += 1;
    }
    assert(rows_view(rows@).take(n as int) =~= rows_view(rows@));
    groups
}

proof fn lemma_no_rows(rows: Seq<(Seq<char>, i64)>, identity: Seq<char>)
    requires
        !has_rows(rows, identity),
    ensures
        timestamps_of(rows, identity) == Seq::<i64>::empty(),
    decreases rows.len(),
{
    if rows.len() > 0 {
        assert(rows[rows.len() - 1].0 != identity);
        assert forall|i: int| 0 <= i < rows.drop_last().len() implies (
        #[trigger] rows.drop_last()[i]).0 != identity by {
            assert(rows[i].0 != identity);
        }
        lemma_no_rows(rows.drop_last(), identity);
    }
}

/// A grouping stays one when the next row joins the group of its identity,
/// or starts a group of its own.
proof fn lemma_group_step(
    seen: Seq<(Seq<char>, i64)>,
    next: Seq<(Seq<char>, i64)>,
    before: Seq<(Seq<char>, Seq<i64>)>,
    after: Seq<(Seq<char>, Seq<i64>)>,
)
    requires
        is_grouping(seen, before),
        next.len() == seen.len() + 1,
        next.drop_last() == seen,
        (exists|at: int|
            #![trigger before[at]]
            0 <= at < before.len() && before[at].0 == next.last().0 && after == before.update(
                at,
                (before[at].0, before[at].1.push(next.last().1)),
            )) || ((forall|j: int|
            0 <= j < before.len() ==> (#[trigger] before[j]).0 != next.last().0) && after
            == before.push((next.last().0, seq![next.last().1]))),
    ensures
        is_grouping(next, after),
{
    let (identity, millis) = next.last();
    assert forall|i: int| 0 <= i < seen.len() implies #[trigger] next[i] == seen[i] by {
        assert(next.drop_last()[i] == seen[i]);
    }
    assert(forall|j: int| 0 <= j < before.len() ==> (#[trigger] after[j]).0 == before[j].0);
    assert forall|i: int| 0 <= i < after.len() implies has_rows(next, (#[trigger] after[i]).0)
        && after[i].1 == timestamps_of(next, after[i].0) by {
        if i < before.len() {
            let k = choose|k: int| 0 <= k < seen.len() && (#[trigger] seen[k]).0 == before[i].0;
            assert(has_rows(seen, before[i].0));
            assert(next[k].0 == after[i].0);
        } else {
            assert(!has_rows(seen, identity)) by {
                if has_rows(seen, identity) {
                    let k = choose|k: int| 0 <= k < seen.len() && (#[trigger] seen[k]).0 == identity;
                    let j = choose|j: int|
                        0 <= j < before.len() && (#[trigger] before[j]).0 == seen[k].0;
                    assert(before[j].0 == identity);
                }
            }
            lemma_no_rows(seen, identity);
            assert(next[next.len() - 1].0 == identity);
            assert(after[i].1 =~= timestamps_of(next, identity));
        }
    }
    assert forall|i: int| 0 <= i < next.len() implies exists|j: int|
        0 <= j < after.len() && (#[trigger] after[j]).0 == (#[trigger] next[i]).0 by {
        if i < seen.len() {
            let j = choose|j: int| 0 <= j < before.len() && (#[trigger] before[j]).0 == seen[i].0;
            assert(after[j].0 == next[i].0);
        } else if after.len() > before.len() {
            assert(after[before.len() as int].0 == next[i].0);
        } else {
            let j = choose|j: int| 0 <= j < before.len() && (#[trigger] before[j]).0 == identity;
            assert(after[j].0 == next[i].0);
        }
    }
}

/// The events that timestamps stand for, less those out of range or out of
/// the window.
pub open spec fn recovered(
    anchor: Anchor,
    timestamps: Seq<i64>,
    now: Instant,
    window: nat,
) -> Seq<Instant>
    decreases timestamps.len(),
{
    if timestamps.len() == 0 {
        Seq::empty()
    } else {
        let earlier = recovered(anchor, timestamps.drop_last(), now, window);
        match anchor.instant_of(timestamps.last()) {
            Some(instant) => if history::is_expired(instant, now, window) {
                earlier
            } else {
                earlier.push(instant)
            },
            None => earlier,
        }
    }
}

/// Whether events stand in the order of time.
pub open spec fn in_order(events: Seq<Instant>) -> bool {
    forall|i: int, j: int|
        0 <= i <= j < events.len() ==> (#[trigger] events[i]).nanos <= (#[trigger] events[j]).nanos
}

/// Whether `events` are the given ones, put in the order of time.
pub open spec fn is_sorted_from(events: Seq<Instant>, unsorted: Seq<Instant>) -> bool {
    in_order(events) && events.to_multiset() == unsorted.to_multiset()
}

/// Puts one event where it belongs.
fn insert_in_order(events: &mut VecDeque<Instant>, event: Instant)
    requires
        in_order(old(events)@),
    ensures
        in_order(final(events)@),
        final(events)@.to_multiset() == old(events)@.to_multiset().insert(event),
{
    let mut at: usize = events.len();
    while at > 0 && events[at - 1].nanos > event.nanos
        invariant
            at <= events@.len(),
            forall|j: int| at <= j < events@.len() ==> (#[trigger] events@[j]).nanos > event.nanos,
        decreases at,
    {
        at -= 1;
    }
    proof {
        vstd::seq_lib::to_multiset_insert(events@, at as int, event);
    }
    events.insert(at, event);
}

/// Turns timestamps back into events in the order of time.
pub fn restore_events(
    anchor: &Anchor,
    timestamps: &Vec<i64>,
    window: Duration,
    now: Instant,
) -> (events: VecDeque<Instant>)
    ensures
        is_sorted_from(
            events@,
            recovered(*anchor, timestamps@, now, window.total_nanos()),
        ),
{
    let mut events: VecDeque<Instant> = VecDeque::new();
    let mut n: usize = 0;
    assert(timestamps@.take(0) =~= Seq::<i64>::empty());
    while n < timestamps.len()
        invariant
            n <= timestamps@.len(),
            is_sorted_from(
                events@,
                recovered(*anchor, timestamps@.take(n as int), now, window.total_nanos()),
            ),
        decreases timestamps.len() - n,
    {
        proof {
            let seen = timestamps@.take(n as int);
            let next = timestamps@.take(n + 1);
            assert(next.drop_last() =~= seen);
            let earlier = recovered(*anchor, seen, now, window.total_nanos());
            match anchor.instant_of(next.last()) {
                Some(instant) => {
                    vstd::seq_lib::to_multiset_build(earlier, instant);
                },
                None => {},
            }
        }
        if let Some(instant) = anchor.to_instant(timestamps[n]) {
            if !history::expired(instant, now, window) {
                insert_in_order(&mut events, instant);
            }
        }
        n += 1;
    }
    assert(timestamps@.take(n as int) =~= timestamps@);
    events
}

/// Whether `out` is the history that `rows` stand for: the identities with
/// at least one event left, in the order of the rows.
pub open spec fn is_history_of(
    anchor: Anchor,
    rows: Seq<(Seq<char>, Seq<i64>)>,
    now: Instant,
    window: nat,
    out: Seq<(Seq<char>, Seq<Instant>)>,
) -> bool
    decreases rows.len(),
{
    if rows.len() == 0 {
        out.len() == 0
    } else {
        let (identity, timestamps) = rows.last();
        let events = recovered(anchor, timestamps, now, window);
        if events.len() == 0 {
            is_history_of(anchor, rows.drop_last(), now, window, out)
        } else {
            &&& out.len() > 0
            &&& out.last().0 == identity
            &&& is_sorted_from(out.last().1, events)
            &&& is_history_of(anchor, rows.drop_last(), now, window, out.drop_last())
        }
    }
}

/// Turns the rows of a store back into events by identity.
pub fn rows_into_history(
    anchor: &Anchor,
    rows: &Vec<(String, Vec<i64>)>,
    window: Duration,
    now: Instant,
) -> (out: Vec<(Identity, VecDeque<Instant>)>)
    ensures
        is_history_of(
            *anchor,
            grouped_view(rows@),
            now,
            window.total_nanos(),
            events_view(out@),
        ),
{
    let mut out: Vec<(Identity, VecDeque<Instant>)> = Vec::new();
    let mut n: usize = 0;
    assert(grouped_view(rows@).take(0) =~= Seq::<(Seq<char>, Seq<i64>)>::empty());
    while n < rows.len()
        invariant
            n <= rows@.len(),
            is_history_of(
                *anchor,
                grouped_view(rows@).take(n as int),
                now,
                window.total_nanos(),
                events_view(out@),
            ),
        decreases rows.len() - n,
    {
        let ghost before = events_view(out@);
        let events = restore_events(anchor, &rows[n].1, window, now);
        proof {
            let next = grouped_view(rows@).take(n + 1);
            assert(next.drop_last() =~= grouped_view(rows@).take(n as int));
            vstd::seq_lib::to_multiset_len(events@);
            vstd::seq_lib::to_multiset_len(
                recovered(*anchor, rows@[n as int].1@, now, window.total_nanos()),
            );
        }
        if events.len() > 0 {
            let ghost restored = events@;
            out.push((Identity(rows[n].0.clone()), events));
            assert(events_view(out@) =~= before.push((rows@[n as int].0@, restored)));
            assert(events_view(out@).drop_last() =~= before);
        }
        n += 1;
    }
    assert(grouped_view(rows@).take(n as int) =~= grouped_view(rows@));
    out
}

/// `before` with the memory of each identity in `events` replaced.
pub open spec fn replaced(
    before: Map<Seq<char>, Seq<Instant>>,
    events: Seq<(Seq<char>, Seq<Instant>)>,
) -> Map<Seq<char>, Seq<Instant>>
    decreases events.len(),
{
    if events.len() == 0 {
        before
    } else {
        replaced(before, events.drop_last()).insert(events.last().0, events.last().1)
    }
}

/// The timestamps that `events` are stored under.
pub open spec fn stored_as(anchor: Anchor, events: Seq<Instant>) -> Seq<i64> {
    Seq::new(events.len(), |i: int| clamped(anchor.epoch_millis_of(events[i])) as i64)
}

/// Stored events come back: read with the anchor they were written with, as
/// many events are recovered as were stored, as long as each has at least a
/// millisecond of its window left.
pub proof fn stored_events_come_back(
    anchor: Anchor,
    events: Seq<Instant>,
    now: Instant,
    window: nat,
)
    requires
        forall|i: int|
            0 <= i < events.len() ==> {
                &&& i64::MIN <= anchor.epoch_millis_of(#[trigger] events[i]) <= i64::MAX
                &&& i64::MIN <= millis_from(anchor.instant(), events[i]) <= i64::MAX
                &&& now.nanos - events[i].nanos + 1_000_000 <= window
            },
    ensures
        recovered(anchor, stored_as(anchor, events), now, window).len() == events.len(),
    decreases events.len(),
{
    if events.len() > 0 {
        let last = events.last();
        assert(last == events[events.len() - 1]);
        anchor_round_trip(anchor, last);
        assert(stored_as(anchor, events).drop_last() =~= stored_as(anchor, events.drop_last()));
        assert forall|i: int| 0 <= i < events.drop_last().len() implies {
            &&& i64::MIN <= anchor.epoch_millis_of(#[trigger] events.drop_last()[i]) <= i64::MAX
            &&& i64::MIN <= millis_from(anchor.instant(), events.drop_last()[i]) <= i64::MAX
            &&& now.nanos - events.drop_last()[i].nanos + 1_000_000 <= window
        } by {
            assert(events.drop_last()[i] == events[i]);
        }
        stored_events_come_back(anchor, events.drop_last(), now, window);
    }
}

/// A stored event counts again after a restart for exactly as long as its age
/// by the wall clock is within the window, whoever wrote it.
pub proof fn restarts_resume_the_window(reader: Anchor, millis: i64, window: nat)
    requires
        reader.instant_of(millis) is Some,
    ensures
        recovered(reader, seq![millis], reader.instant(), window).len() == if (
        reader.epoch_millis() - millis) * 1_000_000 <= window {
            1int
        } else {
            0
        },
{
    assert(seq![millis].drop_last() =~= Seq::<i64>::empty());
    assert(recovered(reader, Seq::<i64>::empty(), reader.instant(), window).len() == 0);
}

/// Milliseconds are counted toward the anchored moment: from one moment to
/// another there are as many as lie whole between the two, and going back
/// there are as many less than none.
pub proof fn whole_milliseconds_are_counted(earlier: Instant, later: Instant)
    ensures
        earlier.nanos <= later.nanos ==> 0 <= 1_000_000 * millis_from(earlier, later)
            <= later.nanos - earlier.nanos < 1_000_000 * (millis_from(earlier, later) + 1),
        millis_from(later, earlier) == -millis_from(earlier, later),
{
}

/// What can be stored is stored as it is, and what cannot as the end of the
/// range that it lies beyond.
pub proof fn numbers_out_of_range_are_moved_to_its_end(n: int)
    ensures
        -9_223_372_036_854_775_808 <= n <= 9_223_372_036_854_775_807 ==> clamped(n) == n,
        n < -9_223_372_036_854_775_808 ==> clamped(n) == -9_223_372_036_854_775_808,
        n > 9_223_372_036_854_775_807 ==> clamped(n) == 9_223_372_036_854_775_807,
{
}

/// Moments and wall-clock times go together: each millisecond on the wall
/// clock is a million nanoseconds on the other, in both directions, and the
/// anchored moment falls on the anchored time. A time is out of range only if
/// its distance to the anchor or its moment cannot be represented.
pub proof fn the_two_clocks_run_alike(anchor: Anchor, millis: i64, distance: int)
    requires
        i128::MIN <= anchor.instant().nanos + distance * 1_000_000 <= i128::MAX,
    ensures
        anchor.epoch_millis_of(
            Instant { nanos: (anchor.instant().nanos + distance * 1_000_000) as i128 },
        ) == anchor.epoch_millis() + distance,
        anchor.instant_of(anchor.epoch_millis()) == Some(anchor.instant()),
        ({
            let apart = millis - anchor.epoch_millis();
            let fits = -0x8000_0000_0000_0000 <= apart <= 0x7fff_ffff_ffff_ffff && i128::MIN
                <= anchor.instant().nanos + 1_000_000 * apart <= i128::MAX;
            match anchor.instant_of(millis) {
                Some(instant) => fits && instant.nanos - anchor.instant().nanos == 1_000_000
                    * apart,
                None => !fits,
            }
        }),
{
    let moment = Instant { nanos: (anchor.instant().nanos + distance * 1_000_000) as i128 };
    assert(moment.nanos == anchor.instant().nanos + distance * 1_000_000);
}

/// The rows of an identity are its own, in the order they came, and no other
/// identity's: rows can be gathered piece by piece.
pub proof fn rows_are_gathered_piece_by_piece(
    a: Seq<(Seq<char>, i64)>,
    b: Seq<(Seq<char>, i64)>,
    identity: Seq<char>,
    owner: Seq<char>,
    millis: i64,
)
    ensures
        timestamps_of(a + b, identity) == timestamps_of(a, identity) + timestamps_of(b, identity),
        timestamps_of(seq![(owner, millis)], identity) == if owner == identity {
            seq![millis]
        } else {
            Seq::empty()
        },
        timestamps_of(Seq::empty(), identity).len() == 0,
    decreases b.len(),
{
    assert(seq![(owner, millis)].drop_last() =~= Seq::<(Seq<char>, i64)>::empty());
    assert(timestamps_of(Seq::<(Seq<char>, i64)>::empty(), identity) =~= Seq::<i64>::empty());
    assert(timestamps_of(seq![(owner, millis)], identity) =~= if owner == identity {
        seq![millis]
    } else {
        Seq::empty()
    });
    if b.len() == 0 {
        assert(a + b =~= a);
        assert(timestamps_of(a, identity) + timestamps_of(b, identity) =~= timestamps_of(
            a,
            identity,
        ));
    } else {
        assert((a + b).drop_last() =~= a + b.drop_last());
        assert((a + b).last() == b.last());
        rows_are_gathered_piece_by_piece(a, b.drop_last(), identity, owner, millis);
        assert(timestamps_of(a + b, identity) =~= timestamps_of(a, identity) + timestamps_of(
            b,
            identity,
        ));
    }
}

/// Every row ends up in the one group of its identity, with all the other rows
/// of that identity, and no group is without rows.
pub proof fn groups_hold_what_the_rows_do(
    rows: Seq<(Seq<char>, i64)>,
    groups: Seq<(Seq<char>, Seq<i64>)>,
    at: int,
) -> (group: int)
    requires
        is_grouping(rows, groups),
        0 <= at < rows.len(),
    ensures
        0 <= group < groups.len(),
        groups[group].0 == rows[at].0,
        groups[group].1 == timestamps_of(rows, rows[at].0),
        groups[group].1.contains(rows[at].1),
        forall|other: int|
            0 <= other < groups.len() && other != group ==> (#[trigger] groups[other]).0
                != rows[at].0,
        forall|other: int| 0 <= other < groups.len() ==> (#[trigger] groups[other]).1.len() > 0,
{
    let group = choose|j: int| 0 <= j < groups.len() && (#[trigger] groups[j]).0 == rows[at].0;
    lemma_row_is_gathered(rows, at);
    assert forall|other: int| 0 <= other < groups.len() implies (#[trigger] groups[other]).1.len()
        > 0 by {
        let k = choose|k: int| 0 <= k < rows.len() && (#[trigger] rows[k]).0 == groups[other].0;
        lemma_row_is_gathered(rows, k);
    }
    assert forall|other: int| 0 <= other < groups.len() && other != group implies (
    #[trigger] groups[other]).0 != rows[at].0 by {
        if other < group {
            assert(groups[other].0 != groups[group].0);
        } else {
            assert(groups[group].0 != groups[other].0);
        }
    }
    group
}

proof fn lemma_row_is_gathered(rows: Seq<(Seq<char>, i64)>, at: int)
    requires
        0 <= at < rows.len(),
    ensures
        timestamps_of(rows, rows[at].0).contains(rows[at].1),
    decreases rows.len(),
{
    let identity = rows[at].0;
    let all = timestamps_of(rows, identity);
    if at == rows.len() - 1 {
        assert(all.last() == rows[at].1);
    } else {
        assert(rows.drop_last()[at] == rows[at]);
        lemma_row_is_gathered(rows.drop_last(), at);
        let earlier = timestamps_of(rows.drop_last(), identity);
        let k = choose|k: int| 0 <= k < earlier.len() && earlier[k] == rows[at].1;
        assert(all[k] == rows[at].1);
    }
}

/// Each timestamp counts for itself: it comes back as the moment that lies as
/// far from the anchored one as it does from the anchored time, if that moment
/// is in range and not older than the window; and timestamps can be read piece
/// by piece.
pub proof fn timestamps_come_back_one_by_one(
    anchor: Anchor,
    a: Seq<i64>,
    b: Seq<i64>,
    millis: i64,
    now: Instant,
    window: nat,
)
    ensures
        recovered(anchor, a + b, now, window) == recovered(anchor, a, now, window) + recovered(
            anchor,
            b,
            now,
            window,
        ),
        recovered(anchor, Seq::empty(), now, window).len() == 0,
        recovered(anchor, seq![millis], now, window) == match anchor.instant_of(millis) {
            Some(instant) => if now.nanos - instant.nanos <= window {
                seq![instant]
            } else {
                Seq::empty()
            },
            None => Seq::empty(),
        },
    decreases b.len(),
{
    assert(seq![millis].drop_last() =~= Seq::<i64>::empty());
    assert(recovered(anchor, Seq::<i64>::empty(), now, window) =~= Seq::<Instant>::empty());
    assert(recovered(anchor, seq![millis], now, window) =~= match anchor.instant_of(millis) {
        Some(instant) => if now.nanos - instant.nanos <= window {
            seq![instant]
        } else {
            Seq::empty()
        },
        None => Seq::empty(),
    });
    if b.len() == 0 {
        assert(a + b =~= a);
        assert(recovered(anchor, a, now, window) + recovered(anchor, b, now, window)
            =~= recovered(anchor, a, now, window));
    } else {
        assert((a + b).drop_last() =~= a + b.drop_last());
        assert((a + b).last() == b.last());
        timestamps_come_back_one_by_one(anchor, a, b.drop_last(), millis, now, window);
        assert(recovered(anchor, a + b, now, window) =~= recovered(anchor, a, now, window)
            + recovered(anchor, b, now, window));
    }
}

/// Sorting events loses none, adds none and puts none before an earlier one.
pub proof fn sorting_only_reorders(events: Seq<Instant>, unsorted: Seq<Instant>, event: Instant)
    requires
        is_sorted_from(events, unsorted),
    ensures
        events.len() == unsorted.len(),
        events.to_multiset().count(event) == unsorted.to_multiset().count(event),
        events.contains(event) <==> unsorted.contains(event),
        forall|i: int, j: int|
            0 <= i < j < events.len() ==> (#[trigger] events[i]).nanos <= (
            #[trigger] events[j]).nanos,
{
    vstd::seq_lib::to_multiset_len(events);
    vstd::seq_lib::to_multiset_len(unsorted);
    vstd::seq_lib::to_multiset_contains(events, event);
    vstd::seq_lib::to_multiset_contains(unsorted, event);
}

/// The history of rows is that of each row by itself, in order: a row of which
/// nothing is left is left out, and any other is its identity with its events
/// in the order of time.
pub proof fn histories_are_restored_row_by_row(
    anchor: Anchor,
    a: Seq<(Seq<char>, Seq<i64>)>,
    identity: Seq<char>,
    timestamps: Seq<i64>,
    b: Seq<(Seq<char>, Seq<i64>)>,
    now: Instant,
    window: nat,
    out: Seq<(Seq<char>, Seq<Instant>)>,
) -> (at: int)
    requires
        is_history_of(anchor, a + seq![(identity, timestamps)] + b, now, window, out),
    ensures
        ({
            let events = recovered(anchor, timestamps, now, window);
            &&& 0 <= at <= out.len()
            &&& is_history_of(anchor, a, now, window, out.take(at))
            &&& events.len() == 0 ==> is_history_of(anchor, b, now, window, out.skip(at))
            &&& events.len() > 0 ==> at < out.len() && out[at].0 == identity && is_sorted_from(
                out[at].1,
                events,
            ) && is_history_of(anchor, b, now, window, out.skip(at + 1))
        }),
    decreases b.len(),
{
    let rows = a + seq![(identity, timestamps)] + b;
    let events = recovered(anchor, timestamps, now, window);
    let row = (identity, timestamps);
    if b.len() == 0 {
        assert(rows.last() == row);
        assert(rows.drop_last() =~= a);
        if events.len() == 0 {
            let at = out.len() as int;
            assert(out.take(at) =~= out);
            assert(out.skip(at).len() == 0);
            at
        } else {
            let at = out.len() - 1;
            assert(out.take(at) =~= out.drop_last());
            assert(out.skip(at + 1).len() == 0);
            at
        }
    } else {
        assert(rows.last() == b.last());
        assert(rows.drop_last() =~= a + seq![row] + b.drop_last());
        let last = recovered(anchor, b.last().1, now, window);
        if last.len() == 0 {
            histories_are_restored_row_by_row(
                anchor,
                a,
                identity,
                timestamps,
                b.drop_last(),
                now,
                window,
                out,
            )
        } else {
            let shorter = out.drop_last();
            let at = histories_are_restored_row_by_row(
                anchor,
                a,
                identity,
                timestamps,
                b.drop_last(),
                now,
                window,
                shorter,
            );
            assert(shorter.take(at) =~= out.take(at));
            if events.len() == 0 {
                assert(out.skip(at).drop_last() =~= shorter.skip(at));
                assert(out.skip(at).last() == out.last());
            } else {
                assert(shorter[at] == out[at]);
                assert(out.skip(at + 1).drop_last() =~= shorter.skip(at + 1));
                assert(out.skip(at + 1).last() == out.last());
            }
            at
        }
    }
}

/// Restoring replaces the memory of an identity by what was restored for it
/// last, and leaves the memory of every other one as it was.
pub proof fn restoring_replaces_what_it_names(
    before: Map<Seq<char>, Seq<Instant>>,
    events: Seq<(Seq<char>, Seq<Instant>)>,
    identity: Seq<char>,
    at: int,
)
    ensures
        0 <= at < events.len() && events[at].0 == identity && (forall|later: int|
            at < later < events.len() ==> (#[trigger] events[later]).0 != identity) ==> replaced(
            before,
            events,
        ).dom().contains(identity) && replaced(before, events)[identity] == events[at].1,
        (forall|any: int| 0 <= any < events.len() ==> (#[trigger] events[any]).0 != identity) ==> (
        replaced(before, events).dom().contains(identity) <==> before.dom().contains(identity))
            && replaced(before, events)[identity] == before[identity],
    decreases events.len(),
{
    if events.len() > 0 {
        let last = events.len() - 1;
        let earlier = events.drop_last();
        assert(forall|i: int| 0 <= i < last ==> #[trigger] earlier[i] == events[i]);
        restoring_replaces_what_it_names(before, earlier, identity, at);
        if events[last].0 != identity && at < last {
            assert(events.last() == events[last]);
            if 0 <= at && events[at].0 == identity && (forall|later: int|
                at < later < events.len() ==> (#[trigger] events[later]).0 != identity) {
                assert forall|later: int| at < later < earlier.len() implies (
                #[trigger] earlier[later]).0 != identity by {
                    assert(events[later].0 != identity);
                }
            }
        }
        if forall|any: int| 0 <= any < events.len() ==> (#[trigger] events[any]).0 != identity {
            assert(events[last].0 != identity);
            assert forall|any: int| 0 <= any < earlier.len() implies (#[trigger] earlier[any]).0
                != identity by {
                assert(events[any].0 != identity);
            }
        }
    }
}

/// Each event is stored as the wall-clock time that it fell on, or as the
/// nearest that can be stored, and all of them are.
pub proof fn events_are_stored_one_by_one(anchor: Anchor, events: Seq<Instant>, at: int)
    requires
        0 <= at < events.len(),
    ensures
        stored_as(anchor, events).len() == events.len(),
        ({
            let apart = millis_from(anchor.instant(), events[at]);
            let millis = anchor.epoch_millis() + apart;
            &&& i64::MIN <= millis <= i64::MAX ==> stored_as(anchor, events)[at] == millis
            &&& millis < i64::MIN ==> stored_as(anchor, events)[at] == i64::MIN
            &&& millis > i64::MAX ==> stored_as(anchor, events)[at] == i64::MAX
        }),
{
}

/// A store forgets what is as old as the window in whole milliseconds, or
/// older, and nothing else: of two timestamps the younger stays if the older
/// does. Only where the window reaches back further than any time that can be
/// stored is something forgotten that is younger, and that is the one earliest
/// time of all.
pub proof fn stores_forget_what_the_window_has_left(anchor: Anchor, window: Duration, millis: i64)
    ensures
        anchor.epoch_millis() - window.total_nanos() / 1_000_000 >= i64::MIN ==> (millis
            <= anchor.cutoff_of(window) <==> anchor.epoch_millis() - millis
            >= window.total_nanos() / 1_000_000),
        anchor.epoch_millis() - window.total_nanos() / 1_000_000 < i64::MIN ==> (millis
            <= anchor.cutoff_of(window) <==> millis == i64::MIN),
{
}

/// The value of rows is that of each row in its place, and so it is of rows
/// by identity and of events by identity.
pub proof fn rows_are_known_one_by_one(
    rows: Seq<(String, i64)>,
    grouped: Seq<(String, Vec<i64>)>,
    events: Seq<(Identity, VecDeque<Instant>)>,
    at: int,
)
    ensures
        rows_view(rows).len() == rows.len(),
        0 <= at < rows.len() ==> rows_view(rows)[at] == (rows[at].0@, rows[at].1),
        grouped_view(grouped).len() == grouped.len(),
        0 <= at < grouped.len() ==> grouped_view(grouped)[at] == (grouped[at].0@, grouped[at].1@),
        events_view(events).len() == events.len(),
        0 <= at < events.len() ==> events_view(events)[at] == (events[at].0@, events[at].1@),
{
}

}
