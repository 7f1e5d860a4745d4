//! What a blocked action leaves behind: nothing that a later decision could
//! tell.

use vstd::prelude::*;

use crate::engine::policy::budget;
use crate::engine::policy::budget::Step;
use crate::engine::policy::history;
use crate::engine::policy::threshold;
use crate::engine::policy::threshold::{ThresholdConfig, ThresholdState};
use crate::engine::time;
use crate::engine::time::Instant;

verus! {

/// Whether the bucket of `identity` can be tracked without another one being
/// forgotten for it.
pub open spec fn has_room(
    config: ThresholdConfig,
    state: ThresholdState,
    identity: Seq<char>,
) -> bool {
    ||| state.history.dom().contains(config.bucket(identity))
    ||| state.history.dom().len() <= history::room_for_one(config.max_tracked_identities as nat)
}

/// Whether a run never forgets a bucket to make room for another one.
pub open spec fn forgets_nobody(
    config: ThresholdConfig,
    states: Seq<ThresholdState>,
    steps: Seq<Step>,
) -> bool {
    forall|i: int|
        0 <= i < steps.len() ==> has_room(config, states[i], (#[trigger] steps[i]).identity)
}

/// Whether two runs answer the same questions at the same moments.
pub open spec fn same_questions(a: Seq<Step>, b: Seq<Step>) -> bool {
    &&& a.len() == b.len()
    &&& forall|i: int|
        0 <= i < a.len() ==> (#[trigger] a[i]).action == (#[trigger] b[i]).action && a[i].identity
            == b[i].identity && a[i].now == b[i].now
}

/// Whether two memories cannot be told apart from `since` on: the same events
/// are live in every bucket, and the same events are yet to be saved.
pub open spec fn alike_since(
    config: ThresholdConfig,
    a: ThresholdState,
    b: ThresholdState,
    since: Instant,
) -> bool {
    &&& a.unsaved == b.unsaved
    &&& forall|bucket: Seq<char>|
        #![trigger budget::remembered(a, bucket)]
        #![trigger budget::remembered(b, bucket)]
        history::unexpired(budget::remembered(a, bucket), since, config.window.total_nanos())
            == history::unexpired(budget::remembered(b, bucket), since, config.window.total_nanos())
}

/// What has expired earlier has expired later.
proof fn lemma_unexpired_again(
    events: Seq<Instant>,
    earlier: Instant,
    later: Instant,
    window: nat,
)
    requires
        earlier.nanos <= later.nanos,
    ensures
        history::unexpired(history::unexpired(events, earlier, window), later, window)
            == history::unexpired(events, later, window),
    decreases events.len(),
{
    if events.len() > 0 && history::is_expired(events[0], earlier, window) {
        assert(history::is_expired(events[0], later, window));
        lemma_unexpired_again(events.skip(1), earlier, later, window);
    }
}

proof fn lemma_alike_later(
    config: ThresholdConfig,
    a: ThresholdState,
    b: ThresholdState,
    earlier: Instant,
    later: Instant,
)
    requires
        alike_since(config, a, b, earlier),
        earlier.nanos <= later.nanos,
    ensures
        alike_since(config, a, b, later),
{
    let window = config.window.total_nanos();
    assert forall|bucket: Seq<char>|
        #![trigger budget::remembered(a, bucket)]
        #![trigger budget::remembered(b, bucket)]
        history::unexpired(budget::remembered(a, bucket), later, window) == history::unexpired(
            budget::remembered(b, bucket),
            later,
            window,
        ) by {
        lemma_unexpired_again(budget::remembered(a, bucket), earlier, later, window);
        lemma_unexpired_again(budget::remembered(b, bucket), earlier, later, window);
    }
}

/// With room to spare, the memory of the bucket asked about is its live
/// events and what was admitted, and every other bucket is as it was.
proof fn lemma_step_with_room(
    config: ThresholdConfig,
    before: ThresholdState,
    step: Step,
    after: ThresholdState,
)
    requires
        threshold::decides(
            config,
            before,
            step.action,
            step.identity,
            step.now,
            step.decision,
            after,
        ),
        config.applies_to(step.action.operation),
        step.action.blast_radius <= config.max_per_request,
        has_room(config, before, step.identity),
    ensures
        ({
            let bucket = config.bucket(step.identity);
            let live = history::unexpired(
                budget::remembered(before, bucket),
                step.now,
                config.window.total_nanos(),
            );
            &&& if live.len() + step.action.blast_radius > config.max_per_window {
                &&& step.decision == Some(
                    threshold::window_reason(
                        live.len(),
                        time::duration_text(config.window.secs(), config.window.subsec_nanos()),
                        config.max_per_window as nat,
                    ),
                )
                &&& budget::remembered(after, bucket) == live
                &&& after.unsaved == before.unsaved
            } else {
                &&& step.decision is None
                &&& budget::remembered(after, bucket) == live + threshold::admitted(
                    step.action.blast_radius,
                    step.now,
                )
                &&& after.unsaved == match before.unsaved {
                    None => None,
                    Some(events) => Some(
                        events + threshold::units(bucket, step.action.blast_radius, step.now),
                    ),
                }
            }
            &&& forall|other: Seq<char>|
                other != bucket ==> #[trigger] budget::remembered(after, other) == budget::remembered(before, other)
        }),
{
    let bucket = config.bucket(step.identity);
    let opened = choose|opened: Map<Seq<char>, Seq<Instant>>| #[trigger]
        history::tracking(
            before.history,
            bucket,
            config.max_tracked_identities as nat,
            opened,
        ) && threshold::decides_within_window(
            config,
            opened,
            before.unsaved,
            step.action.blast_radius,
            bucket,
            step.now,
            step.decision,
            after,
        );
    assert(opened[bucket] == budget::remembered(before, bucket));
}

/// A question gets the same answer from two memories that cannot be told
/// apart, and they still cannot be afterwards.
proof fn lemma_alike_decide_alike(
    config: ThresholdConfig,
    a: ThresholdState,
    b: ThresholdState,
    since: Instant,
    a_step: Step,
    b_step: Step,
    a_after: ThresholdState,
    b_after: ThresholdState,
)
    requires
        alike_since(config, a, b, since),
        since.nanos <= a_step.now.nanos,
        a_step.action == b_step.action,
        a_step.identity == b_step.identity,
        a_step.now == b_step.now,
        threshold::decides(
            config,
            a,
            a_step.action,
            a_step.identity,
            a_step.now,
            a_step.decision,
            a_after,
        ),
        threshold::decides(
            config,
            b,
            b_step.action,
            b_step.identity,
            b_step.now,
            b_step.decision,
            b_after,
        ),
        has_room(config, a, a_step.identity),
        has_room(config, b, b_step.identity),
    ensures
        a_step.decision == b_step.decision,
        alike_since(config, a_after, b_after, a_step.now),
{
    let now = a_step.now;
    let window = config.window.total_nanos();
    lemma_alike_later(config, a, b, since, now);
    if config.applies_to(a_step.action.operation) && a_step.action.blast_radius
        <= config.max_per_request {
        let bucket = config.bucket(a_step.identity);
        lemma_step_with_room(config, a, a_step, a_after);
        lemma_step_with_room(config, b, b_step, b_after);
        assert(history::unexpired(budget::remembered(a, bucket), now, window) == history::unexpired(
            budget::remembered(b, bucket),
            now,
            window,
        ));
        assert forall|other: Seq<char>|
            #![trigger budget::remembered(a_after, other)]
            #![trigger budget::remembered(b_after, other)]
            history::unexpired(budget::remembered(a_after, other), now, window) == history::unexpired(
                budget::remembered(b_after, other),
                now,
                window,
            ) by {
            if other == bucket {
                assert(budget::remembered(a_after, bucket) == budget::remembered(b_after, bucket));
            } else {
                assert(budget::remembered(a_after, other) == budget::remembered(a, other));
                assert(budget::remembered(b_after, other) == budget::remembered(b, other));
            }
        }
    }
}

proof fn lemma_alike_runs(
    config: ThresholdConfig,
    since: Instant,
    a_states: Seq<ThresholdState>,
    a_steps: Seq<Step>,
    b_states: Seq<ThresholdState>,
    b_steps: Seq<Step>,
    n: nat,
)
    requires
        budget::is_run(config, a_states, a_steps),
        budget::is_run(config, b_states, b_steps),
        same_questions(a_steps, b_steps),
        forgets_nobody(config, a_states, a_steps),
        forgets_nobody(config, b_states, b_steps),
        alike_since(config, a_states[0], b_states[0], since),
        a_steps.len() > 0 ==> since.nanos <= a_steps[0].now.nanos,
        n <= a_steps.len(),
    ensures
        forall|i: int| 0 <= i < n ==> (#[trigger] a_steps[i]).decision == b_steps[i].decision,
        alike_since(
            config,
            a_states[n as int],
            b_states[n as int],
            if n == 0 {
                since
            } else {
                a_steps[n - 1].now
            },
        ),
    decreases n,
{
    if n > 0 {
        let last = n - 1;
        lemma_alike_runs(
            config,
            since,
            a_states,
            a_steps,
            b_states,
            b_steps,
            last as nat,
        );
        let reached = if last == 0 {
            since
        } else {
            a_steps[last - 1].now
        };
        assert(a_steps[last].now == b_steps[last].now);
        lemma_alike_decide_alike(
            config,
            a_states[last],
            b_states[last],
            reached,
            a_steps[last],
            b_steps[last],
            a_states[n as int],
            b_states[n as int],
        );
    }
}

/// A blocked action leaves no trace: whatever is asked afterwards, every
/// answer, reasons included, is the one that would be given had the blocked
/// action never been asked about. This holds as long as no bucket has to be
/// forgotten to make room for another one.
pub proof fn blocked_actions_leave_no_trace(
    config: ThresholdConfig,
    before: ThresholdState,
    blocked: Step,
    with_states: Seq<ThresholdState>,
    with_steps: Seq<Step>,
    without_states: Seq<ThresholdState>,
    without_steps: Seq<Step>,
)
    requires
        threshold::decides(
            config,
            before,
            blocked.action,
            blocked.identity,
            blocked.now,
            blocked.decision,
            with_states[0],
        ),
        blocked.decision is Some,
        without_states[0] == before,
        budget::is_run(config, with_states, with_steps),
        budget::is_run(config, without_states, without_steps),
        same_questions(with_steps, without_steps),
        with_steps.len() > 0 ==> blocked.now.nanos <= with_steps[0].now.nanos,
        has_room(config, before, blocked.identity),
        forgets_nobody(config, with_states, with_steps),
        forgets_nobody(config, without_states, without_steps),
    ensures
        forall|i: int|
            0 <= i < with_steps.len() ==> (#[trigger] with_steps[i]).decision
                == without_steps[i].decision,
        with_states.last().unsaved == without_states.last().unsaved,
{
    let window = config.window.total_nanos();
    let after = with_states[0];
    if config.applies_to(blocked.action.operation) && blocked.action.blast_radius
        <= config.max_per_request {
        lemma_step_with_room(config, before, blocked, after);
        let bucket = config.bucket(blocked.identity);
        lemma_unexpired_again(budget::remembered(before, bucket), blocked.now, blocked.now, window);
    }
    assert(alike_since(config, after, before, blocked.now));
    lemma_alike_runs(
        config,
        blocked.now,
        with_states,
        with_steps,
        without_states,
        without_steps,
        with_steps.len(),
    );
}

/// Whether a rule whose memory is `state` may give the decisions `steps`.
pub open spec fn can_answer(
    config: ThresholdConfig,
    state: ThresholdState,
    steps: Seq<Step>,
) -> bool {
    exists|states: Seq<ThresholdState>| #[trigger]
        budget::is_run(config, states, steps) && states[0] == state
}

/// Whether two histories end alike: both are empty, or the last event of both
/// is the same. What is forgotten first depends on nothing else.
pub open spec fn end_alike(a: Seq<Instant>, b: Seq<Instant>) -> bool {
    &&& a.len() == 0 <==> b.len() == 0
    &&& a.len() > 0 ==> a.last() == b.last()
}

/// Whether two histories hold the same live events at `since` and end alike.
pub open spec fn same_to_a_rule(
    a: Seq<Instant>,
    b: Seq<Instant>,
    since: Instant,
    window: nat,
) -> bool {
    &&& end_alike(a, b)
    &&& history::unexpired(a, since, window) == history::unexpired(b, since, window)
}

/// Whether two memories track the same buckets, hold the same live events at
/// `since`, and rank their buckets alike by how recent they are.
pub open spec fn interchangeable(
    config: ThresholdConfig,
    a: Map<Seq<char>, Seq<Instant>>,
    b: Map<Seq<char>, Seq<Instant>>,
    since: Instant,
) -> bool {
    &&& a.dom() == b.dom()
    &&& forall|bucket: Seq<char>| #[trigger]
        a.dom().contains(bucket) ==> same_to_a_rule(
            a[bucket],
            b[bucket],
            since,
            config.window.total_nanos(),
        )
}

proof fn lemma_interchangeable_later(
    config: ThresholdConfig,
    a: Map<Seq<char>, Seq<Instant>>,
    b: Map<Seq<char>, Seq<Instant>>,
    earlier: Instant,
    later: Instant,
)
    requires
        interchangeable(config, a, b, earlier),
        earlier.nanos <= later.nanos,
    ensures
        interchangeable(config, a, b, later),
        interchangeable(config, b, a, later),
{
    let window = config.window.total_nanos();
    assert forall|bucket: Seq<char>| #[trigger] a.dom().contains(bucket) implies same_to_a_rule(
        a[bucket],
        b[bucket],
        later,
        window,
    ) by {
        lemma_unexpired_again(a[bucket], earlier, later, window);
        lemma_unexpired_again(b[bucket], earlier, later, window);
    }
}

/// A bucket that comes to be tracked in one memory, at whoever's expense, may
/// come to be tracked in an interchangeable one at the same expense.
proof fn lemma_track_alike(
    config: ThresholdConfig,
    a: Map<Seq<char>, Seq<Instant>>,
    b: Map<Seq<char>, Seq<Instant>>,
    now: Instant,
    key: Seq<char>,
    cap: nat,
    a_opened: Map<Seq<char>, Seq<Instant>>,
) -> (b_opened: Map<Seq<char>, Seq<Instant>>)
    requires
        interchangeable(config, a, b, now),
        history::tracking(a, key, cap, a_opened),
    ensures
        history::tracking(b, key, cap, b_opened),
        interchangeable(config, a_opened, b_opened, now),
        a_opened.dom().contains(key),
{
    if a.dom().contains(key) {
        b
    } else {
        let limit = history::room_for_one(cap);
        let a_room = choose|room: Map<Seq<char>, Seq<Instant>>| #[trigger]
            history::trimmed(a, limit, room) && a_opened == room.insert(key, Seq::empty());
        let b_room = b.restrict(a_room.dom());
        assert(b_room.dom() =~= a_room.dom());
        if b.dom().len() <= limit {
            assert(b_room =~= b);
        }
        assert forall|gone: Seq<char>, kept: Seq<char>|
            b.dom().contains(gone) && !b_room.dom().contains(gone)
                && #[trigger] b_room.dom().contains(kept) implies history::no_more_recent(
            #[trigger] b[gone],
            b[kept],
        ) by {
            assert(a_room.dom().contains(kept));
            assert(a.dom().contains(gone) && a.dom().contains(kept));
            assert(history::no_more_recent(a[gone], a[kept]));
        }
        assert(history::trimmed(b, limit, b_room));
        let b_opened = b_room.insert(key, Seq::empty());
        assert(a_opened.dom() =~= b_opened.dom());
        assert forall|bucket: Seq<char>| #[trigger]
            a_opened.dom().contains(bucket) implies same_to_a_rule(
            a_opened[bucket],
            b_opened[bucket],
            now,
            config.window.total_nanos(),
        ) by {
            if bucket != key {
                assert(a_room.dom().contains(bucket));
                assert(a.dom().contains(bucket));
            }
        }
        b_opened
    }
}

/// Whatever a rule may answer from one memory it may answer from an
/// interchangeable one, and the two memories stay interchangeable.
proof fn lemma_answer_alike(
    config: ThresholdConfig,
    a: ThresholdState,
    b: ThresholdState,
    since: Instant,
    step: Step,
    a_after: ThresholdState,
) -> (b_after: ThresholdState)
    requires
        interchangeable(config, a.history, b.history, since),
        a.unsaved == b.unsaved,
        since.nanos <= step.now.nanos,
        threshold::decides(
            config,
            a,
            step.action,
            step.identity,
            step.now,
            step.decision,
            a_after,
        ),
    ensures
        threshold::decides(
            config,
            b,
            step.action,
            step.identity,
            step.now,
            step.decision,
            b_after,
        ),
        interchangeable(config, a_after.history, b_after.history, step.now),
        a_after.unsaved == b_after.unsaved,
{
    lemma_interchangeable_later(config, a.history, b.history, since, step.now);
    if config.applies_to(step.action.operation) && step.action.blast_radius
        <= config.max_per_request {
        let bucket = config.bucket(step.identity);
        let cap = config.max_tracked_identities as nat;
        let window = config.window.total_nanos();
        let a_opened = choose|opened: Map<Seq<char>, Seq<Instant>>| #[trigger]
            history::tracking(a.history, bucket, cap, opened) && threshold::decides_within_window(
                config,
                opened,
                a.unsaved,
                step.action.blast_radius,
                bucket,
                step.now,
                step.decision,
                a_after,
            );
        let b_opened = lemma_track_alike(
            config,
            a.history,
            b.history,
            step.now,
            bucket,
            cap,
            a_opened,
        );
        assert(same_to_a_rule(a_opened[bucket], b_opened[bucket], step.now, window));
        let b_after = ThresholdState {
            history: b_opened.insert(bucket, a_after.history[bucket]),
            unsaved: a_after.unsaved,
        };
        assert(threshold::decides_within_window(
            config,
            b_opened,
            b.unsaved,
            step.action.blast_radius,
            bucket,
            step.now,
            step.decision,
            b_after,
        ));
        assert(a_after.history.dom() =~= b_after.history.dom());
        assert forall|other: Seq<char>| #[trigger]
            a_after.history.dom().contains(other) implies same_to_a_rule(
            a_after.history[other],
            b_after.history[other],
            step.now,
            window,
        ) by {
            if other != bucket {
                assert(a_opened.dom().contains(other));
            }
        }
        b_after
    } else {
        b
    }
}

/// Whether events are in the order of their moments, none of them after
/// `until`.
pub open spec fn in_order_until(events: Seq<Instant>, until: Instant) -> bool {
    forall|i: int, j: int|
        0 <= i <= j < events.len() ==> (#[trigger] events[i]).nanos <= (#[trigger] events[j]).nanos
            <= until.nanos
}

/// Whether the events of every bucket are in order, none of them after
/// `until`.
pub open spec fn orderly(memory: Map<Seq<char>, Seq<Instant>>, until: Instant) -> bool {
    forall|bucket: Seq<char>| #[trigger]
        memory.dom().contains(bucket) ==> in_order_until(memory[bucket], until)
}

/// Whether a memory tracks no more buckets than configured.
pub open spec fn bounded(config: ThresholdConfig, memory: Map<Seq<char>, Seq<Instant>>) -> bool {
    memory.dom().finite() && memory.dom().len() <= config.tracking_limit()
}

/// Whether a bucket is tracked and has live events.
pub open spec fn is_live(
    config: ThresholdConfig,
    memory: Map<Seq<char>, Seq<Instant>>,
    bucket: Seq<char>,
    now: Instant,
) -> bool {
    memory.dom().contains(bucket) && history::unexpired(
        memory[bucket],
        now,
        config.window.total_nanos(),
    ).len() > 0
}

/// Whether a bucket matters: one without any events never does, and in an
/// orderly memory none without live events does.
spec fn matters(
    config: ThresholdConfig,
    memory: Map<Seq<char>, Seq<Instant>>,
    bucket: Seq<char>,
    now: Instant,
    in_order: bool,
) -> bool {
    if in_order {
        is_live(config, memory, bucket, now)
    } else {
        memory.dom().contains(bucket) && memory[bucket].len() > 0
    }
}

/// Whether two memories agree on a bucket as far as it matters.
spec fn agree_on(
    config: ThresholdConfig,
    a: Map<Seq<char>, Seq<Instant>>,
    b: Map<Seq<char>, Seq<Instant>>,
    bucket: Seq<char>,
    now: Instant,
    in_order: bool,
) -> bool {
    &&& matters(config, a, bucket, now, in_order) == matters(config, b, bucket, now, in_order)
    &&& matters(config, a, bucket, now, in_order) ==> same_to_a_rule(
        a[bucket],
        b[bucket],
        now,
        config.window.total_nanos(),
    )
}

/// Whether two memories agree on every bucket as far as it matters.
spec fn agree(
    config: ThresholdConfig,
    a: Map<Seq<char>, Seq<Instant>>,
    b: Map<Seq<char>, Seq<Instant>>,
    now: Instant,
    in_order: bool,
) -> bool {
    forall|bucket: Seq<char>| #[trigger] agree_on(config, a, b, bucket, now, in_order)
}

/// Whether two memories, both orderly where that is asked, differ in buckets
/// that do not matter only.
spec fn differ_in_the_idle(
    config: ThresholdConfig,
    a: Map<Seq<char>, Seq<Instant>>,
    b: Map<Seq<char>, Seq<Instant>>,
    since: Instant,
    in_order: bool,
) -> bool {
    &&& in_order ==> orderly(a, since) && orderly(b, since)
    &&& bounded(config, a)
    &&& bounded(config, b)
    &&& agree(config, a, b, since, in_order)
}

/// While moments do not go back, an orderly memory stays orderly.
pub proof fn memories_stay_orderly(
    config: ThresholdConfig,
    before: ThresholdState,
    step: Step,
    after: ThresholdState,
    since: Instant,
)
    requires
        threshold::decides(
            config,
            before,
            step.action,
            step.identity,
            step.now,
            step.decision,
            after,
        ),
        orderly(before.history, since),
        since.nanos <= step.now.nanos,
    ensures
        orderly(after.history, step.now),
{
    let window = config.window.total_nanos();
    let key = config.bucket(step.identity);
    assert forall|bucket: Seq<char>| #[trigger]
        before.history.dom().contains(bucket) implies in_order_until(
        before.history[bucket],
        step.now,
    ) by {}
    if config.applies_to(step.action.operation) && step.action.blast_radius
        <= config.max_per_request {
        let opened = choose|opened: Map<Seq<char>, Seq<Instant>>| #[trigger]
            history::tracking(
                before.history,
                key,
                config.max_tracked_identities as nat,
                opened,
            ) && threshold::decides_within_window(
                config,
                opened,
                before.unsaved,
                step.action.blast_radius,
                key,
                step.now,
                step.decision,
                after,
            );
        assert forall|bucket: Seq<char>| #[trigger]
            after.history.dom().contains(bucket) implies in_order_until(
            after.history[bucket],
            step.now,
        ) by {
            if bucket == key {
                let events = opened[key];
                assert(in_order_until(events, step.now));
                let dropped = budget::lemma_unexpired_suffix(events, step.now, window);
                let kept = after.history[key];
                let live = history::unexpired(events, step.now, window);
                assert forall|i: int, j: int| 0 <= i <= j < kept.len() implies (
                #[trigger] kept[i]).nanos <= (#[trigger] kept[j]).nanos <= step.now.nanos by {
                    if i < live.len() {
                        assert(kept[i] == events[dropped.len() + i]);
                    }
                    if j < live.len() {
                        assert(kept[j] == events[dropped.len() + j]);
                    }
                }
            } else {
                assert(opened.dom().contains(bucket));
                assert(before.history.dom().contains(bucket));
            }
        }
    }
}

proof fn lemma_front_is_live(events: Seq<Instant>, now: Instant, window: nat)
    ensures
        history::unexpired(events, now, window).len() > 0 ==> !history::is_expired(
            history::unexpired(events, now, window)[0],
            now,
            window,
        ),
    decreases events.len(),
{
    if events.len() > 0 && history::is_expired(events[0], now, window) {
        lemma_front_is_live(events.skip(1), now, window);
    }
}

/// The last of some events in order tells whether any of them is live.
proof fn lemma_last_tells(events: Seq<Instant>, now: Instant, window: nat)
    requires
        in_order_until(events, now),
    ensures
        ({
            let live = history::unexpired(events, now, window);
            if live.len() > 0 {
                &&& events.len() > 0
                &&& events.last() == live.last()
                &&& !history::is_expired(events.last(), now, window)
            } else {
                events.len() == 0 || history::is_expired(events.last(), now, window)
            }
        }),
{
    let live = history::unexpired(events, now, window);
    let dropped = budget::lemma_unexpired_suffix(events, now, window);
    lemma_front_is_live(events, now, window);
    if live.len() > 0 {
        assert(live[0] == events[dropped.len() as int]);
        assert(live.last() == events[events.len() - 1]);
    } else if events.len() > 0 {
        assert(events.last() == dropped[events.len() - 1]);
    }
}

/// A bucket with live events is more recent than one without.
proof fn lemma_dead_go_first(live: Seq<Instant>, dead: Seq<Instant>, now: Instant, window: nat)
    requires
        in_order_until(live, now),
        in_order_until(dead, now),
        history::unexpired(live, now, window).len() > 0,
        history::unexpired(dead, now, window).len() == 0,
    ensures
        !history::no_more_recent(live, dead),
{
    lemma_last_tells(live, now, window);
    lemma_last_tells(dead, now, window);
}

/// Some bucket is the least recent one.
proof fn lemma_stalest(memory: Map<Seq<char>, Seq<Instant>>) -> (stalest: Seq<char>)
    requires
        memory.dom().finite(),
        memory.dom().len() > 0,
    ensures
        memory.dom().contains(stalest),
        forall|other: Seq<char>| #[trigger]
            memory.dom().contains(other) ==> history::no_more_recent(
                memory[stalest],
                memory[other],
            ),
    decreases memory.dom().len(),
{
    let one = memory.dom().choose();
    let rest = memory.remove(one);
    assert(rest.dom() =~= memory.dom().remove(one));
    if rest.dom().len() == 0 {
        assert forall|other: Seq<char>| #[trigger]
            memory.dom().contains(other) implies history::no_more_recent(
            memory[one],
            memory[other],
        ) by {
            if other != one {
                assert(rest.dom().contains(other));
            }
        }
        one
    } else {
        let candidate = lemma_stalest(rest);
        let stalest = if history::no_more_recent(memory[candidate], memory[one]) {
            candidate
        } else {
            one
        };
        assert forall|other: Seq<char>| #[trigger]
            memory.dom().contains(other) implies history::no_more_recent(
            memory[stalest],
            memory[other],
        ) by {
            if other != one {
                assert(rest.dom().contains(other));
            }
        }
        stalest
    }
}

/// A bucket that matters is more recent than one that does not.
proof fn lemma_idle_go_first(
    config: ThresholdConfig,
    memory: Map<Seq<char>, Seq<Instant>>,
    one: Seq<char>,
    other: Seq<char>,
    now: Instant,
    in_order: bool,
)
    requires
        in_order ==> orderly(memory, now),
        matters(config, memory, one, now, in_order),
        memory.dom().contains(other),
        !matters(config, memory, other, now, in_order),
    ensures
        !history::no_more_recent(memory[one], memory[other]),
{
    if in_order {
        lemma_dead_go_first(memory[one], memory[other], now, config.window.total_nanos());
    }
}

/// A new bucket finds room at the expense of one that does not matter, unless
/// too many buckets do.
proof fn lemma_make_room(
    config: ThresholdConfig,
    memory: Map<Seq<char>, Seq<Instant>>,
    now: Instant,
    in_order: bool,
    key: Seq<char>,
    spared: Set<Seq<char>>,
) -> (opened: Map<Seq<char>, Seq<Instant>>)
    requires
        in_order ==> orderly(memory, now),
        bounded(config, memory),
        !memory.dom().contains(key),
        spared.finite(),
        spared.len() <= history::room_for_one(config.max_tracked_identities as nat),
        forall|bucket: Seq<char>| #[trigger]
            matters(config, memory, bucket, now, in_order) ==> spared.contains(bucket),
    ensures
        history::tracking(memory, key, config.max_tracked_identities as nat, opened),
        agree(config, memory, opened, now, in_order),
        opened.dom().contains(key),
{
    let limit = history::room_for_one(config.max_tracked_identities as nat);
    let room = if memory.dom().len() <= limit {
        memory
    } else {
        let gone = lemma_stalest(memory);
        if matters(config, memory, gone, now, in_order) {
            assert forall|bucket: Seq<char>| #[trigger]
                memory.dom().contains(bucket) implies spared.contains(bucket) by {
                if !matters(config, memory, bucket, now, in_order) {
                    lemma_idle_go_first(config, memory, gone, bucket, now, in_order);
                }
            }
            vstd::set_lib::lemma_len_subset(memory.dom(), spared);
            assert(false);
        }
        memory.remove(gone)
    };
    assert(history::trimmed(memory, limit, room));
    let opened = room.insert(key, Seq::empty());
    assert forall|bucket: Seq<char>| #[trigger]
        agree_on(config, memory, opened, bucket, now, in_order) by {
        assert(matters(config, memory, bucket, now, in_order) == matters(
            config,
            opened,
            bucket,
            now,
            in_order,
        ));
    }
    opened
}

proof fn lemma_agree_joins(
    config: ThresholdConfig,
    a: Map<Seq<char>, Seq<Instant>>,
    b: Map<Seq<char>, Seq<Instant>>,
    c: Map<Seq<char>, Seq<Instant>>,
    now: Instant,
    in_order: bool,
)
    requires
        agree(config, a, b, now, in_order),
        agree(config, b, c, now, in_order),
    ensures
        agree(config, a, c, now, in_order),
{
    assert forall|bucket: Seq<char>| #[trigger]
        agree_on(config, a, c, bucket, now, in_order) by {
        assert(agree_on(config, a, b, bucket, now, in_order));
        assert(agree_on(config, b, c, bucket, now, in_order));
    }
}

/// A bucket that comes to be tracked in one memory may come to be tracked in
/// one that differs in the idle only, so that they differ in no more
/// afterwards.
proof fn lemma_track_among_the_idle(
    config: ThresholdConfig,
    a: Map<Seq<char>, Seq<Instant>>,
    b: Map<Seq<char>, Seq<Instant>>,
    now: Instant,
    in_order: bool,
    key: Seq<char>,
    a_opened: Map<Seq<char>, Seq<Instant>>,
) -> (b_opened: Map<Seq<char>, Seq<Instant>>)
    requires
        differ_in_the_idle(config, a, b, now, in_order),
        history::tracking(a, key, config.max_tracked_identities as nat, a_opened),
    ensures
        history::tracking(b, key, config.max_tracked_identities as nat, b_opened),
        agree(config, a_opened, b_opened, now, in_order),
        a_opened.dom().contains(key),
        b_opened.dom().contains(key),
{
    let limit = history::room_for_one(config.max_tracked_identities as nat);
    assert(agree_on(config, a, b, key, now, in_order));
    if a.dom().contains(key) {
        if b.dom().contains(key) {
            b
        } else {
            let spared = a.dom().remove(key);
            assert forall|bucket: Seq<char>| #[trigger]
                matters(config, b, bucket, now, in_order) implies spared.contains(bucket) by {
                assert(agree_on(config, a, b, bucket, now, in_order));
            }
            let b_opened = lemma_make_room(config, b, now, in_order, key, spared);
            lemma_agree_joins(config, a, b, b_opened, now, in_order);
            b_opened
        }
    } else {
        let a_room = choose|room: Map<Seq<char>, Seq<Instant>>| #[trigger]
            history::trimmed(a, limit, room) && a_opened == room.insert(key, Seq::empty());
        vstd::set_lib::lemma_len_subset(a_room.dom(), a.dom());
        if forall|bucket: Seq<char>| #[trigger]
            matters(config, a, bucket, now, in_order) ==> a_room.dom().contains(bucket) {
            assert forall|bucket: Seq<char>| #[trigger]
                agree_on(config, a_opened, a, bucket, now, in_order) by {
                assert(matters(config, a_opened, bucket, now, in_order) == matters(
                    config,
                    a,
                    bucket,
                    now,
                    in_order,
                ));
            }
            lemma_agree_joins(config, a_opened, a, b, now, in_order);
            if b.dom().contains(key) {
                b
            } else {
                assert forall|bucket: Seq<char>| #[trigger]
                    matters(config, b, bucket, now, in_order) implies a_room.dom().contains(
                    bucket,
                ) by {
                    assert(agree_on(config, a, b, bucket, now, in_order));
                }
                let b_opened = lemma_make_room(config, b, now, in_order, key, a_room.dom());
                lemma_agree_joins(config, a_opened, b, b_opened, now, in_order);
                b_opened
            }
        } else {
            let gone = choose|gone: Seq<char>| #[trigger]
                matters(config, a, gone, now, in_order) && !a_room.dom().contains(gone);
            lemma_forget_alike(config, a, b, now, in_order, key, a_room, gone)
        }
    }
}

/// A bucket that matters is forgotten only where every bucket does; then a
/// memory that differs in the idle only tracks the same buckets, and may
/// forget the same one.
proof fn lemma_forget_alike(
    config: ThresholdConfig,
    a: Map<Seq<char>, Seq<Instant>>,
    b: Map<Seq<char>, Seq<Instant>>,
    now: Instant,
    in_order: bool,
    key: Seq<char>,
    a_room: Map<Seq<char>, Seq<Instant>>,
    gone: Seq<char>,
) -> (b_opened: Map<Seq<char>, Seq<Instant>>)
    requires
        differ_in_the_idle(config, a, b, now, in_order),
        !a.dom().contains(key),
        history::trimmed(
            a,
            history::room_for_one(config.max_tracked_identities as nat),
            a_room,
        ),
        matters(config, a, gone, now, in_order),
        !a_room.dom().contains(gone),
    ensures
        history::tracking(b, key, config.max_tracked_identities as nat, b_opened),
        agree(config, a_room.insert(key, Seq::empty()), b_opened, now, in_order),
        b_opened.dom().contains(key),
{
    let limit = history::room_for_one(config.max_tracked_identities as nat);
    assert(a.dom().len() == limit + 1);
    assert(a_room.dom().subset_of(a.dom().remove(gone)));
    vstd::set_lib::lemma_subset_equality(a_room.dom(), a.dom().remove(gone));
    assert forall|bucket: Seq<char>| #[trigger] a.dom().contains(bucket) implies matters(
        config,
        a,
        bucket,
        now,
        in_order,
    ) by {
        if bucket != gone {
            assert(a_room.dom().contains(bucket));
            assert(history::no_more_recent(a[gone], a[bucket]));
            if !matters(config, a, bucket, now, in_order) {
                lemma_idle_go_first(config, a, gone, bucket, now, in_order);
            }
        }
    }
    assert forall|bucket: Seq<char>| #[trigger] a.dom().contains(bucket) implies b.dom().contains(
        bucket,
    ) by {
        assert(agree_on(config, a, b, bucket, now, in_order));
    }
    vstd::set_lib::lemma_len_subset(a.dom(), b.dom());
    vstd::set_lib::lemma_subset_equality(a.dom(), b.dom());
    let b_room = b.remove(gone);
    assert forall|left: Seq<char>, kept: Seq<char>|
        b.dom().contains(left) && !b_room.dom().contains(left) && #[trigger] b_room.dom().contains(
            kept,
        ) implies history::no_more_recent(#[trigger] b[left], b[kept]) by {
        assert(left == gone);
        assert(a_room.dom().contains(kept));
        assert(history::no_more_recent(a[gone], a[kept]));
        assert(agree_on(config, a, b, gone, now, in_order));
        assert(agree_on(config, a, b, kept, now, in_order));
    }
    assert(history::trimmed(b, limit, b_room));
    let a_opened = a_room.insert(key, Seq::empty());
    let b_opened = b_room.insert(key, Seq::empty());
    assert forall|bucket: Seq<char>| #[trigger]
        agree_on(config, a_opened, b_opened, bucket, now, in_order) by {
        assert(agree_on(config, a, b, bucket, now, in_order));
        if bucket != key && bucket != gone {
            assert(a_room.dom().contains(bucket) == a.dom().contains(bucket));
        }
    }
    b_opened
}

proof fn lemma_differ_later(
    config: ThresholdConfig,
    a: Map<Seq<char>, Seq<Instant>>,
    b: Map<Seq<char>, Seq<Instant>>,
    earlier: Instant,
    later: Instant,
    in_order: bool,
)
    requires
        differ_in_the_idle(config, a, b, earlier, in_order),
        earlier.nanos <= later.nanos,
    ensures
        differ_in_the_idle(config, a, b, later, in_order),
{
    let window = config.window.total_nanos();
    if in_order {
        assert forall|bucket: Seq<char>| #[trigger]
            a.dom().contains(bucket) implies in_order_until(a[bucket], later) by {}
        assert forall|bucket: Seq<char>| #[trigger]
            b.dom().contains(bucket) implies in_order_until(b[bucket], later) by {}
    }
    assert forall|bucket: Seq<char>| #[trigger]
        agree_on(config, a, b, bucket, later, in_order) by {
        assert(agree_on(config, a, b, bucket, earlier, in_order));
        lemma_unexpired_again(a[bucket], earlier, later, window);
        lemma_unexpired_again(b[bucket], earlier, later, window);
    }
}

/// Whatever a rule may answer from one memory it may answer from one that
/// differs in the idle only, and they differ in no more afterwards.
proof fn lemma_answer_despite_the_idle(
    config: ThresholdConfig,
    a: ThresholdState,
    b: ThresholdState,
    since: Instant,
    in_order: bool,
    step: Step,
    a_after: ThresholdState,
) -> (b_after: ThresholdState)
    requires
        differ_in_the_idle(config, a.history, b.history, since, in_order),
        a.unsaved == b.unsaved,
        since.nanos <= step.now.nanos,
        threshold::decides(
            config,
            a,
            step.action,
            step.identity,
            step.now,
            step.decision,
            a_after,
        ),
    ensures
        threshold::decides(
            config,
            b,
            step.action,
            step.identity,
            step.now,
            step.decision,
            b_after,
        ),
        differ_in_the_idle(config, a_after.history, b_after.history, step.now, in_order),
        a_after.unsaved == b_after.unsaved,
{
    let now = step.now;
    lemma_differ_later(config, a.history, b.history, since, now, in_order);
    let b_after = if config.applies_to(step.action.operation) && step.action.blast_radius
        <= config.max_per_request {
        let bucket = config.bucket(step.identity);
        let cap = config.max_tracked_identities as nat;
        let window = config.window.total_nanos();
        let a_opened = choose|opened: Map<Seq<char>, Seq<Instant>>| #[trigger]
            history::tracking(a.history, bucket, cap, opened) && threshold::decides_within_window(
                config,
                opened,
                a.unsaved,
                step.action.blast_radius,
                bucket,
                now,
                step.decision,
                a_after,
            );
        let b_opened = lemma_track_among_the_idle(
            config,
            a.history,
            b.history,
            now,
            in_order,
            bucket,
            a_opened,
        );
        assert(agree_on(config, a_opened, b_opened, bucket, now, in_order));
        assert(history::unexpired(a_opened[bucket], now, window) =~= history::unexpired(
            b_opened[bucket],
            now,
            window,
        ));
        let b_after = ThresholdState {
            history: b_opened.insert(bucket, a_after.history[bucket]),
            unsaved: a_after.unsaved,
        };
        assert(threshold::decides_within_window(
            config,
            b_opened,
            b.unsaved,
            step.action.blast_radius,
            bucket,
            now,
            step.decision,
            b_after,
        ));
        assert forall|other: Seq<char>| #[trigger]
            agree_on(config, a_after.history, b_after.history, other, now, in_order) by {
            assert(agree_on(config, a_opened, b_opened, other, now, in_order));
        }
        b_after
    } else {
        b
    };
    if in_order {
        memories_stay_orderly(config, a, step, a_after, since);
        memories_stay_orderly(config, b, step, b_after, since);
    }
    lemma_stays_bounded(config, a, step, a_after);
    lemma_stays_bounded(config, b, step, b_after);
    b_after
}

proof fn lemma_stays_bounded(
    config: ThresholdConfig,
    before: ThresholdState,
    step: Step,
    after: ThresholdState,
)
    requires
        threshold::decides(
            config,
            before,
            step.action,
            step.identity,
            step.now,
            step.decision,
            after,
        ),
        bounded(config, before.history),
    ensures
        bounded(config, after.history),
{
    budget::tracked_identities_stay_bounded(
        config,
        before,
        step.action,
        step.identity,
        step.now,
        step.decision,
        after,
        config.tracking_limit(),
    );
}

/// Whether two memories answer alike from `since` on.
spec fn related(
    config: ThresholdConfig,
    a: ThresholdState,
    b: ThresholdState,
    since: Instant,
) -> bool {
    &&& a.unsaved == b.unsaved
    &&& {
        ||| interchangeable(config, a.history, b.history, since)
        ||| differ_in_the_idle(config, a.history, b.history, since, true)
        ||| differ_in_the_idle(config, a.history, b.history, since, false)
    }
}

proof fn lemma_answer_related(
    config: ThresholdConfig,
    a: ThresholdState,
    b: ThresholdState,
    since: Instant,
    step: Step,
    a_after: ThresholdState,
) -> (b_after: ThresholdState)
    requires
        related(config, a, b, since),
        since.nanos <= step.now.nanos,
        threshold::decides(
            config,
            a,
            step.action,
            step.identity,
            step.now,
            step.decision,
            a_after,
        ),
    ensures
        threshold::decides(
            config,
            b,
            step.action,
            step.identity,
            step.now,
            step.decision,
            b_after,
        ),
        related(config, a_after, b_after, step.now),
{
    if interchangeable(config, a.history, b.history, since) {
        lemma_answer_alike(config, a, b, since, step, a_after)
    } else {
        let in_order = differ_in_the_idle(config, a.history, b.history, since, true);
        lemma_answer_despite_the_idle(config, a, b, since, in_order, step, a_after)
    }
}

proof fn lemma_follow(
    config: ThresholdConfig,
    since: Instant,
    a_states: Seq<ThresholdState>,
    steps: Seq<Step>,
    b: ThresholdState,
) -> (b_states: Seq<ThresholdState>)
    requires
        budget::is_run(config, a_states, steps),
        related(config, a_states[0], b, since),
        steps.len() > 0 ==> since.nanos <= steps[0].now.nanos,
    ensures
        budget::is_run(config, b_states, steps),
        b_states[0] == b,
        related(
            config,
            a_states.last(),
            b_states.last(),
            if steps.len() == 0 {
                since
            } else {
                steps.last().now
            },
        ),
    decreases steps.len(),
{
    if steps.len() == 0 {
        seq![b]
    } else {
        let n = steps.len() as int;
        let fewer = steps.drop_last();
        assert forall|i: int| 0 <= i < fewer.len() implies threshold::decides(
            config,
            a_states.drop_last()[i],
            (#[trigger] fewer[i]).action,
            fewer[i].identity,
            fewer[i].now,
            fewer[i].decision,
            a_states.drop_last()[i + 1],
        ) by {
            assert(steps[i] == fewer[i]);
        }
        let earlier = lemma_follow(config, since, a_states.drop_last(), fewer, b);
        let reached = if fewer.len() == 0 {
            since
        } else {
            fewer.last().now
        };
        assert(steps[n - 1] == steps.last());
        if fewer.len() > 0 {
            assert(fewer.last() == steps[n - 2]);
        }
        let b_after = lemma_answer_related(
            config,
            a_states[n - 1],
            earlier.last(),
            reached,
            steps[n - 1],
            a_states[n],
        );
        let b_states = earlier.push(b_after);
        assert forall|i: int| 0 <= i < steps.len() implies threshold::decides(
            config,
            b_states[i],
            (#[trigger] steps[i]).action,
            steps[i].identity,
            steps[i].now,
            steps[i].decision,
            b_states[i + 1],
        ) by {
            if i < n - 1 {
                assert(fewer[i] == steps[i]);
            }
        }
        b_states
    }
}

/// Whether asking leaves the order of the buckets alone: the bucket asked
/// about is tracked, and it has live events, or none at all.
pub open spec fn keeps_order(config: ThresholdConfig, state: ThresholdState, step: Step) -> bool {
    let bucket = config.bucket(step.identity);
    &&& state.history.dom().contains(bucket)
    &&& state.history[bucket].len() == 0 || history::unexpired(
        state.history[bucket],
        step.now,
        config.window.total_nanos(),
    ).len() > 0
}

/// A block that leaves the order of the buckets alone leaves no trace, however
/// many buckets are forgotten later: afterwards a rule may give the very
/// decisions that it may give had the blocked action never been asked about,
/// and no others. Such is a block at the limit of a request, and one of a
/// tracked bucket that has live events, or none at all.
pub proof fn blocked_actions_change_no_answer(
    config: ThresholdConfig,
    before: ThresholdState,
    blocked: Step,
    after: ThresholdState,
    steps: Seq<Step>,
)
    requires
        threshold::decides(
            config,
            before,
            blocked.action,
            blocked.identity,
            blocked.now,
            blocked.decision,
            after,
        ),
        blocked.decision is Some,
        blocked.action.blast_radius > config.max_per_request || keeps_order(config, before, blocked),
        steps.len() > 0 ==> blocked.now.nanos <= steps[0].now.nanos,
    ensures
        can_answer(config, after, steps) <==> can_answer(config, before, steps),
{
    let window = config.window.total_nanos();
    let bucket = config.bucket(blocked.identity);
    if blocked.action.blast_radius <= config.max_per_request {
        let events = before.history[bucket];
        let live = history::unexpired(events, blocked.now, window);
        lemma_unexpired_again(events, blocked.now, blocked.now, window);
        let dropped = budget::lemma_unexpired_suffix(events, blocked.now, window);
        assert(after.history == before.history.insert(bucket, live));
        assert(after.history.dom() =~= before.history.dom());
    }
    assert(interchangeable(config, before.history, after.history, blocked.now));
    lemma_interchangeable_later(
        config,
        before.history,
        after.history,
        blocked.now,
        blocked.now,
    );
    lemma_related_answer_alike(config, before, after, blocked.now, steps);
    lemma_related_answer_alike(config, after, before, blocked.now, steps);
}

proof fn lemma_related_answer_alike(
    config: ThresholdConfig,
    a: ThresholdState,
    b: ThresholdState,
    since: Instant,
    steps: Seq<Step>,
)
    requires
        related(config, a, b, since),
        steps.len() > 0 ==> since.nanos <= steps[0].now.nanos,
    ensures
        can_answer(config, a, steps) ==> can_answer(config, b, steps),
{
    if can_answer(config, a, steps) {
        let states = choose|states: Seq<ThresholdState>| #[trigger]
            budget::is_run(config, states, steps) && states[0] == a;
        let others = lemma_follow(config, since, states, steps, b);
    }
}

/// A block of a bucket that was not tracked leaves no trace, unless a bucket
/// with events is forgotten to track it: afterwards a rule may give the very
/// decisions that it may give had the blocked action never been asked about,
/// and no others, whoever is forgotten later. So it is wherever there is room.
pub proof fn blocks_of_newcomers_leave_no_trace(
    config: ThresholdConfig,
    before: ThresholdState,
    blocked: Step,
    after: ThresholdState,
    steps: Seq<Step>,
)
    requires
        threshold::decides(
            config,
            before,
            blocked.action,
            blocked.identity,
            blocked.now,
            blocked.decision,
            after,
        ),
        blocked.decision is Some,
        !before.history.dom().contains(config.bucket(blocked.identity)),
        bounded(config, before.history),
        has_room(config, before, blocked.identity) || forall|bucket: Seq<char>|
            #[trigger] before.history.dom().contains(bucket) && before.history[bucket].len() > 0
                ==> after.history.dom().contains(bucket),
        steps.len() > 0 ==> blocked.now.nanos <= steps[0].now.nanos,
    ensures
        can_answer(config, after, steps) <==> can_answer(config, before, steps),
{
    lemma_stays_bounded(config, before, blocked, after);
    assert forall|bucket: Seq<char>| #[trigger]
        agree_on(config, before.history, after.history, bucket, blocked.now, false) by {}
    assert forall|bucket: Seq<char>| #[trigger]
        agree_on(config, after.history, before.history, bucket, blocked.now, false) by {
        assert(agree_on(config, before.history, after.history, bucket, blocked.now, false));
    }
    lemma_related_answer_alike(config, before, after, blocked.now, steps);
    lemma_related_answer_alike(config, after, before, blocked.now, steps);
}

/// In an orderly memory, only what a block makes a rule forget leaves a trace:
/// unless a bucket with live events is forgotten to track the one asked about,
/// a rule may give afterwards the very decisions that it may give had the
/// blocked action never been asked about, and no others, whoever is forgotten
/// later. So it is for a bucket whose events have all expired. A memory is
/// orderly if it comes of decisions at moments that never go back.
pub proof fn only_forgetting_leaves_a_trace(
    config: ThresholdConfig,
    before: ThresholdState,
    blocked: Step,
    after: ThresholdState,
    steps: Seq<Step>,
)
    requires
        threshold::decides(
            config,
            before,
            blocked.action,
            blocked.identity,
            blocked.now,
            blocked.decision,
            after,
        ),
        blocked.decision is Some,
        orderly(before.history, blocked.now),
        bounded(config, before.history),
        has_room(config, before, blocked.identity) || forall|bucket: Seq<char>| #[trigger]
            is_live(config, before.history, bucket, blocked.now) ==> after.history.dom().contains(
                bucket,
            ),
        steps.len() > 0 ==> blocked.now.nanos <= steps[0].now.nanos,
    ensures
        can_answer(config, after, steps) <==> can_answer(config, before, steps),
{
    let now = blocked.now;
    let window = config.window.total_nanos();
    let key = config.bucket(blocked.identity);
    memories_stay_orderly(config, before, blocked, after, now);
    lemma_stays_bounded(config, before, blocked, after);
    assert forall|bucket: Seq<char>| #[trigger]
        agree_on(config, before.history, after.history, bucket, now, true) by {
        lemma_unexpired_again(before.history[bucket], now, now, window);
        let dropped = budget::lemma_unexpired_suffix(before.history[bucket], now, window);
        assert(is_live(config, before.history, bucket, now) == is_live(
            config,
            after.history,
            bucket,
            now,
        ));
    }
    assert forall|bucket: Seq<char>| #[trigger]
        agree_on(config, after.history, before.history, bucket, now, true) by {
        assert(agree_on(config, before.history, after.history, bucket, now, true));
    }
    lemma_related_answer_alike(config, before, after, now, steps);
    lemma_related_answer_alike(config, after, before, now, steps);
}

}
