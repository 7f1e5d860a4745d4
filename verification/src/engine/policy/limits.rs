//! The blast-radius rule by the plain account of what was asked, when, and
//! what was admitted.

use vstd::prelude::*;

use crate::engine::action::{ActionView, OperationKind};
use crate::engine::policy::budget;
use crate::engine::policy::budget::Step;
use crate::engine::policy::history;
use crate::engine::policy::store;
use crate::engine::policy::store::Anchor;
use crate::engine::policy::threshold;
use crate::engine::policy::threshold::{
    ThresholdConfig, ThresholdPolicy, ThresholdScope, ThresholdState,
};
use crate::engine::policy::trace;
use crate::engine::policy::Policy;
use crate::engine::text;
use crate::engine::time;
use crate::engine::time::Instant;

verus! {

/// Whether a rule has a say about an operation: it names no operations, or
/// this one among others.
pub open spec fn has_a_say(config: ThresholdConfig, operation: OperationKind) -> bool {
    config.operations matches Some(kinds) ==> exists|i: int|
        0 <= i < kinds@.len() && kinds@[i] == operation
}

/// Whether two identities share one budget.
pub open spec fn share_a_budget(config: ThresholdConfig, a: Seq<char>, b: Seq<char>) -> bool {
    config.scope == ThresholdScope::Global || a == b
}

/// Whether what happened at `then` lies within the window that ends at `now`,
/// both ends of it included.
pub open spec fn within_window(config: ThresholdConfig, then: Instant, now: Instant) -> bool {
    now.nanos - then.nanos <= config.window.secs() * 1_000_000_000 + config.window.subsec_nanos()
}

/// How much blast radius was admitted within the window that ends at `now`
/// against the budget of `identity`.
pub open spec fn spent(
    config: ThresholdConfig,
    steps: Seq<Step>,
    identity: Seq<char>,
    now: Instant,
) -> nat
    decreases steps.len(),
{
    if steps.len() == 0 {
        0
    } else {
        let step = steps.last();
        spent(config, steps.drop_last(), identity, now) + if step.decision is None && has_a_say(
            config,
            step.action.operation,
        ) && share_a_budget(config, step.identity, identity) && within_window(
            config,
            step.now,
            now,
        ) {
            step.action.blast_radius
        } else {
            0
        }
    }
}

/// How many of some events lie within the window that ends at `now`.
pub open spec fn recent(config: ThresholdConfig, events: Seq<Instant>, now: Instant) -> nat
    decreases events.len(),
{
    if events.len() == 0 {
        0
    } else {
        recent(config, events.drop_last(), now) + if within_window(config, events.last(), now) {
            1nat
        } else {
            0nat
        }
    }
}

/// Under a rule of scope per identity, two identities share a bucket only if
/// they are the same, and what is kept for an identity is kept under its own
/// name; under one of global scope all share one.
pub proof fn identities_have_buckets_of_their_own(
    config: ThresholdConfig,
    a: Seq<char>,
    b: Seq<char>,
)
    ensures
        config.bucket(a) == config.bucket(b) <==> share_a_budget(config, a, b),
        config.scope == ThresholdScope::PerIdentity ==> config.bucket(a) == a,
        config.scope == ThresholdScope::Global ==> config.bucket(a) == seq![
            'g',
            'l',
            'o',
            'b',
            'a',
            'l',
        ],
{
    reveal_strlit("global");
    assert("global"@ =~= seq!['g', 'l', 'o', 'b', 'a', 'l']);
}

/// A rule applies to the operations it names, and to all if it names none.
pub proof fn rules_apply_to_what_they_name(config: ThresholdConfig, operation: OperationKind)
    ensures
        config.applies_to(operation) <==> has_a_say(config, operation),
{
    if let Some(kinds) = config.operations {
        if kinds@.contains(operation) {
            let i = kinds@.index_of(operation);
            assert(kinds@[i] == operation);
        }
    }
}

/// An event is forgotten once it is older than the window, and not before:
/// what is dropped off the front of some events is every event before the
/// first that still lies within the window.
pub proof fn events_expire_with_the_window(
    config: ThresholdConfig,
    events: Seq<Instant>,
    now: Instant,
) -> (dropped: int)
    ensures
        0 <= dropped <= events.len(),
        history::unexpired(events, now, config.window.total_nanos()) == events.skip(dropped),
        forall|i: int| 0 <= i < dropped ==> !within_window(config, #[trigger] events[i], now),
        dropped < events.len() ==> within_window(config, events[dropped], now),
    decreases events.len(),
{
    if events.len() > 0 && !within_window(config, events[0], now) {
        let further = events_expire_with_the_window(config, events.skip(1), now);
        assert(events.skip(1).skip(further) =~= events.skip(further + 1));
        assert forall|i: int| 0 <= i < further + 1 implies !within_window(
            config,
            #[trigger] events[i],
            now,
        ) by {
            if i > 0 {
                assert(events.skip(1)[i - 1] == events[i]);
            }
        }
        further + 1
    } else {
        assert(events.skip(0) =~= events);
        0
    }
}

proof fn lemma_recent_is_live(config: ThresholdConfig, events: Seq<Instant>, now: Instant)
    ensures
        recent(config, events, now) == budget::live_count(
            events,
            now,
            config.window.total_nanos(),
        ),
    decreases events.len(),
{
    if events.len() > 0 {
        lemma_recent_is_live(config, events.drop_last(), now);
    }
}

proof fn lemma_recent_concat(
    config: ThresholdConfig,
    a: Seq<Instant>,
    b: Seq<Instant>,
    now: Instant,
)
    ensures
        recent(config, a + b, now) == recent(config, a, now) + recent(config, b, now),
    decreases b.len(),
{
    if b.len() == 0 {
        assert(a + b =~= a);
    } else {
        assert((a + b).drop_last() =~= a + b.drop_last());
        lemma_recent_concat(config, a, b.drop_last(), now);
    }
}

proof fn lemma_recent_of_none(config: ThresholdConfig, events: Seq<Instant>, now: Instant)
    requires
        forall|i: int| 0 <= i < events.len() ==> !within_window(config, #[trigger] events[i], now),
    ensures
        recent(config, events, now) == 0,
    decreases events.len(),
{
    if events.len() > 0 {
        assert forall|i: int| 0 <= i < events.drop_last().len() implies !within_window(
            config,
            #[trigger] events.drop_last()[i],
            now,
        ) by {
            assert(events.drop_last()[i] == events[i]);
        }
        lemma_recent_of_none(config, events.drop_last(), now);
        assert(!within_window(config, events[events.len() - 1], now));
    }
}

proof fn lemma_recent_of_all(config: ThresholdConfig, events: Seq<Instant>, now: Instant)
    requires
        forall|i: int| 0 <= i < events.len() ==> within_window(config, #[trigger] events[i], now),
    ensures
        recent(config, events, now) == events.len(),
    decreases events.len(),
{
    if events.len() > 0 {
        assert forall|i: int| 0 <= i < events.drop_last().len() implies within_window(
            config,
            #[trigger] events.drop_last()[i],
            now,
        ) by {
            assert(events.drop_last()[i] == events[i]);
        }
        lemma_recent_of_all(config, events.drop_last(), now);
        assert(within_window(config, events[events.len() - 1], now));
    }
}

/// Of events in order, as many are left as lie within the window.
proof fn lemma_left_are_recent(config: ThresholdConfig, events: Seq<Instant>, now: Instant)
    requires
        forall|i: int, j: int|
            0 <= i <= j < events.len() ==> (#[trigger] events[i]).nanos <= (
            #[trigger] events[j]).nanos,
    ensures
        history::unexpired(events, now, config.window.total_nanos()).len() == recent(
            config,
            events,
            now,
        ),
{
    let dropped = events_expire_with_the_window(config, events, now);
    let gone = events.take(dropped);
    let left = events.skip(dropped);
    assert(events =~= gone + left);
    lemma_recent_concat(config, gone, left, now);
    assert forall|i: int| 0 <= i < gone.len() implies !within_window(
        config,
        #[trigger] gone[i],
        now,
    ) by {
        assert(gone[i] == events[i]);
    }
    lemma_recent_of_none(config, gone, now);
    assert forall|i: int| 0 <= i < left.len() implies within_window(
        config,
        #[trigger] left[i],
        now,
    ) by {
        assert(left[i] == events[dropped + i]);
        assert(within_window(config, events[dropped], now));
    }
    lemma_recent_of_all(config, left, now);
}

/// What a rule decides depends on the request and on how many events of its
/// budget lie within the window, and on nothing else: a request about an
/// operation the rule has no say about is allowed; one larger than the cap per
/// request is blocked; and of the others exactly those are blocked that would
/// bring the events within the window above the cap per window. The reason
/// names the numbers.
pub proof fn decisions_follow_the_count(
    config: ThresholdConfig,
    before: ThresholdState,
    action: ActionView,
    identity: Seq<char>,
    now: Instant,
    decision: Option<Seq<char>>,
    after: ThresholdState,
)
    requires
        threshold::decides(config, before, action, identity, now, decision, after),
        ({
            let events = budget::remembered(before, config.bucket(identity));
            forall|i: int, j: int|
                0 <= i <= j < events.len() ==> (#[trigger] events[i]).nanos <= (
                #[trigger] events[j]).nanos
        }),
    ensures
        ({
            let events = budget::remembered(before, config.bucket(identity));
            let count = recent(config, events, now);
            if !has_a_say(config, action.operation) {
                decision is None
            } else if action.blast_radius > config.max_per_request {
                decision == Some(
                    "blast radius "@ + text::decimal(action.blast_radius)
                        + " exceeds per-request limit "@ + text::decimal(
                        config.max_per_request as nat,
                    ),
                )
            } else if count + action.blast_radius > config.max_per_window {
                decision == Some(
                    text::decimal(count) + " matching actions in the last "@ + time::duration_text(
                        config.window.secs(),
                        config.window.subsec_nanos(),
                    ) + " would exceed window limit "@ + text::decimal(
                        config.max_per_window as nat,
                    ),
                )
            } else {
                decision is None
            }
        }),
{
    rules_apply_to_what_they_name(config, action.operation);
    lemma_left_are_recent(config, budget::remembered(before, config.bucket(identity)), now);
    if config.applies_to(action.operation) && action.blast_radius <= config.max_per_request {
        let opened = lemma_opened(config, before, action, identity, now, decision, after);
    }
}

proof fn lemma_opened(
    config: ThresholdConfig,
    before: ThresholdState,
    action: ActionView,
    identity: Seq<char>,
    now: Instant,
    decision: Option<Seq<char>>,
    after: ThresholdState,
) -> (opened: Map<Seq<char>, Seq<Instant>>)
    requires
        threshold::decides(config, before, action, identity, now, decision, after),
        config.applies_to(action.operation),
        action.blast_radius <= config.max_per_request,
    ensures
        history::tracking(
            before.history,
            config.bucket(identity),
            config.max_tracked_identities as nat,
            opened,
        ),
        threshold::decides_within_window(
            config,
            opened,
            before.unsaved,
            action.blast_radius,
            config.bucket(identity),
            now,
            decision,
            after,
        ),
        opened.dom().contains(config.bucket(identity)),
        opened[config.bucket(identity)] == budget::remembered(before, config.bucket(identity)),
{
    let bucket = config.bucket(identity);
    let opened = choose|opened: Map<Seq<char>, Seq<Instant>>| #[trigger]
        history::tracking(
            before.history,
            bucket,
            config.max_tracked_identities as nat,
            opened,
        ) && threshold::decides_within_window(
            config,
            opened,
            before.unsaved,
            action.blast_radius,
            bucket,
            now,
            decision,
            after,
        );
    opened
}

/// What is remembered of an admitted action is one event of that moment for
/// each unit of its blast radius, after those events of its budget that are
/// left of the window; a blocked one and one that the rule has no say about
/// add nothing. What is yet to be saved grows by the same events, each under
/// the name of its budget. No other budget changes, unless it is forgotten.
pub proof fn admitted_actions_are_remembered(
    config: ThresholdConfig,
    before: ThresholdState,
    action: ActionView,
    identity: Seq<char>,
    now: Instant,
    decision: Option<Seq<char>>,
    after: ThresholdState,
)
    requires
        threshold::decides(config, before, action, identity, now, decision, after),
    ensures
        ({
            let bucket = config.bucket(identity);
            let events = budget::remembered(before, bucket);
            let counts = decision is None && has_a_say(config, action.operation);
            let kept = budget::remembered(after, bucket);
            &&& exists|dropped: int|
                {
                    &&& 0 <= dropped <= events.len()
                    &&& forall|i: int|
                        0 <= i < dropped ==> !within_window(config, #[trigger] events[i], now)
                    &&& kept.take(events.len() - dropped) == #[trigger] events.skip(dropped)
                    &&& kept.len() == events.len() - dropped + if counts {
                        action.blast_radius
                    } else {
                        0
                    }
                    &&& forall|i: int|
                        events.len() - dropped <= i < kept.len() ==> #[trigger] kept[i] == now
                }
            &&& match (before.unsaved, after.unsaved) {
                (None, None) => true,
                (Some(earlier), Some(later)) => {
                    &&& later.len() == earlier.len() + if counts {
                        action.blast_radius
                    } else {
                        0
                    }
                    &&& later.take(earlier.len() as int) == earlier
                    &&& forall|i: int|
                        earlier.len() <= i < later.len() ==> #[trigger] later[i] == (bucket, now)
                },
                _ => false,
            }
            &&& forall|other: Seq<char>|
                !share_a_budget(config, other, identity) && #[trigger] after.history.dom().contains(
                    config.bucket(other),
                ) ==> before.history.dom().contains(config.bucket(other))
                    && after.history[config.bucket(other)] == before.history[config.bucket(other)]
        }),
{
    let bucket = config.bucket(identity);
    let events = budget::remembered(before, bucket);
    let kept = budget::remembered(after, bucket);
    rules_apply_to_what_they_name(config, action.operation);
    if config.applies_to(action.operation) && action.blast_radius <= config.max_per_request {
        let opened = lemma_opened(config, before, action, identity, now, decision, after);
        let dropped = events_expire_with_the_window(config, events, now);
        assert(kept.take(events.len() - dropped) =~= events.skip(dropped));
    } else {
        assert(events.skip(0) =~= events);
        assert(kept.take(events.len() - 0) =~= events.skip(0));
    }
    if let Some(earlier) = before.unsaved {
        assert(after.unsaved->0.take(earlier.len() as int) =~= earlier);
    }
}

proof fn lemma_prefix(
    config: ThresholdConfig,
    states: Seq<ThresholdState>,
    steps: Seq<Step>,
    n: int,
)
    requires
        budget::is_run(config, states, steps),
        0 <= n <= steps.len(),
    ensures
        budget::is_run(config, states.take(n + 1), steps.take(n)),
{
    let fewer = steps.take(n);
    let first = states.take(n + 1);
    assert forall|i: int| 0 <= i < fewer.len() implies threshold::decides(
        config,
        first[i],
        (#[trigger] fewer[i]).action,
        fewer[i].identity,
        fewer[i].now,
        fewer[i].decision,
        first[i + 1],
    ) by {
        assert(steps[i] == fewer[i]);
    }
}

proof fn lemma_orderly_run(
    config: ThresholdConfig,
    states: Seq<ThresholdState>,
    steps: Seq<Step>,
    now: Instant,
)
    requires
        budget::is_run(config, states, steps),
        states[0].history == Map::<Seq<char>, Seq<Instant>>::empty(),
        steps.len() > 0 ==> steps.last().now.nanos <= now.nanos,
    ensures
        trace::orderly(states.last().history, now),
    decreases steps.len(),
{
    if steps.len() > 0 {
        let n = steps.len() as int;
        lemma_prefix(config, states, steps, n - 1);
        assert(steps.take(n - 1) =~= steps.drop_last());
        assert(states.take(n) =~= states.drop_last());
        let step = steps[n - 1];
        if n > 1 {
            assert(steps.drop_last().last() == steps[n - 2]);
        }
        lemma_orderly_run(config, states.drop_last(), steps.drop_last(), step.now);
        trace::memories_stay_orderly(config, states[n - 1], step, states[n], step.now);
        assert forall|bucket: Seq<char>| #[trigger]
            states.last().history.dom().contains(bucket) implies trace::in_order_until(
            states.last().history[bucket],
            now,
        ) by {}
    }
}

proof fn lemma_spent(config: ThresholdConfig, steps: Seq<Step>, identity: Seq<char>, now: Instant)
    ensures
        recent(config, budget::admissions(config, config.bucket(identity), steps), now) == spent(
            config,
            steps,
            identity,
            now,
        ),
    decreases steps.len(),
{
    if steps.len() > 0 {
        let step = steps.last();
        lemma_spent(config, steps.drop_last(), identity, now);
        rules_apply_to_what_they_name(config, step.action.operation);
        identities_have_buckets_of_their_own(config, step.identity, identity);
        let more = threshold::admitted(step.action.blast_radius, step.now);
        lemma_recent_concat(
            config,
            budget::admissions(config, config.bucket(identity), steps.drop_last()),
            more,
            now,
        );
        if within_window(config, step.now, now) {
            lemma_recent_of_all(config, more, now);
        } else {
            lemma_recent_of_none(config, more, now);
        }
    }
}

/// The budget of an identity, or of everybody under global scope, holds at
/// every moment: whatever a rule remembered at first, no more blast radius
/// than the cap per window is admitted against it within any window, unless
/// something live of it was forgotten.
pub proof fn no_more_than_the_cap_is_admitted(
    config: ThresholdConfig,
    states: Seq<ThresholdState>,
    steps: Seq<Step>,
    identity: Seq<char>,
    now: Instant,
)
    requires
        budget::is_run(config, states, steps),
        budget::forgets_nothing_live(config, states, steps, config.bucket(identity)),
        steps.len() > 0 ==> steps.last().now.nanos <= now.nanos,
    ensures
        spent(config, steps, identity, now) <= config.max_per_window,
{
    let bucket = config.bucket(identity);
    budget::window_budget_is_never_exceeded(config, states, steps, bucket, now);
    lemma_recent_is_live(config, budget::admissions(config, bucket, steps), now);
    lemma_spent(config, steps, identity, now);
}

/// What is remembered over a run from an empty memory is the end of what was
/// admitted.
proof fn lemma_remembered_is_admitted(
    config: ThresholdConfig,
    states: Seq<ThresholdState>,
    steps: Seq<Step>,
    bucket: Seq<char>,
) -> (dropped: Seq<Instant>)
    requires
        budget::is_run(config, states, steps),
        states[0].history == Map::<Seq<char>, Seq<Instant>>::empty(),
    ensures
        budget::admissions(config, bucket, steps) == dropped + budget::remembered(
            states.last(),
            bucket,
        ),
    decreases steps.len(),
{
    let all = budget::admissions(config, bucket, steps);
    if steps.len() == 0 {
        assert(all =~= Seq::<Instant>::empty() + budget::remembered(states.last(), bucket));
        Seq::empty()
    } else {
        let n = steps.len() as int;
        let step = steps[n - 1];
        let before = states[n - 1];
        let after = states[n];
        lemma_prefix(config, states, steps, n - 1);
        assert(steps.take(n - 1) =~= steps.drop_last());
        assert(states.take(n) =~= states.drop_last());
        let dropped = lemma_remembered_is_admitted(
            config,
            states.drop_last(),
            steps.drop_last(),
            bucket,
        );
        let earlier = budget::admissions(config, bucket, steps.drop_last());
        let events = budget::remembered(before, bucket);
        let kept = budget::remembered(after, bucket);
        if config.bucket(step.identity) == bucket && config.applies_to(step.action.operation)
            && step.action.blast_radius <= config.max_per_request {
            let opened = lemma_opened(
                config,
                before,
                step.action,
                step.identity,
                step.now,
                step.decision,
                after,
            );
            let gone = budget::lemma_unexpired_suffix(
                events,
                step.now,
                config.window.total_nanos(),
            );
            assert(all =~= dropped + gone + kept);
            dropped + gone
        } else {
            assert(all =~= earlier);
            if after.history.dom().contains(bucket) {
                assert(kept == events);
                dropped
            } else {
                assert(earlier =~= earlier + kept);
                earlier
            }
        }
    }
}

/// A rule that began with an empty memory blocks for cause only: a request is
/// blocked only if the rule has a say about it and it is larger than the cap
/// per request, or brings what was admitted against its own budget within the
/// window above the cap per window. What others did plays no part under a rule
/// of scope per identity; so an identity against which nothing was admitted
/// within the window is allowed whatever fits both caps.
pub proof fn blocks_have_a_cause(
    config: ThresholdConfig,
    states: Seq<ThresholdState>,
    steps: Seq<Step>,
    at: int,
)
    requires
        budget::is_run(config, states, steps),
        states[0].history == Map::<Seq<char>, Seq<Instant>>::empty(),
        0 <= at < steps.len(),
        steps[at].decision is Some,
    ensures
        has_a_say(config, steps[at].action.operation),
        steps[at].action.blast_radius > config.max_per_request || spent(
            config,
            steps.take(at),
            steps[at].identity,
            steps[at].now,
        ) + steps[at].action.blast_radius > config.max_per_window,
{
    lemma_decision_in_run(config, states, steps, at);
    let step = steps[at];
    let bucket = config.bucket(step.identity);
    lemma_prefix(config, states, steps, at);
    let dropped = lemma_remembered_is_admitted(
        config,
        states.take(at + 1),
        steps.take(at),
        bucket,
    );
    lemma_recent_concat(config, dropped, budget::remembered(states[at], bucket), step.now);
    lemma_spent(config, steps.take(at), step.identity, step.now);
}

proof fn lemma_decision_in_run(
    config: ThresholdConfig,
    states: Seq<ThresholdState>,
    steps: Seq<Step>,
    at: int,
)
    requires
        budget::is_run(config, states, steps),
        states[0].history == Map::<Seq<char>, Seq<Instant>>::empty(),
        0 <= at < steps.len(),
    ensures
        ({
            let step = steps[at];
            let count = recent(
                config,
                budget::remembered(states[at], config.bucket(step.identity)),
                step.now,
            );
            step.decision is Some <==> has_a_say(config, step.action.operation) && (
            step.action.blast_radius > config.max_per_request || count + step.action.blast_radius
                > config.max_per_window)
        }),
{
    let step = steps[at];
    let bucket = config.bucket(step.identity);
    lemma_prefix(config, states, steps, at);
    if at > 0 {
        assert(steps.take(at).last() == steps[at - 1]);
    }
    lemma_orderly_run(config, states.take(at + 1), steps.take(at), step.now);
    assert(states.take(at + 1).last() == states[at]);
    let events = budget::remembered(states[at], bucket);
    assert(trace::in_order_until(events, step.now)) by {
        if states[at].history.dom().contains(bucket) {
            assert(trace::in_order_until(states[at].history[bucket], step.now));
        }
    }
    decisions_follow_the_count(
        config,
        states[at],
        step.action,
        step.identity,
        step.now,
        step.decision,
        states[at + 1],
    );
}

/// Over a run that began with an empty memory and in which nothing live of a
/// budget was forgotten, the decisions about it are settled: a request is
/// blocked exactly if the rule has a say about it and it is larger than the
/// cap per request, or brings what was admitted against its budget within the
/// window above the cap per window.
pub proof fn decisions_follow_what_was_admitted(
    config: ThresholdConfig,
    states: Seq<ThresholdState>,
    steps: Seq<Step>,
    at: int,
)
    requires
        budget::is_run(config, states, steps),
        states[0].history == Map::<Seq<char>, Seq<Instant>>::empty(),
        0 <= at < steps.len(),
        budget::forgets_nothing_live(
            config,
            states.take(at + 1),
            steps.take(at),
            config.bucket(steps[at].identity),
        ),
    ensures
        steps[at].decision is Some <==> has_a_say(config, steps[at].action.operation) && (
        steps[at].action.blast_radius > config.max_per_request || spent(
            config,
            steps.take(at),
            steps[at].identity,
            steps[at].now,
        ) + steps[at].action.blast_radius > config.max_per_window),
{
    lemma_decision_in_run(config, states, steps, at);
    let step = steps[at];
    let window = config.window.total_nanos();
    let bucket = config.bucket(step.identity);
    let first = states.take(at + 1);
    let fewer = steps.take(at);
    lemma_prefix(config, states, steps, at);
    let dropped = budget::lemma_run(config, first, fewer, bucket);
    let kept = budget::remembered(states[at], bucket);
    let all = budget::admissions(config, bucket, fewer);
    assert(budget::remembered(first[0], bucket) + all =~= all);
    assert forall|i: int| 0 <= i < dropped.len() implies !within_window(
        config,
        #[trigger] dropped[i],
        step.now,
    ) by {
        assert(fewer.last() == steps[at - 1]);
        assert(history::is_expired(dropped[i], fewer.last().now, window));
    }
    lemma_recent_of_none(config, dropped, step.now);
    lemma_recent_concat(config, dropped, kept, step.now);
    lemma_spent(config, fewer, step.identity, step.now);
}

/// As many identities are remembered as configured, and at least one.
pub proof fn somebody_is_always_remembered(config: ThresholdConfig)
    ensures
        config.tracking_limit() >= 1,
        config.max_tracked_identities >= 1 ==> config.tracking_limit()
            == config.max_tracked_identities,
        config.max_tracked_identities == 0 ==> config.tracking_limit() == 1,
{
}

/// Each admitted event is written to a store under the name of its budget,
/// with the wall-clock time it fell on, or the nearest that can be stored; all
/// of them are, in their order.
pub proof fn admitted_events_are_stored_one_by_one(
    events: Seq<(Seq<char>, Instant)>,
    anchor: Anchor,
    at: int,
)
    requires
        0 <= at < events.len(),
    ensures
        threshold::stored(events, anchor).len() == events.len(),
        threshold::stored(events, anchor)[at].0 == events[at].0,
        ({
            let millis = anchor.epoch_millis() + store::millis_from(
                anchor.instant(),
                events[at].1,
            );
            &&& i64::MIN <= millis <= i64::MAX ==> threshold::stored(events, anchor)[at].1
                == millis
            &&& millis < i64::MIN ==> threshold::stored(events, anchor)[at].1 == i64::MIN
            &&& millis > i64::MAX ==> threshold::stored(events, anchor)[at].1 == i64::MAX
        }),
{
}

/// Whoever asks a rule, by whichever clock, gets what the rule decides at some
/// moment about that very action of that very identity; its settings stay as
/// they are. So a request that the rule has no say about is allowed, and one
/// larger than the cap per request is blocked, whatever the moment.
pub proof fn rules_decide_about_what_they_are_asked(
    before: ThresholdPolicy,
    action: ActionView,
    identity: Seq<char>,
    decision: Option<Seq<char>>,
    after: ThresholdPolicy,
)
    requires
        ThresholdPolicy::may_decide(before, action, identity, decision, after),
    ensures
        after.config() == before.config(),
        after.clock() == before.clock(),
        !has_a_say(before.config(), action.operation) ==> decision is None && after@ == before@,
        has_a_say(before.config(), action.operation) && action.blast_radius
            > before.config().max_per_request ==> decision is Some && after@ == before@,
        exists|now: Instant|
            0 <= now.nanos && #[trigger] threshold::decides(
                before.config(),
                before@,
                action,
                identity,
                now,
                decision,
                after@,
            ),
{
    rules_apply_to_what_they_name(before.config(), action.operation);
}

/// Handing over to a store forgets nothing that decisions depend on, and hands
/// every event over once: there is nothing left to hand over afterwards, and
/// what is handed over next is what was admitted since. A rule without a store
/// hands over nothing.
pub proof fn events_are_handed_over_once(
    config: ThresholdConfig,
    before: ThresholdState,
    action: ActionView,
    identity: Seq<char>,
    now: Instant,
    decision: Option<Seq<char>>,
    after: ThresholdState,
)
    requires
        threshold::decides(
            config,
            threshold::handed_over(before),
            action,
            identity,
            now,
            decision,
            after,
        ),
    ensures
        threshold::handed_over(before).history == before.history,
        before.unsaved is None <==> threshold::handed_over(before).unsaved is None,
        before.unsaved is None <==> after.unsaved is None,
        threshold::handed_over(before).unsaved matches Some(left) ==> left.len() == 0,
        after.unsaved matches Some(next) ==> {
            &&& next.len() == if decision is None && has_a_say(config, action.operation) {
                action.blast_radius
            } else {
                0
            }
            &&& forall|i: int|
                0 <= i < next.len() ==> #[trigger] next[i] == (config.bucket(identity), now)
        },
{
    admitted_actions_are_remembered(
        config,
        threshold::handed_over(before),
        action,
        identity,
        now,
        decision,
        after,
    );
}

/// What one identity does is of no consequence to another with a budget of its
/// own: asked about the same action of the other at the same moment, a rule
/// gives the same answer whether or not the first was there, as long as it has
/// not forgotten the other for want of room.
pub proof fn others_do_not_change_the_answer(
    config: ThresholdConfig,
    before: ThresholdState,
    theirs: Step,
    between: ThresholdState,
    action: ActionView,
    identity: Seq<char>,
    now: Instant,
    decision_without: Option<Seq<char>>,
    after_without: ThresholdState,
    decision_with: Option<Seq<char>>,
    after_with: ThresholdState,
)
    requires
        !share_a_budget(config, theirs.identity, identity),
        threshold::decides(
            config,
            before,
            theirs.action,
            theirs.identity,
            theirs.now,
            theirs.decision,
            between,
        ),
        before.history.dom().contains(identity) ==> between.history.dom().contains(identity),
        threshold::decides(
            config,
            before,
            action,
            identity,
            now,
            decision_without,
            after_without,
        ),
        threshold::decides(config, between, action, identity, now, decision_with, after_with),
    ensures
        budget::remembered(between, identity) == budget::remembered(before, identity),
        decision_with == decision_without,
        budget::remembered(after_with, identity) == budget::remembered(after_without, identity),
{
    if config.applies_to(theirs.action.operation) && theirs.action.blast_radius
        <= config.max_per_request {
        let opened = lemma_opened(
            config,
            before,
            theirs.action,
            theirs.identity,
            theirs.now,
            theirs.decision,
            between,
        );
    }
    if config.applies_to(action.operation) && action.blast_radius <= config.max_per_request {
        let without = lemma_opened(
            config,
            before,
            action,
            identity,
            now,
            decision_without,
            after_without,
        );
        let with = lemma_opened(
            config,
            between,
            action,
            identity,
            now,
            decision_with,
            after_with,
        );
    }
}

/// An identity of which nothing is remembered within the window is allowed
/// whatever fits both caps, and nothing larger.
pub proof fn the_idle_are_allowed_up_to_the_caps(
    config: ThresholdConfig,
    before: ThresholdState,
    action: ActionView,
    identity: Seq<char>,
    now: Instant,
    decision: Option<Seq<char>>,
    after: ThresholdState,
)
    requires
        threshold::decides(config, before, action, identity, now, decision, after),
        has_a_say(config, action.operation),
        ({
            let events = budget::remembered(before, config.bucket(identity));
            forall|i: int| 0 <= i < events.len() ==> !within_window(config, #[trigger] events[i], now)
        }),
    ensures
        decision is None <==> action.blast_radius <= config.max_per_request && action.blast_radius
            <= config.max_per_window,
{
    rules_apply_to_what_they_name(config, action.operation);
    let events = budget::remembered(before, config.bucket(identity));
    let dropped = events_expire_with_the_window(config, events, now);
    if action.blast_radius <= config.max_per_request {
        let opened = lemma_opened(config, before, action, identity, now, decision, after);
        assert(events.skip(dropped).len() == 0);
    }
}

}
