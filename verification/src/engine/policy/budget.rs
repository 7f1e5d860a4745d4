//! What the blast-radius rule guarantees, decision by decision and over time.

use vstd::prelude::*;

use crate::engine::action::ActionView;
use crate::engine::policy::history;
use crate::engine::policy::store;
use crate::engine::policy::store::Anchor;
use crate::engine::policy::threshold;
use crate::engine::policy::threshold::{
    ThresholdConfig, ThresholdScope, ThresholdState, GLOBAL_BUCKET,
};
use crate::engine::time::Instant;

verus! {

/// A blocked action adds nothing to any history and nothing to what is yet
/// to be saved.
pub proof fn blocked_actions_do_not_count(
    config: ThresholdConfig,
    before: ThresholdState,
    action: ActionView,
    identity: Seq<char>,
    now: Instant,
    decision: Option<Seq<char>>,
    after: ThresholdState,
    bucket: Seq<char>,
)
    requires
        threshold::decides(config, before, action, identity, now, decision, after),
        decision is Some,
        after.history.dom().contains(bucket),
    ensures
        after.unsaved == before.unsaved,
        if before.history.dom().contains(bucket) {
            after.history[bucket] == before.history[bucket] || after.history[bucket] == history::unexpired(
                before.history[bucket],
                now,
                config.window.total_nanos(),
            )
        } else {
            after.history[bucket].len() == 0
        },
{
}

/// An action touches the bucket it counts against and no other one: whatever
/// else is still tracked afterwards was tracked before, with the same events.
pub proof fn other_buckets_are_untouched(
    config: ThresholdConfig,
    before: ThresholdState,
    action: ActionView,
    identity: Seq<char>,
    now: Instant,
    decision: Option<Seq<char>>,
    after: ThresholdState,
    other: Seq<char>,
)
    requires
        threshold::decides(config, before, action, identity, now, decision, after),
        other != config.bucket(identity),
    ensures
        after.history.dom().contains(other) ==> before.history.dom().contains(other)
            && after.history[other] == before.history[other],
        before.history.dom().contains(other) && before.history.dom().finite() && (
        before.history.dom().contains(config.bucket(identity)) || before.history.dom().len()
            < config.max_tracked_identities) ==> after.history.dom().contains(other),
{
}

/// A rule of global scope decides alike for every identity.
pub proof fn global_scope_ignores_identity(
    config: ThresholdConfig,
    before: ThresholdState,
    action: ActionView,
    one: Seq<char>,
    another: Seq<char>,
    now: Instant,
    decision: Option<Seq<char>>,
    after: ThresholdState,
)
    requires
        config.scope == ThresholdScope::Global,
    ensures
        threshold::decides(config, before, action, one, now, decision, after) == threshold::decides(
            config,
            before,
            action,
            another,
            now,
            decision,
            after,
        ),
{
    assert(config.bucket(one) == config.bucket(another));
}

/// The number of tracked identities never grows past the configured maximum
/// (or past one, when the maximum is zero), however many identities ask.
pub proof fn tracked_identities_stay_bounded(
    config: ThresholdConfig,
    before: ThresholdState,
    action: ActionView,
    identity: Seq<char>,
    now: Instant,
    decision: Option<Seq<char>>,
    after: ThresholdState,
    bound: nat,
)
    requires
        threshold::decides(config, before, action, identity, now, decision, after),
        bound >= config.max_tracked_identities,
        bound >= 1,
        before.history.dom().finite(),
        before.history.dom().len() <= bound,
    ensures
        after.history.dom().finite(),
        after.history.dom().len() <= bound,
{
    let bucket = config.bucket(identity);
    let cap = config.max_tracked_identities as nat;
    if config.applies_to(action.operation) && action.blast_radius <= config.max_per_request {
        let opened = choose|opened: Map<Seq<char>, Seq<Instant>>| #[trigger]
            history::tracking(before.history, bucket, cap, opened) && threshold::decides_within_window(
                config,
                opened,
                before.unsaved,
                action.blast_radius,
                bucket,
                now,
                decision,
                after,
            );
        history::lemma_tracking_bound(before.history, bucket, cap, opened, bound);
        assert(after.history.dom() =~= opened.dom());
    }
}

/// One decision of a rule: what was asked, when, and the answer.
pub struct Step {
    pub action: ActionView,
    pub identity: Seq<char>,
    pub now: Instant,
    pub decision: Option<Seq<char>>,
}

/// Whether `states` are the memories that a rule passes through while it
/// gives the decisions `steps`, at moments that never go back.
pub open spec fn is_run(
    config: ThresholdConfig,
    states: Seq<ThresholdState>,
    steps: Seq<Step>,
) -> bool {
    &&& states.len() == steps.len() + 1
    &&& forall|i: int|
        0 <= i < steps.len() ==> threshold::decides(
            config,
            states[i],
            (#[trigger] steps[i]).action,
            steps[i].identity,
            steps[i].now,
            steps[i].decision,
            states[i + 1],
        )
    &&& forall|i: int, j: int|
        0 <= i <= j < steps.len() ==> (#[trigger] steps[i]).now.nanos <= (
        #[trigger] steps[j]).now.nanos
}

/// Whether a decision admitted an action against `bucket`.
pub open spec fn counts_against(config: ThresholdConfig, bucket: Seq<char>, step: Step) -> bool {
    &&& step.decision is None
    &&& config.applies_to(step.action.operation)
    &&& config.bucket(step.identity) == bucket
}

/// Every event admitted against `bucket` over a run, one per unit of blast
/// radius, in order.
pub open spec fn admissions(
    config: ThresholdConfig,
    bucket: Seq<char>,
    steps: Seq<Step>,
) -> Seq<Instant>
    decreases steps.len(),
{
    if steps.len() == 0 {
        Seq::empty()
    } else {
        let earlier = admissions(config, bucket, steps.drop_last());
        let step = steps.last();
        if counts_against(config, bucket, step) {
            earlier + threshold::admitted(step.action.blast_radius, step.now)
        } else {
            earlier
        }
    }
}

/// How many of `events` lie within the last `window` nanoseconds before `now`.
pub open spec fn live_count(events: Seq<Instant>, now: Instant, window: nat) -> nat
    decreases events.len(),
{
    if events.len() == 0 {
        0
    } else {
        live_count(events.drop_last(), now, window) + if history::is_expired(events.last(), now, window) {
            0nat
        } else {
            1nat
        }
    }
}

/// What is remembered for `bucket`, nothing when it is not tracked.
pub open spec fn remembered(state: ThresholdState, bucket: Seq<char>) -> Seq<Instant> {
    if state.history.dom().contains(bucket) {
        state.history[bucket]
    } else {
        Seq::empty()
    }
}

proof fn lemma_live_count_concat(a: Seq<Instant>, b: Seq<Instant>, now: Instant, window: nat)
    ensures
        live_count(a + b, now, window) == live_count(a, now, window) + live_count(b, now, window),
    decreases b.len(),
{
    if b.len() == 0 {
        assert(a + b =~= a);
    } else {
        assert((a + b).drop_last() =~= a + b.drop_last());
        lemma_live_count_concat(a, b.drop_last(), now, window);
    }
}

proof fn lemma_live_count_bound(events: Seq<Instant>, now: Instant, window: nat)
    ensures
        live_count(events, now, window) <= events.len(),
    decreases events.len(),
{
    if events.len() > 0 {
        lemma_live_count_bound(events.drop_last(), now, window);
    }
}

proof fn lemma_all_expired(events: Seq<Instant>, now: Instant, window: nat)
    requires
        forall|i: int| 0 <= i < events.len() ==> history::is_expired(#[trigger] events[i], now, window),
    ensures
        live_count(events, now, window) == 0,
    decreases events.len(),
{
    if events.len() > 0 {
        assert(history::is_expired(events[events.len() - 1], now, window));
        assert forall|i: int| 0 <= i < events.drop_last().len() implies history::is_expired(
            #[trigger] events.drop_last()[i],
            now,
            window,
        ) by {
            assert(events.drop_last()[i] == events[i]);
        }
        lemma_all_expired(events.drop_last(), now, window);
    }
}

/// Dropping expired events off the front leaves a suffix, and what is
/// dropped is expired.
pub(crate) proof fn lemma_unexpired_suffix(
    events: Seq<Instant>,
    now: Instant,
    window: nat,
) -> (dropped: Seq<Instant>)
    ensures
        events == dropped + history::unexpired(events, now, window),
        forall|i: int| 0 <= i < dropped.len() ==> history::is_expired(#[trigger] dropped[i], now, window),
    decreases events.len(),
{
    if events.len() > 0 && history::is_expired(events[0], now, window) {
        let rest = lemma_unexpired_suffix(events.skip(1), now, window);
        let dropped = seq![events[0]] + rest;
        assert(events =~= seq![events[0]] + events.skip(1));
        assert(events =~= dropped + history::unexpired(events, now, window));
        assert forall|i: int| 0 <= i < dropped.len() implies history::is_expired(
            #[trigger] dropped[i],
            now,
            window,
        ) by {
            if i > 0 {
                assert(dropped[i] == rest[i - 1]);
            }
        }
        dropped
    } else {
        assert(events =~= Seq::<Instant>::empty() + events);
        Seq::empty()
    }
}

/// Whether a run forgets `bucket` only while nothing in it is live.
pub open spec fn forgets_nothing_live(
    config: ThresholdConfig,
    states: Seq<ThresholdState>,
    steps: Seq<Step>,
    bucket: Seq<char>,
) -> bool {
    forall|i: int, k: int|
        0 <= i < steps.len() && (#[trigger] states[i]).history.dom().contains(bucket) && !states[i
            + 1].history.dom().contains(bucket) && 0 <= k < states[i].history[bucket].len()
            ==> history::is_expired(
            #[trigger] states[i].history[bucket][k],
            steps[i].now,
            config.window.total_nanos(),
        )
}

/// After any run that forgets nothing live of `bucket`, what is remembered is
/// what was remembered at first and what was admitted, less some events that
/// had expired; and once something was admitted, it does not exceed the
/// budget.
pub(crate) proof fn lemma_run(
    config: ThresholdConfig,
    states: Seq<ThresholdState>,
    steps: Seq<Step>,
    bucket: Seq<char>,
) -> (dropped: Seq<Instant>)
    requires
        is_run(config, states, steps),
        forgets_nothing_live(config, states, steps, bucket),
    ensures
        remembered(states[0], bucket) + admissions(config, bucket, steps) == dropped + remembered(
            states.last(),
            bucket,
        ),
        forall|i: int|
            0 <= i < dropped.len() ==> steps.len() > 0 && history::is_expired(
                #[trigger] dropped[i],
                steps.last().now,
                config.window.total_nanos(),
            ),
        admissions(config, bucket, steps).len() > 0 ==> remembered(states.last(), bucket).len()
            <= config.max_per_window,
    decreases steps.len(),
{
    let window = config.window.total_nanos();
    if steps.len() == 0 {
        assert(remembered(states[0], bucket) + admissions(config, bucket, steps) =~= Seq::<
            Instant,
        >::empty() + remembered(states.last(), bucket));
        Seq::empty()
    } else {
        let n = steps.len() as int;
        let step = steps.last();
        let before = states[n - 1];
        let after = states[n];
        assert(states.last() == after);
        assert(states.drop_last().last() == before);
        assert(steps[n - 1] == step);
        assert forall|i: int| 0 <= i < steps.drop_last().len() implies threshold::decides(
            config,
            states.drop_last()[i],
            (#[trigger] steps.drop_last()[i]).action,
            steps.drop_last()[i].identity,
            steps.drop_last()[i].now,
            steps.drop_last()[i].decision,
            states.drop_last()[i + 1],
        ) by {
            assert(steps[i] == steps.drop_last()[i]);
        }
        assert forall|i: int, k: int|
            0 <= i < steps.drop_last().len() && (
            #[trigger] states.drop_last()[i]).history.dom().contains(bucket)
                && !states.drop_last()[i + 1].history.dom().contains(bucket) && 0 <= k
                < states.drop_last()[i].history[bucket].len() implies history::is_expired(
            #[trigger] states.drop_last()[i].history[bucket][k],
            steps.drop_last()[i].now,
            window,
        ) by {
            assert(states[i] == states.drop_last()[i]);
            assert(history::is_expired(states[i].history[bucket][k], steps[i].now, window));
        }
        let dropped = lemma_run(config, states.drop_last(), steps.drop_last(), bucket);
        let first = remembered(states[0], bucket);
        assert(states.drop_last()[0] == states[0]);
        let earlier = admissions(config, bucket, steps.drop_last());
        assert forall|i: int| 0 <= i < dropped.len() implies history::is_expired(
            #[trigger] dropped[i],
            step.now,
            window,
        ) by {
            assert(steps.drop_last().last() == steps[n - 2]);
        }
        assert(threshold::decides(config, before, step.action, step.identity, step.now, step.decision, after));
        let touched = config.applies_to(step.action.operation) && step.action.blast_radius
            <= config.max_per_request && config.bucket(step.identity) == bucket;
        if touched {
            let cap = config.max_tracked_identities as nat;
            let opened = choose|opened: Map<Seq<char>, Seq<Instant>>| #[trigger]
                history::tracking(before.history, bucket, cap, opened) && threshold::decides_within_window(
                    config,
                    opened,
                    before.unsaved,
                    step.action.blast_radius,
                    bucket,
                    step.now,
                    step.decision,
                    after,
                );
            assert(opened[bucket] =~= remembered(before, bucket));
            let more = lemma_unexpired_suffix(opened[bucket], step.now, window);
            let live = history::unexpired(opened[bucket], step.now, window);
            let gone = dropped + more;
            assert forall|i: int| 0 <= i < gone.len() implies history::is_expired(
                #[trigger] gone[i],
                step.now,
                window,
            ) by {
                if i < dropped.len() {
                    assert(gone[i] == dropped[i]);
                } else {
                    assert(gone[i] == more[i - dropped.len()]);
                }
            }
            assert(first + earlier =~= gone + live);
            if step.decision is None {
                let more = threshold::admitted(step.action.blast_radius, step.now);
                assert(remembered(after, bucket) == live + more);
                assert(first + (earlier + more) =~= (first + earlier) + more);
                assert(gone + (live + more) =~= (gone + live) + more);
            } else {
                assert(remembered(after, bucket) == live);
            }
            assert(first + admissions(config, bucket, steps) =~= gone + remembered(after, bucket));
            gone
        } else {
            if config.bucket(step.identity) != bucket {
                other_buckets_are_untouched(
                    config,
                    before,
                    step.action,
                    step.identity,
                    step.now,
                    step.decision,
                    after,
                    bucket,
                );
            }
            assert(admissions(config, bucket, steps) =~= earlier);
            if before.history.dom().contains(bucket) && !after.history.dom().contains(bucket) {
                let lost = remembered(before, bucket);
                let gone = dropped + lost;
                assert forall|i: int| 0 <= i < gone.len() implies history::is_expired(
                    #[trigger] gone[i],
                    step.now,
                    window,
                ) by {
                    if i < dropped.len() {
                        assert(gone[i] == dropped[i]);
                    } else {
                        assert(gone[i] == states[n - 1].history[bucket][i - dropped.len()]);
                    }
                }
                assert(first + earlier =~= gone + remembered(after, bucket));
                gone
            } else {
                assert(remembered(after, bucket) =~= remembered(before, bucket));
                dropped
            }
        }
    }
}

/// The window budget holds at every moment, whatever a rule remembered at
/// first: of everything admitted against a bucket over a run, no more than
/// `max_per_window` units lie within the trailing window; and as soon as
/// anything was admitted, neither do more together with what was remembered at
/// first, such as what a store gave back. This holds as long as the bucket is
/// not forgotten while something in it is live.
pub proof fn window_budget_is_never_exceeded(
    config: ThresholdConfig,
    states: Seq<ThresholdState>,
    steps: Seq<Step>,
    bucket: Seq<char>,
    now: Instant,
)
    requires
        is_run(config, states, steps),
        forgets_nothing_live(config, states, steps, bucket),
        steps.len() > 0 ==> steps.last().now.nanos <= now.nanos,
    ensures
        live_count(admissions(config, bucket, steps), now, config.window.total_nanos())
            <= config.max_per_window,
        admissions(config, bucket, steps).len() > 0 ==> live_count(
            remembered(states[0], bucket) + admissions(config, bucket, steps),
            now,
            config.window.total_nanos(),
        ) <= config.max_per_window,
{
    let window = config.window.total_nanos();
    let dropped = lemma_run(config, states, steps, bucket);
    let kept = remembered(states.last(), bucket);
    assert forall|i: int| 0 <= i < dropped.len() implies history::is_expired(
        #[trigger] dropped[i],
        now,
        window,
    ) by {}
    lemma_all_expired(dropped, now, window);
    lemma_live_count_concat(dropped, kept, now, window);
    lemma_live_count_bound(kept, now, window);
    lemma_live_count_concat(
        remembered(states[0], bucket),
        admissions(config, bucket, steps),
        now,
        window,
    );
}

/// A rule of global scope enforces its budget over all identities together,
/// whatever it remembered at first: changing identities between requests buys
/// nothing.
pub proof fn global_budget_survives_identity_churn(
    config: ThresholdConfig,
    states: Seq<ThresholdState>,
    steps: Seq<Step>,
    now: Instant,
)
    requires
        config.scope == ThresholdScope::Global,
        is_run(config, states, steps),
        steps.len() > 0 ==> steps.last().now.nanos <= now.nanos,
    ensures
        live_count(admissions(config, GLOBAL_BUCKET@, steps), now, config.window.total_nanos())
            <= config.max_per_window,
        admissions(config, GLOBAL_BUCKET@, steps).len() > 0 ==> live_count(
            remembered(states[0], GLOBAL_BUCKET@) + admissions(config, GLOBAL_BUCKET@, steps),
            now,
            config.window.total_nanos(),
        ) <= config.max_per_window,
{
    assert forall|i: int|
        0 <= i < steps.len() && (#[trigger] states[i]).history.dom().contains(
            GLOBAL_BUCKET@,
        ) implies states[i + 1].history.dom().contains(GLOBAL_BUCKET@) by {
        let step = steps[i];
        assert(config.bucket(step.identity) == GLOBAL_BUCKET@);
    }
    window_budget_is_never_exceeded(config, states, steps, GLOBAL_BUCKET@, now);
}

/// Refreshing replaces: an identity found in the store holds exactly the
/// events of its row afterwards, whatever it held before, so events that
/// make the round trip again and again are counted once.
pub proof fn refreshing_does_not_double_count(
    config: ThresholdConfig,
    before: Map<Seq<char>, Seq<Instant>>,
    anchor: Anchor,
    rows: Seq<(Seq<char>, Seq<i64>)>,
    now: Instant,
    after: Map<Seq<char>, Seq<Instant>>,
    at: int,
)
    requires
        threshold::refreshes(config, before, anchor, rows, now, after),
        forall|i: int, j: int|
            0 <= i < j < rows.len() ==> (#[trigger] rows[i]).0 != (#[trigger] rows[j]).0,
        0 <= at < rows.len(),
        store::recovered(anchor, rows[at].1, now, config.window.total_nanos()).len() > 0,
        after.dom().contains(rows[at].0),
    ensures
        store::is_sorted_from(
            after[rows[at].0],
            store::recovered(anchor, rows[at].1, now, config.window.total_nanos()),
        ),
{
    let window = config.window.total_nanos();
    let events = choose|events: Seq<(Seq<char>, Seq<Instant>)>| #[trigger]
        store::is_history_of(anchor, rows, now, window, events) && history::trimmed(
            store::replaced(before, events),
            config.tracking_limit(),
            after,
        );
    lemma_replaced_row(before, anchor, rows, now, window, events, at);
}

/// An identity that is not in the store keeps what it held, as long as it is
/// not forgotten for the sake of the configured size.
pub proof fn refreshing_leaves_other_identities_alone(
    config: ThresholdConfig,
    before: Map<Seq<char>, Seq<Instant>>,
    anchor: Anchor,
    rows: Seq<(Seq<char>, Seq<i64>)>,
    now: Instant,
    after: Map<Seq<char>, Seq<Instant>>,
    identity: Seq<char>,
)
    requires
        threshold::refreshes(config, before, anchor, rows, now, after),
        forall|i: int| 0 <= i < rows.len() ==> (#[trigger] rows[i]).0 != identity,
        after.dom().contains(identity),
    ensures
        before.dom().contains(identity),
        after[identity] == before[identity],
{
    let window = config.window.total_nanos();
    let events = choose|events: Seq<(Seq<char>, Seq<Instant>)>| #[trigger]
        store::is_history_of(anchor, rows, now, window, events) && history::trimmed(
            store::replaced(before, events),
            config.tracking_limit(),
            after,
        );
    lemma_unreplaced(before, anchor, rows, now, window, events, identity);
}

/// What a store gave back counts for as long as it is live: an action that
/// would exceed the budget together with those restored events of its bucket
/// that still lie within the window is blocked, as it would have been by the
/// process that admitted those events.
pub proof fn restored_history_counts_while_live(
    config: ThresholdConfig,
    before: Map<Seq<char>, Seq<Instant>>,
    anchor: Anchor,
    rows: Seq<(Seq<char>, Seq<i64>)>,
    restored_at: Instant,
    state: ThresholdState,
    at: int,
    action: ActionView,
    identity: Seq<char>,
    now: Instant,
    decision: Option<Seq<char>>,
    after: ThresholdState,
)
    requires
        threshold::refreshes(config, before, anchor, rows, restored_at, state.history),
        forall|i: int, j: int|
            0 <= i < j < rows.len() ==> (#[trigger] rows[i]).0 != (#[trigger] rows[j]).0,
        0 <= at < rows.len(),
        state.history.dom().contains(rows[at].0),
        config.bucket(identity) == rows[at].0,
        config.applies_to(action.operation),
        restored_at.nanos <= now.nanos,
        live_count(
            store::recovered(anchor, rows[at].1, restored_at, config.window.total_nanos()),
            now,
            config.window.total_nanos(),
        ) + action.blast_radius > config.max_per_window,
        threshold::decides(config, state, action, identity, now, decision, after),
    ensures
        decision is Some,
{
    let window = config.window.total_nanos();
    let bucket = rows[at].0;
    let restored = store::recovered(anchor, rows[at].1, restored_at, window);
    if restored.len() > 0 {
        refreshing_does_not_double_count(
            config,
            before,
            anchor,
            rows,
            restored_at,
            state.history,
            at,
        );
        let events = state.history[bucket];
        lemma_live_count_of_multiset(events, now, window);
        lemma_live_count_of_multiset(restored, now, window);
        let dropped = lemma_unexpired_suffix(events, now, window);
        let live = history::unexpired(events, now, window);
        lemma_all_expired(dropped, now, window);
        lemma_live_count_concat(dropped, live, now, window);
        lemma_live_count_bound(live, now, window);
    }
}

/// How many events are live does not depend on their order.
proof fn lemma_live_count_of_multiset(events: Seq<Instant>, now: Instant, window: nat)
    ensures
        live_count(events, now, window) == events.to_multiset().filter(
            |event: Instant| !history::is_expired(event, now, window),
        ).len(),
    decreases events.len(),
{
    broadcast use vstd::multiset::group_multiset_axioms;

    let is_live = |event: Instant| !history::is_expired(event, now, window);
    if events.len() == 0 {
        events.to_multiset_ensures();
        assert(events.to_multiset() =~= vstd::multiset::Multiset::empty());
        assert(events.to_multiset().filter(is_live) =~= vstd::multiset::Multiset::empty());
    } else {
        let fewer = events.drop_last();
        let last = events.last();
        lemma_live_count_of_multiset(fewer, now, window);
        assert(events =~= fewer.push(last));
        vstd::seq_lib::to_multiset_build(fewer, last);
        assert(events.to_multiset() =~= fewer.to_multiset().insert(last));
        if is_live(last) {
            assert(events.to_multiset().filter(is_live) =~= fewer.to_multiset().filter(
                is_live,
            ).insert(last));
        } else {
            assert(events.to_multiset().filter(is_live) =~= fewer.to_multiset().filter(is_live));
        }
    }
}

/// What a store gave back counts in full at the moment it was restored.
pub proof fn restored_history_counts(
    config: ThresholdConfig,
    before: Map<Seq<char>, Seq<Instant>>,
    anchor: Anchor,
    rows: Seq<(Seq<char>, Seq<i64>)>,
    now: Instant,
    state: ThresholdState,
    at: int,
    action: ActionView,
    identity: Seq<char>,
    decision: Option<Seq<char>>,
    after: ThresholdState,
)
    requires
        threshold::refreshes(config, before, anchor, rows, now, state.history),
        forall|i: int, j: int|
            0 <= i < j < rows.len() ==> (#[trigger] rows[i]).0 != (#[trigger] rows[j]).0,
        0 <= at < rows.len(),
        state.history.dom().contains(rows[at].0),
        config.bucket(identity) == rows[at].0,
        config.applies_to(action.operation),
        store::recovered(anchor, rows[at].1, now, config.window.total_nanos()).len()
            + action.blast_radius > config.max_per_window,
        threshold::decides(config, state, action, identity, now, decision, after),
    ensures
        decision is Some,
{
    lemma_recovered_is_live(anchor, rows[at].1, now, config.window.total_nanos());
    restored_history_counts_while_live(
        config,
        before,
        anchor,
        rows,
        now,
        state,
        at,
        action,
        identity,
        now,
        decision,
        after,
    );
}

/// Everything that is restored is live at that moment.
proof fn lemma_recovered_is_live(
    anchor: Anchor,
    timestamps: Seq<i64>,
    now: Instant,
    window: nat,
)
    ensures
        live_count(store::recovered(anchor, timestamps, now, window), now, window)
            == store::recovered(anchor, timestamps, now, window).len(),
    decreases timestamps.len(),
{
    if timestamps.len() > 0 {
        lemma_recovered_is_live(anchor, timestamps.drop_last(), now, window);
        let all = store::recovered(anchor, timestamps, now, window);
        let earlier = store::recovered(anchor, timestamps.drop_last(), now, window);
        if all.len() > earlier.len() {
            assert(all.drop_last() =~= earlier);
        }
    }
}

proof fn lemma_unreplaced(
    before: Map<Seq<char>, Seq<Instant>>,
    anchor: Anchor,
    rows: Seq<(Seq<char>, Seq<i64>)>,
    now: Instant,
    window: nat,
    events: Seq<(Seq<char>, Seq<Instant>)>,
    identity: Seq<char>,
)
    requires
        store::is_history_of(anchor, rows, now, window, events),
        forall|i: int| 0 <= i < rows.len() ==> (#[trigger] rows[i]).0 != identity,
    ensures
        store::replaced(before, events).dom().contains(identity) == before.dom().contains(identity),
        before.dom().contains(identity) ==> store::replaced(before, events)[identity]
            == before[identity],
    decreases rows.len(),
{
    if rows.len() > 0 {
        assert(rows[rows.len() - 1].0 != identity);
        assert forall|i: int| 0 <= i < rows.drop_last().len() implies (
        #[trigger] rows.drop_last()[i]).0 != identity by {
            assert(rows[i].0 != identity);
        }
        let (_, timestamps) = rows.last();
        if store::recovered(anchor, timestamps, now, window).len() == 0 {
            lemma_unreplaced(before, anchor, rows.drop_last(), now, window, events, identity);
        } else {
            lemma_unreplaced(
                before,
                anchor,
                rows.drop_last(),
                now,
                window,
                events.drop_last(),
                identity,
            );
        }
    }
}

proof fn lemma_replaced_row(
    before: Map<Seq<char>, Seq<Instant>>,
    anchor: Anchor,
    rows: Seq<(Seq<char>, Seq<i64>)>,
    now: Instant,
    window: nat,
    events: Seq<(Seq<char>, Seq<Instant>)>,
    at: int,
)
    requires
        store::is_history_of(anchor, rows, now, window, events),
        forall|i: int, j: int|
            0 <= i < j < rows.len() ==> (#[trigger] rows[i]).0 != (#[trigger] rows[j]).0,
        0 <= at < rows.len(),
        store::recovered(anchor, rows[at].1, now, window).len() > 0,
    ensures
        store::replaced(before, events).dom().contains(rows[at].0),
        store::is_sorted_from(
            store::replaced(before, events)[rows[at].0],
            store::recovered(anchor, rows[at].1, now, window),
        ),
    decreases rows.len(),
{
    let last = rows.len() - 1;
    assert(rows.last() == rows[last]);
    if at < last {
        assert(rows[at].0 != rows[last].0);
        assert(rows.drop_last()[at] == rows[at]);
        let shorter = if store::recovered(anchor, rows[last].1, now, window).len() == 0 {
            events
        } else {
            events.drop_last()
        };
        lemma_replaced_row(before, anchor, rows.drop_last(), now, window, shorter, at);
    }
}

proof fn lemma_replaced_len(
    before: Map<Seq<char>, Seq<Instant>>,
    anchor: Anchor,
    rows: Seq<(Seq<char>, Seq<i64>)>,
    now: Instant,
    window: nat,
    events: Seq<(Seq<char>, Seq<Instant>)>,
)
    requires
        store::is_history_of(anchor, rows, now, window, events),
        before.dom().finite(),
    ensures
        store::replaced(before, events).dom().finite(),
        store::replaced(before, events).dom().len() <= before.dom().len() + rows.len(),
        before.dom().subset_of(store::replaced(before, events).dom()),
    decreases rows.len(),
{
    if rows.len() > 0 {
        if store::recovered(anchor, rows.last().1, now, window).len() == 0 {
            lemma_replaced_len(before, anchor, rows.drop_last(), now, window, events);
        } else {
            lemma_replaced_len(before, anchor, rows.drop_last(), now, window, events.drop_last());
        }
    }
}

/// Refreshing loses nothing that there is room for: as long as those who were
/// remembered and those in the store are together no more than may be
/// remembered, everybody who was remembered still is, and everybody of whom
/// something was restored is too. However many there are, no more are
/// remembered than may be, and one at least may.
pub proof fn refreshing_keeps_what_there_is_room_for(
    config: ThresholdConfig,
    before: Map<Seq<char>, Seq<Instant>>,
    anchor: Anchor,
    rows: Seq<(Seq<char>, Seq<i64>)>,
    now: Instant,
    after: Map<Seq<char>, Seq<Instant>>,
    identity: Seq<char>,
    at: int,
)
    requires
        threshold::refreshes(config, before, anchor, rows, now, after),
        before.dom().finite(),
        forall|i: int, j: int|
            0 <= i < j < rows.len() ==> (#[trigger] rows[i]).0 != (#[trigger] rows[j]).0,
    ensures
        before.dom().len() + rows.len() <= config.max_tracked_identities ==> {
            &&& before.dom().contains(identity) ==> after.dom().contains(identity)
            &&& 0 <= at < rows.len() && store::recovered(
                anchor,
                rows[at].1,
                now,
                config.window.total_nanos(),
            ).len() > 0 ==> after.dom().contains(rows[at].0)
        },
        after.dom().len() <= if config.max_tracked_identities == 0 {
            1int
        } else {
            config.max_tracked_identities as int
        },
{
    let window = config.window.total_nanos();
    let events = choose|events: Seq<(Seq<char>, Seq<Instant>)>| #[trigger]
        store::is_history_of(anchor, rows, now, window, events) && history::trimmed(
            store::replaced(before, events),
            config.tracking_limit(),
            after,
        );
    lemma_replaced_len(before, anchor, rows, now, window, events);
    if 0 <= at < rows.len() && store::recovered(anchor, rows[at].1, now, window).len() > 0 {
        lemma_replaced_row(before, anchor, rows, now, window, events, at);
    }
}

proof fn lemma_empty_row(
    before: Map<Seq<char>, Seq<Instant>>,
    anchor: Anchor,
    rows: Seq<(Seq<char>, Seq<i64>)>,
    now: Instant,
    window: nat,
    events: Seq<(Seq<char>, Seq<Instant>)>,
    identity: Seq<char>,
)
    requires
        store::is_history_of(anchor, rows, now, window, events),
        forall|i: int|
            0 <= i < rows.len() && (#[trigger] rows[i]).0 == identity ==> store::recovered(
                anchor,
                rows[i].1,
                now,
                window,
            ).len() == 0,
    ensures
        store::replaced(before, events).dom().contains(identity) == before.dom().contains(identity),
        before.dom().contains(identity) ==> store::replaced(before, events)[identity]
            == before[identity],
    decreases rows.len(),
{
    if rows.len() > 0 {
        let fewer = rows.drop_last();
        assert(rows.last() == rows[rows.len() - 1]);
        assert forall|i: int| 0 <= i < fewer.len() && (#[trigger] fewer[i]).0
            == identity implies store::recovered(anchor, fewer[i].1, now, window).len() == 0 by {
            assert(rows[i] == fewer[i]);
        }
        if store::recovered(anchor, rows.last().1, now, window).len() == 0 {
            lemma_empty_row(before, anchor, fewer, now, window, events, identity);
        } else {
            lemma_empty_row(before, anchor, fewer, now, window, events.drop_last(), identity);
        }
    }
}

/// A row of which nothing is left within the window changes nothing: its
/// identity keeps what it held.
pub proof fn expired_rows_change_nothing(
    config: ThresholdConfig,
    before: Map<Seq<char>, Seq<Instant>>,
    anchor: Anchor,
    rows: Seq<(Seq<char>, Seq<i64>)>,
    now: Instant,
    after: Map<Seq<char>, Seq<Instant>>,
    identity: Seq<char>,
)
    requires
        threshold::refreshes(config, before, anchor, rows, now, after),
        forall|i: int|
            0 <= i < rows.len() && (#[trigger] rows[i]).0 == identity ==> store::recovered(
                anchor,
                rows[i].1,
                now,
                config.window.total_nanos(),
            ).len() == 0,
        after.dom().contains(identity),
    ensures
        before.dom().contains(identity),
        after[identity] == before[identity],
{
    let window = config.window.total_nanos();
    let events = choose|events: Seq<(Seq<char>, Seq<Instant>)>| #[trigger]
        store::is_history_of(anchor, rows, now, window, events) && history::trimmed(
            store::replaced(before, events),
            config.tracking_limit(),
            after,
        );
    lemma_empty_row(before, anchor, rows, now, window, events, identity);
}

}
