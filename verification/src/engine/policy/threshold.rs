//! The blast-radius rule: a few accounts are fine, thousands are not.

use vstd::prelude::*;

use crate::engine::action::{Action, ActionView, OperationKind};
use crate::engine::identity::Identity;
use crate::engine::policy::history;
use crate::engine::policy::history::History;
use crate::engine::policy::store;
use crate::engine::policy::store::valkey::ValkeyTlsConfig;
use crate::engine::policy::store::Anchor;
use crate::engine::policy::{Decision, Policy, PolicyContext};
use crate::engine::text;
use crate::engine::time;
use crate::engine::time::{Clock, Duration, Instant};

verus! {

/// The bucket that a rule of global scope keeps its events in.
pub const GLOBAL_BUCKET: &'static str = "global";

/// What a window's budget is shared by.
#[derive(Debug, Clone, Copy, PartialEq, Eq, Structural)]
pub enum ThresholdScope {
    /// Every identity has a budget of its own.
    PerIdentity,
    /// All identities share one budget.
    Global,
}

/// The limits of a [`ThresholdPolicy`].
#[derive(Debug, Clone)]
pub struct ThresholdConfig {
    /// The largest blast radius a single request may have.
    pub max_per_request: usize,
    /// The total blast radius that a bucket may admit within `window`.
    pub max_per_window: usize,
    pub window: Duration,
    /// Where the history survives a restart, if anywhere.
    pub state_db: Option<StateDb>,
    /// How often admitted actions are flushed to `state_db` and history is
    /// refreshed from it.
    pub flush_interval: Duration,
    /// How many identities the history remembers at most.
    pub max_tracked_identities: usize,
    pub scope: ThresholdScope,
    /// The operations this rule applies to; all of them when absent.
    pub operations: Option<Vec<OperationKind>>,
}

/// The store that backs a history.
#[derive(Debug, Clone)]
pub enum StateDb {
    /// A local database file.
    Sqlite { path: String },
    /// A network service, shared under a key prefix.
    Valkey { url: String, key_prefix: String, tls: ValkeyTlsConfig },
}

impl ThresholdConfig {
    /// Whether this rule has a say about `operation`.
    pub open spec fn applies_to(self, operation: OperationKind) -> bool {
        match self.operations {
            None => true,
            Some(kinds) => kinds@.contains(operation),
        }
    }

    /// The bucket that an action of `identity` counts against.
    pub open spec fn bucket(self, identity: Seq<char>) -> Seq<char> {
        match self.scope {
            ThresholdScope::PerIdentity => identity,
            ThresholdScope::Global => GLOBAL_BUCKET@,
        }
    }
}

/// What a client is told whose single request is too large.
pub open spec fn request_reason(blast_radius: nat, limit: nat) -> Seq<char> {
    "blast radius "@ + text::decimal(blast_radius) + " exceeds per-request limit "@ + text::decimal(limit)
}

/// What a client is told who has used up a window's budget.
pub open spec fn window_reason(count: nat, window: Seq<char>, limit: nat) -> Seq<char> {
    text::decimal(count) + " matching actions in the last "@ + window + " would exceed window limit "@
        + text::decimal(limit)
}

/// The text of [`request_reason`].
pub fn describe_request_limit(blast_radius: usize, limit: usize) -> (reason: String)
    ensures
        reason@ == request_reason(blast_radius as nat, limit as nat),
{
    let mut reason = "blast radius ".to_owned();
    text::push_decimal(&mut reason, blast_radius as u128);
    reason.append(" exceeds per-request limit ");
    text::push_decimal(&mut reason, limit as u128);
    reason
}

/// The text of [`window_reason`].
pub fn describe_window_limit(count: usize, window: &str, limit: usize) -> (reason: String)
    ensures
        reason@ == window_reason(count as nat, window@, limit as nat),
{
    let mut reason = String::new();
    text::push_decimal(&mut reason, count as u128);
    assert(reason@ =~= text::decimal(count as nat));
    reason.append(" matching actions in the last ");
    reason.append(window);
    reason.append(" would exceed window limit ");
    text::push_decimal(&mut reason, limit as u128);
    reason
}

/// The memory of a [`ThresholdPolicy`] as a mathematical value.
pub struct ThresholdState {
    /// The admitted events remembered for each bucket.
    pub history: Map<Seq<char>, Seq<Instant>>,
    /// The admitted events not yet written to the backing store; nothing when
    /// there is no store.
    pub unsaved: Option<Seq<(Seq<char>, Instant)>>,
}

/// The events of one admitted action.
pub open spec fn admitted(count: nat, now: Instant) -> Seq<Instant> {
    Seq::new(count, |i: int| now)
}

/// The same events, each with the bucket it counts against.
pub open spec fn units(bucket: Seq<char>, count: nat, now: Instant) -> Seq<(Seq<char>, Instant)> {
    Seq::new(count, |i: int| (bucket, now))
}

/// Whether asking a rule with limits `config` about `action` by `identity` at
/// `now` may give `decision` and turn its memory from `before` to `after`.
pub open spec fn decides(
    config: ThresholdConfig,
    before: ThresholdState,
    action: ActionView,
    identity: Seq<char>,
    now: Instant,
    decision: Option<Seq<char>>,
    after: ThresholdState,
) -> bool {
    if !config.applies_to(action.operation) {
        decision is None && after == before
    } else if action.blast_radius > config.max_per_request {
        &&& decision == Some(request_reason(action.blast_radius, config.max_per_request as nat))
        &&& after == before
    } else {
        exists|opened: Map<Seq<char>, Seq<Instant>>| #[trigger]
            history::tracking(
                before.history,
                config.bucket(identity),
                config.max_tracked_identities as nat,
                opened,
            ) && decides_within_window(
                config,
                opened,
                before.unsaved,
                action.blast_radius,
                config.bucket(identity),
                now,
                decision,
                after,
            )
    }
}

/// The window part of [`decides`], once the bucket is tracked.
pub open spec fn decides_within_window(
    config: ThresholdConfig,
    opened: Map<Seq<char>, Seq<Instant>>,
    unsaved: Option<Seq<(Seq<char>, Instant)>>,
    blast_radius: nat,
    bucket: Seq<char>,
    now: Instant,
    decision: Option<Seq<char>>,
    after: ThresholdState,
) -> bool {
    let live = history::unexpired(opened[bucket], now, config.window.total_nanos());
    if live.len() + blast_radius > config.max_per_window {
        &&& decision == Some(
            window_reason(
                live.len(),
                time::duration_text(config.window.secs(), config.window.subsec_nanos()),
                config.max_per_window as nat,
            ),
        )
        &&& after.history == opened.insert(bucket, live)
        &&& after.unsaved == unsaved
    } else {
        &&& decision is None
        &&& after.history == opened.insert(bucket, live + admitted(blast_radius, now))
        &&& after.unsaved == match unsaved {
            None => None,
            Some(events) => Some(events + units(bucket, blast_radius, now)),
        }
    }
}

/// Blocks an action once it, or the recent history it belongs to, exceeds a
/// configured blast radius.
pub struct ThresholdPolicy {
    config: ThresholdConfig,
    clock: Clock,
    history: History,
    unsaved: Option<Vec<(Identity, Instant)>>,
}

spec fn events_view(events: Seq<(Identity, Instant)>) -> Seq<(Seq<char>, Instant)> {
    Seq::new(events.len(), |i: int| (events[i].0@, events[i].1))
}

impl View for ThresholdPolicy {
    type V = ThresholdState;

    closed spec fn view(&self) -> ThresholdState {
        ThresholdState {
            history: self.history@,
            unsaved: match self.unsaved {
                None => None,
                Some(events) => Some(events_view(events@)),
            },
        }
    }
}

impl ThresholdPolicy {
    pub closed spec fn wf(self) -> bool {
        &&& self.history.wf()
        &&& self.history@.dom().len() <= self.config.tracking_limit()
    }

    /// A rule never remembers more identities than it is configured to.
    pub proof fn memory_is_bounded(self)
        requires
            self.wf(),
        ensures
            self@.history.dom().finite(),
            self@.history.dom().len() <= self.config().tracking_limit(),
    {
        self.history.lemma_finite();
    }

    pub closed spec fn config(self) -> ThresholdConfig {
        self.config
    }

    /// The clock that the rule's moments are of.
    pub closed spec fn clock(self) -> Clock {
        self.clock
    }

    /// A rule with an empty history that keeps its memory to itself.
    pub fn new(config: ThresholdConfig) -> (policy: ThresholdPolicy)
        ensures
            policy.wf(),
            policy.config() == config,
            policy@.history == Map::<Seq<char>, Seq<Instant>>::empty(),
            policy@.unsaved is None,
    {
        ThresholdPolicy { config, clock: Clock::new(), history: History::new(), unsaved: None }
    }

    fn applies(&self, operation: OperationKind) -> (applies: bool)
        ensures
            applies == self.config().applies_to(operation),
    {
        match &self.config.operations {
            None => true,
            Some(kinds) => {
                let mut i: usize = 0;
                while i < kinds.len()
                    invariant
                        i <= kinds@.len(),
                        self.config.operations == Some(*kinds),
                        forall|j: int| 0 <= j < i ==> kinds@[j] != operation,
                    decreases kinds.len() - i,
                {
                    if kinds[i] == operation {
                        assert(kinds@.contains(kinds@[i as int]));
                        return true;
                    }
                    i += 1;
                }
                false
            },
        }
    }

    fn bucket(&self, identity: &Identity) -> (bucket: Identity)
        ensures
            bucket@ == self.config().bucket(identity@),
    {
        match self.config.scope {
            ThresholdScope::PerIdentity => identity.duplicate(),
            ThresholdScope::Global => Identity(GLOBAL_BUCKET.to_owned()),
        }
    }

    /// Decides about `action` as of the moment `now`.
    pub fn evaluate_at(&mut self, action: &Action, ctx: &PolicyContext, now: Instant) -> (decision:
        Decision)
        requires
            old(self).wf(),
        ensures
            final(self).wf(),
            final(self).config() == old(self).config(),
            final(self).clock() == old(self).clock(),
            decides(
                old(self).config(),
                old(self)@,
                action@,
                ctx.identity@,
                now,
                decision@,
                final(self)@,
            ),
    {
        if !self.applies(action.operation) {
            return Decision::Allow;
        }
        if action.blast_radius > self.config.max_per_request {
            return Decision::Block {
                reason: describe_request_limit(action.blast_radius, self.config.max_per_request),
            };
        }
        let bucket = self.bucket(&ctx.identity);
        proof {
            self.history.lemma_finite();
        }
        self.history.track(&bucket, self.config.max_tracked_identities);
        let ghost opened = self.history@;
        assert(history::tracking(
            old(self)@.history,
            self.config().bucket(ctx.identity@),
            self.config.max_tracked_identities as nat,
            opened,
        ));
        proof {
            history::lemma_tracking_bound(
                old(self)@.history,
                bucket@,
                self.config.max_tracked_identities as nat,
                opened,
                self.config.tracking_limit(),
            );
        }
        let count: usize = self.history.prune(&bucket, now, self.config.window);
        if action.blast_radius > self.config.max_per_window || count > self.config.max_per_window
            - action.blast_radius {
            let window = self.config.window.text();
            return Decision::Block {
                reason: describe_window_limit(count, window.as_str(), self.config.max_per_window),
            };
        }
        self.history.record(&bucket, now, action.blast_radius);
        assert(self.history@ =~= opened.insert(
            bucket@,
            history::unexpired(opened[bucket@], now, self.config.window.total_nanos()) + admitted(
                action.blast_radius as nat,
                now,
            ),
        ));
        if let Some(unsaved) = &mut self.unsaved {
            let ghost start = unsaved@;
            let mut done: usize = 0;
            while done < action.blast_radius
                invariant
                    done <= action.blast_radius,
                    events_view(unsaved@) == events_view(start) + units(
                        bucket@,
                        done as nat,
                        now,
                    ),
                decreases action.blast_radius - done,
            {
                let ghost prior = unsaved@;
                unsaved.push((bucket.duplicate(), now));
                done += 1;
                assert(events_view(unsaved@) =~= events_view(prior).push((bucket@, now)));
                assert(units(bucket@, done as nat, now) =~= units(
                    bucket@,
                    (done - 1) as nat,
                    now,
                ).push((bucket@, now)));
            }
        }
        Decision::Allow
    }
}

/// What one synchronization hands to the backing store.
#[derive(Debug, Clone)]
pub struct SyncRequest {
    /// What the timestamps are anchored to.
    pub anchor: Anchor,
    /// The events admitted since the last synchronization.
    pub new_events: Vec<(String, i64)>,
    /// The time up to which, itself among it, the store forgets everything.
    pub cutoff_epoch_millis: i64,
}

/// The events as they are written to a store.
pub open spec fn stored(events: Seq<(Seq<char>, Instant)>, anchor: Anchor) -> Seq<
    (Seq<char>, i64),
> {
    Seq::new(
        events.len(),
        |i: int|
            (events[i].0, store::clamped(anchor.epoch_millis_of(events[i].1)) as i64),
    )
}

/// The memory of a rule once what was yet to be saved has been handed to the
/// store.
pub open spec fn handed_over(state: ThresholdState) -> ThresholdState {
    ThresholdState {
        history: state.history,
        unsaved: match state.unsaved {
            None => None,
            Some(_) => Some(Seq::empty()),
        },
    }
}

/// Whether refreshing `before` from the rows of a store at `now` may give
/// `after`: the memory of each identity found is replaced, not added to, and
/// the whole is kept within the configured size.
pub open spec fn refreshes(
    config: ThresholdConfig,
    before: Map<Seq<char>, Seq<Instant>>,
    anchor: Anchor,
    rows: Seq<(Seq<char>, Seq<i64>)>,
    now: Instant,
    after: Map<Seq<char>, Seq<Instant>>,
) -> bool {
    exists|events: Seq<(Seq<char>, Seq<Instant>)>| #[trigger]
        store::is_history_of(anchor, rows, now, config.window.total_nanos(), events)
            && history::trimmed(store::replaced(before, events), config.tracking_limit(), after)
}

impl ThresholdConfig {
    /// How many identities are remembered at most.
    pub open spec fn tracking_limit(self) -> nat {
        if self.max_tracked_identities > 0 {
            self.max_tracked_identities as nat
        } else {
            1
        }
    }
}

impl ThresholdPolicy {
    /// A rule whose memory is backed by a store, which held `rows` when it
    /// was opened (or could not be read then). The moments of `anchor` and of
    /// the rule are those of `clock`.
    pub fn with_store(
        config: ThresholdConfig,
        clock: Clock,
        anchor: &Anchor,
        rows: Option<Vec<(String, Vec<i64>)>>,
    ) -> (policy: ThresholdPolicy)
        ensures
            policy.wf(),
            policy.config() == config,
            policy.clock() == clock,
            policy@.unsaved == Some(Seq::<(Seq<char>, Instant)>::empty()),
            match rows {
                None => policy@.history == Map::<Seq<char>, Seq<Instant>>::empty(),
                Some(rows) => exists|now: Instant| #[trigger]
                    refreshes(
                        config,
                        Map::<Seq<char>, Seq<Instant>>::empty(),
                        *anchor,
                        store::grouped_view(rows@),
                        now,
                        policy@.history,
                    ) && time::is_reading(now),
            },
    {
        let unsaved: Vec<(Identity, Instant)> = Vec::new();
        assert(events_view(unsaved@) =~= Seq::<(Seq<char>, Instant)>::empty());
        let mut policy = ThresholdPolicy {
            config,
            clock,
            history: History::new(),
            unsaved: Some(unsaved),
        };
        if let Some(rows) = &rows {
            policy.finish_sync(anchor, rows);
        }
        policy
    }

    /// Takes what has to be written to the store, as of `anchor`. Nothing is
    /// to be done without a store.
    pub fn begin_sync_at(&mut self, anchor: Anchor) -> (request: Option<SyncRequest>)
        requires
            old(self).wf(),
        ensures
            final(self).wf(),
            final(self).config() == old(self).config(),
            final(self).clock() == old(self).clock(),
            final(self)@.history == old(self)@.history,
            final(self)@ == handed_over(old(self)@),
            match old(self)@.unsaved {
                None => request is None && final(self)@.unsaved is None,
                Some(unsaved) => {
                    &&& request matches Some(r)
                    &&& r.anchor == anchor
                    &&& store::rows_view(r.new_events@) == stored(unsaved, anchor)
                    &&& r.cutoff_epoch_millis == store::clamped(
                        anchor.epoch_millis() - old(self).config().window.total_millis(),
                    )
                    &&& r.cutoff_epoch_millis == anchor.cutoff_of(old(self).config().window)
                    &&& final(self)@.unsaved == Some(Seq::<(Seq<char>, Instant)>::empty())
                },
            },
    {
        match self.unsaved.take() {
            None => None,
            Some(unsaved) => {
                let empty: Vec<(Identity, Instant)> = Vec::new();
                assert(events_view(empty@) =~= Seq::<(Seq<char>, Instant)>::empty());
                self.unsaved = Some(empty);
                let mut new_events: Vec<(String, i64)> = Vec::new();
                let mut n: usize = 0;
                while n < unsaved.len()
                    invariant
                        n <= unsaved@.len(),
                        store::rows_view(new_events@) == stored(
                            events_view(unsaved@),
                            anchor,
                        ).take(n as int),
                    decreases unsaved.len() - n,
                {
                    let ghost before = new_events@;
                    new_events.push((unsaved[n].0.0.clone(), anchor.stored_millis(unsaved[n].1)));
                    n += 1;
                    assert(store::rows_view(new_events@) =~= store::rows_view(before).push(
                        stored(events_view(unsaved@), anchor)[n - 1],
                    ));
                    assert(stored(events_view(unsaved@), anchor).take(n as int) =~= stored(
                        events_view(unsaved@),
                        anchor,
                    ).take(n - 1).push(stored(events_view(unsaved@), anchor)[n - 1]));
                }
                assert(stored(events_view(unsaved@), anchor).take(n as int) =~= stored(
                    events_view(unsaved@),
                    anchor,
                ));
                let cutoff_epoch_millis: i64 = anchor.cutoff(self.config.window);
                Some(SyncRequest { anchor, new_events, cutoff_epoch_millis })
            },
        }
    }

    /// Takes what has to be written to the store now.
    pub fn begin_sync(&mut self) -> (request: Option<SyncRequest>)
        requires
            old(self).wf(),
        ensures
            final(self).wf(),
            final(self).config() == old(self).config(),
            final(self).clock() == old(self).clock(),
            final(self)@.history == old(self)@.history,
            final(self)@ == handed_over(old(self)@),
            match old(self)@.unsaved {
                None => request is None && final(self)@.unsaved is None,
                Some(unsaved) => {
                    &&& request matches Some(r)
                    &&& time::is_reading(r.anchor.instant())
                    &&& store::rows_view(r.new_events@) == stored(unsaved, r.anchor)
                    &&& r.cutoff_epoch_millis == store::clamped(
                        r.anchor.epoch_millis() - old(self).config().window.total_millis(),
                    )
                    &&& r.cutoff_epoch_millis == r.anchor.cutoff_of(old(self).config().window)
                    &&& final(self)@.unsaved == Some(Seq::<(Seq<char>, Instant)>::empty())
                },
            },
    {
        let anchor = Anchor::now(&self.clock);
        self.begin_sync_at(anchor)
    }

    /// Refreshes the memory from the rows of the store, as of `now`.
    pub fn finish_sync_at(
        &mut self,
        anchor: &Anchor,
        rows: &Vec<(String, Vec<i64>)>,
        now: Instant,
    )
        requires
            old(self).wf(),
        ensures
            final(self).wf(),
            final(self).config() == old(self).config(),
            final(self).clock() == old(self).clock(),
            final(self)@.unsaved == old(self)@.unsaved,
            refreshes(
                old(self).config(),
                old(self)@.history,
                *anchor,
                store::grouped_view(rows@),
                now,
                final(self)@.history,
            ),
    {
        let mut restored = store::rows_into_history(anchor, rows, self.config.window, now);
        let ghost events = store::events_view(restored@);
        // Turned round, so that popping takes the events in their order.
        let mut in_turn: Vec<(Identity, std::collections::VecDeque<Instant>)> = Vec::new();
        while restored.len() > 0
            invariant
                restored@.len() + in_turn@.len() == events.len(),
                store::events_view(restored@) == events.take(restored@.len() as int),
                forall|i: int|
                    0 <= i < in_turn@.len() ==> (#[trigger] in_turn@[i]).0@ == events[events.len()
                        - 1 - i].0 && in_turn@[i].1@ == events[events.len() - 1 - i].1,
            decreases restored.len(),
        {
            let ghost n = restored@.len() as int;
            assert(store::events_view(restored@)[n - 1] == events[n - 1]);
            if let Some(entry) = restored.pop() {
                in_turn.push(entry);
            }
            assert(store::events_view(restored@) =~= events.take(n - 1));
        }
        while in_turn.len() > 0
            invariant
                self.history.wf(),
                self.config() == old(self).config(),
                self.clock() == old(self).clock(),
                self@.unsaved == old(self)@.unsaved,
                in_turn@.len() <= events.len(),
                self@.history == store::replaced(
                    old(self)@.history,
                    events.take(events.len() - in_turn@.len()),
                ),
                forall|i: int|
                    0 <= i < in_turn@.len() ==> (#[trigger] in_turn@[i]).0@ == events[events.len()
                        - 1 - i].0 && in_turn@[i].1@ == events[events.len() - 1 - i].1,
            decreases in_turn.len(),
        {
            let ghost done = events.len() - in_turn@.len();
            if let Some((identity, fresh)) = in_turn.pop() {
                self.history.replace(identity, fresh);
            }
            assert(events.take(done + 1).drop_last() =~= events.take(done));
        }
        assert(events.take(events.len() as int) =~= events);
        self.history.evict_stalest_until(
            if self.config.max_tracked_identities > 0 {
                self.config.max_tracked_identities
            } else {
                1
            },
        );
    }

    /// Refreshes the memory from the rows of the store.
    pub fn finish_sync(&mut self, anchor: &Anchor, rows: &Vec<(String, Vec<i64>)>)
        requires
            old(self).wf(),
        ensures
            final(self).wf(),
            final(self).config() == old(self).config(),
            final(self).clock() == old(self).clock(),
            final(self)@.unsaved == old(self)@.unsaved,
            exists|now: Instant| #[trigger]
                refreshes(
                    old(self).config(),
                    old(self)@.history,
                    *anchor,
                    store::grouped_view(rows@),
                    now,
                    final(self)@.history,
                ) && time::is_reading(now),
    {
        let now = self.clock.now();
        self.finish_sync_at(anchor, rows, now);
    }
}

impl Policy for ThresholdPolicy {
    open spec fn valid(self) -> bool {
        self.wf()
    }

    /// The decision is that of some moment the rule's clock may have read.
    open spec fn may_decide(
        before: Self,
        action: ActionView,
        identity: Seq<char>,
        decision: Option<Seq<char>>,
        after: Self,
    ) -> bool {
        &&& after.config() == before.config()
        &&& after.clock() == before.clock()
        &&& exists|now: Instant| #[trigger]
            decides(before.config(), before@, action, identity, now, decision, after@)
                && time::is_reading(now)
    }

    fn evaluate(&mut self, action: &Action, ctx: &PolicyContext) -> (decision: Decision) {
        let now = self.clock.now();
        self.evaluate_at(action, ctx, now)
    }
}

}
