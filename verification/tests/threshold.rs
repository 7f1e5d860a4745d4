use ai_protect::engine::action::{Action, OperationKind};
use ai_protect::engine::identity::Identity;
use ai_protect::engine::policy::config::{
    build_policies, default_flush_interval, default_max_tracked_identities, OpenedStore,
    PolicyConfigError, PolicyEntry,
};
use ai_protect::engine::policy::store::{group_rows, restore_events, Anchor};
use ai_protect::engine::policy::threshold::{
    describe_window_limit, ThresholdConfig, ThresholdPolicy, ThresholdScope,
};
use ai_protect::engine::policy::{evaluate_all, Decision, Policy, PolicyContext};
use ai_protect::engine::time::{Clock, Duration, Instant};

fn config(max_per_request: usize, max_per_window: usize, window: Duration) -> ThresholdConfig {
    ThresholdConfig {
        max_per_request,
        max_per_window,
        window,
        state_db: None,
        flush_interval: Duration::from_secs(2),
        max_tracked_identities: 100_000,
        scope: ThresholdScope::PerIdentity,
        operations: None,
    }
}

fn action(blast_radius: usize) -> Action {
    Action {
        backend: "ldap",
        operation: OperationKind::AccountLock,
        target: "cn=alice,dc=example,dc=com".into(),
        blast_radius,
    }
}

fn ctx_for(identity: &Identity) -> PolicyContext {
    PolicyContext { identity: identity.clone() }
}

fn who(name: &str) -> PolicyContext {
    ctx_for(&Identity(name.into()))
}

fn at_millis(millis: i128) -> Instant {
    Instant { nanos: millis * 1_000_000 }
}

fn reason(decision: Decision) -> String {
    match decision {
        Decision::Block { reason } => reason,
        Decision::Allow => panic!("expected a block decision"),
    }
}

#[test]
fn allows_action_within_thresholds() {
    let mut policy = ThresholdPolicy::new(config(10, 10, Duration::from_secs(60)));
    let identity = Identity("agent-1".into());

    let decision = policy.evaluate(&action(4), &ctx_for(&identity));

    assert!(matches!(decision, Decision::Allow));
}

#[test]
fn blocks_when_single_request_blast_radius_exceeds_limit() {
    let mut policy = ThresholdPolicy::new(config(10, 10_000, Duration::from_secs(60)));
    let identity = Identity("agent-1".into());

    let decision = policy.evaluate(&action(4000), &ctx_for(&identity));

    assert!(matches!(decision, Decision::Block { .. }));
}

#[test]
fn blocks_when_cumulative_window_total_exceeds_limit() {
    let mut policy = ThresholdPolicy::new(config(10, 6, Duration::from_secs(60)));
    let identity = Identity("agent-1".into());

    for _ in 0..6 {
        let decision = policy.evaluate(&action(1), &ctx_for(&identity));
        assert!(matches!(decision, Decision::Allow));
    }

    let decision = policy.evaluate(&action(1), &ctx_for(&identity));

    assert!(matches!(decision, Decision::Block { .. }));
}

#[test]
fn tracks_history_independently_per_identity() {
    let mut policy = ThresholdPolicy::new(config(10, 1, Duration::from_secs(60)));
    let alice = Identity("alice".into());
    let bob = Identity("bob".into());

    assert!(matches!(policy.evaluate(&action(1), &ctx_for(&alice)), Decision::Allow));
    assert!(matches!(policy.evaluate(&action(1), &ctx_for(&bob)), Decision::Allow));
    assert!(matches!(policy.evaluate(&action(1), &ctx_for(&alice)), Decision::Block { .. }));
}

#[test]
fn window_expiry_allows_further_actions() {
    let mut policy = ThresholdPolicy::new(config(10, 1, Duration::from_millis(20)));
    let ctx = who("agent-1");

    assert!(matches!(policy.evaluate_at(&action(1), &ctx, at_millis(0)), Decision::Allow));
    assert!(matches!(policy.evaluate_at(&action(1), &ctx, at_millis(0)), Decision::Block { .. }));

    assert!(matches!(policy.evaluate_at(&action(1), &ctx, at_millis(40)), Decision::Allow));
}

#[test]
fn reasons_name_the_limits() {
    let mut policy = ThresholdPolicy::new(config(3, 4, Duration::from_secs(60)));
    let ctx = who("agent-1");

    assert_eq!(
        reason(policy.evaluate(&action(4), &ctx)),
        "blast radius 4 exceeds per-request limit 3"
    );
    assert!(matches!(policy.evaluate(&action(3), &ctx), Decision::Allow));
    assert_eq!(
        reason(policy.evaluate(&action(2), &ctx)),
        "3 matching actions in the last 60s would exceed window limit 4"
    );
    assert_eq!(
        describe_window_limit(12, "1.5s", 10),
        "12 matching actions in the last 1.5s would exceed window limit 10"
    );
}

#[test]
fn durations_read_as_in_debug_output() {
    assert_eq!(Duration::from_millis(1500).text(), "1.5s");
    assert_eq!(Duration::from_secs(3600).text(), "3600s");
}

#[test]
fn blocked_actions_do_not_use_up_the_budget() {
    let mut policy = ThresholdPolicy::new(config(10, 2, Duration::from_secs(60)));
    let ctx = who("agent-1");

    assert!(matches!(policy.evaluate(&action(3), &ctx), Decision::Block { .. }));
    assert!(matches!(policy.evaluate(&action(11), &ctx), Decision::Block { .. }));
    assert!(matches!(policy.evaluate(&action(2), &ctx), Decision::Allow));
}

#[test]
fn an_event_counts_until_the_window_has_passed() {
    let mut policy = ThresholdPolicy::new(config(10, 1, Duration::from_millis(20)));
    let ctx = who("agent-1");

    assert!(matches!(policy.evaluate_at(&action(1), &ctx, at_millis(0)), Decision::Allow));
    assert!(matches!(policy.evaluate_at(&action(1), &ctx, at_millis(20)), Decision::Block { .. }));
    assert!(matches!(policy.evaluate_at(&action(1), &ctx, at_millis(21)), Decision::Allow));
}

#[test]
fn a_global_budget_is_shared() {
    let mut policy = ThresholdPolicy::new(ThresholdConfig {
        scope: ThresholdScope::Global,
        ..config(10, 1, Duration::from_secs(60))
    });

    assert!(matches!(policy.evaluate(&action(1), &who("alice")), Decision::Allow));
    assert!(matches!(policy.evaluate(&action(1), &who("bob")), Decision::Block { .. }));
}

#[test]
fn a_rule_for_some_operations_ignores_the_others() {
    let mut policy = ThresholdPolicy::new(ThresholdConfig {
        operations: Some(vec![OperationKind::Delete]),
        ..config(0, 0, Duration::from_secs(60))
    });
    let delete = Action { operation: OperationKind::Delete, ..action(1) };

    assert!(matches!(policy.evaluate(&action(1), &who("alice")), Decision::Allow));
    assert!(matches!(policy.evaluate(&delete, &who("alice")), Decision::Block { .. }));
}

#[test]
fn the_least_recently_active_identity_is_forgotten_first() {
    let mut policy = ThresholdPolicy::new(ThresholdConfig {
        max_tracked_identities: 2,
        ..config(10, 1, Duration::from_secs(60))
    });

    assert!(matches!(policy.evaluate_at(&action(1), &who("alice"), at_millis(0)), Decision::Allow));
    assert!(matches!(policy.evaluate_at(&action(1), &who("bob"), at_millis(1)), Decision::Allow));
    assert!(matches!(policy.evaluate_at(&action(1), &who("carol"), at_millis(2)), Decision::Allow));
    // Alice made room for Carol; Bob and Carol are still remembered.
    assert!(matches!(
        policy.evaluate_at(&action(1), &who("bob"), at_millis(3)),
        Decision::Block { .. }
    ));
    assert!(matches!(
        policy.evaluate_at(&action(1), &who("carol"), at_millis(3)),
        Decision::Block { .. }
    ));
    assert!(matches!(policy.evaluate_at(&action(1), &who("alice"), at_millis(3)), Decision::Allow));
}

/// A store that lives in memory: what it is given, minus what is too old.
#[derive(Default)]
struct Rows(Vec<(String, i64)>);

impl Rows {
    fn sync(&mut self, new_events: Vec<(String, i64)>, cutoff: i64) -> Vec<(String, Vec<i64>)> {
        self.0.extend(new_events);
        self.0.retain(|row| row.1 > cutoff);
        group_rows(self.0.clone())
    }

    fn sync_policy(&mut self, policy: &mut ThresholdPolicy) {
        let request = policy.begin_sync().expect("the policy has a store");
        let rows = self.sync(request.new_events, request.cutoff_epoch_millis);
        policy.finish_sync(&request.anchor, &rows);
    }

    fn open(&mut self, config: ThresholdConfig) -> ThresholdPolicy {
        let clock = Clock::new();
        let anchor = Anchor::now(&clock);
        let cutoff = anchor.cutoff(config.window);
        let rows = self.sync(vec![], cutoff);
        ThresholdPolicy::with_store(config, clock, &anchor, Some(rows))
    }
}

#[test]
fn state_db_flush_makes_history_survive_a_restart() {
    let mut rows = Rows::default();
    let ctx = who("agent-1");

    let mut policy = rows.open(config(10, 1, Duration::from_secs(60)));
    assert!(matches!(policy.evaluate(&action(1), &ctx), Decision::Allow));
    rows.sync_policy(&mut policy);

    let mut restarted = rows.open(config(10, 1, Duration::from_secs(60)));

    assert!(matches!(restarted.evaluate(&action(1), &ctx), Decision::Block { .. }));
}

#[test]
fn state_db_sync_shares_history_across_instances() {
    let mut rows = Rows::default();
    let ctx = who("agent-1");
    let mut instance_a = rows.open(config(10, 1, Duration::from_secs(60)));
    let mut instance_b = rows.open(config(10, 1, Duration::from_secs(60)));

    assert!(matches!(instance_a.evaluate(&action(1), &ctx), Decision::Allow));
    rows.sync_policy(&mut instance_a);
    rows.sync_policy(&mut instance_b);

    assert!(matches!(instance_b.evaluate(&action(1), &ctx), Decision::Block { .. }));
}

#[test]
fn state_db_prunes_entries_older_than_window_on_sync() {
    let mut policy = ThresholdPolicy::with_store(
        config(10, 1, Duration::from_millis(20)),
        Clock::new(),
        &Anchor::from_readings(at_millis(0), Some(1_000)),
        None,
    );
    let ctx = who("agent-1");
    let mut rows = Rows::default();

    assert!(matches!(policy.evaluate_at(&action(1), &ctx, at_millis(0)), Decision::Allow));
    let anchor = Anchor::from_readings(at_millis(40), Some(1_040));
    let request = policy.begin_sync_at(anchor).expect("the policy has a store");
    assert_eq!(request.new_events, vec![("agent-1".to_string(), 1_000)]);
    assert_eq!(request.cutoff_epoch_millis, 1_020);
    let left = rows.sync(request.new_events, request.cutoff_epoch_millis);
    assert!(left.is_empty());

    let mut restarted = ThresholdPolicy::with_store(
        config(10, 1, Duration::from_millis(20)),
        Clock::new(),
        &request.anchor,
        Some(left),
    );

    assert!(matches!(restarted.evaluate_at(&action(1), &ctx, at_millis(40)), Decision::Allow));
}

#[test]
fn synchronizing_twice_counts_an_event_once() {
    let mut rows = Rows::default();
    let ctx = who("agent-1");
    let mut policy = rows.open(config(10, 2, Duration::from_secs(60)));

    assert!(matches!(policy.evaluate(&action(1), &ctx), Decision::Allow));
    rows.sync_policy(&mut policy);
    rows.sync_policy(&mut policy);

    assert!(matches!(policy.evaluate(&action(1), &ctx), Decision::Allow));
    assert!(matches!(policy.evaluate(&action(1), &ctx), Decision::Block { .. }));
}

#[test]
fn a_policy_without_a_store_has_nothing_to_write() {
    let mut policy = ThresholdPolicy::new(config(10, 1, Duration::from_secs(60)));
    policy.evaluate(&action(1), &who("agent-1"));

    assert!(policy.begin_sync().is_none());
}

#[test]
fn rows_are_grouped_by_identity_in_their_order() {
    let groups = group_rows(vec![
        ("alice".to_string(), 1_000),
        ("bob".to_string(), 1_500),
        ("alice".to_string(), 2_000),
    ]);

    assert_eq!(
        groups,
        vec![("alice".to_string(), vec![1_000, 2_000]), ("bob".to_string(), vec![1_500])]
    );
}

#[test]
fn stored_moments_come_back_in_order_of_time() {
    let anchor = Anchor::from_readings(at_millis(5_000), Some(100_000));

    let events =
        restore_events(&anchor, &vec![99_000, 98_000], Duration::from_secs(60), at_millis(5_000));

    assert_eq!(events, vec![at_millis(3_000), at_millis(4_000)]);
}

#[test]
fn a_restart_resumes_the_window_by_the_wall_clock() {
    let reader = Anchor::from_readings(at_millis(7), Some(100_000));
    let window = Duration::from_millis(500);

    let within = restore_events(&reader, &vec![99_500], window, at_millis(7));
    let beyond = restore_events(&reader, &vec![99_499], window, at_millis(7));

    assert_eq!(within, vec![at_millis(-493)]);
    assert!(beyond.is_empty());
}

#[test]
fn a_refresh_leaves_identities_without_rows_alone() {
    let mut policy = ThresholdPolicy::with_store(
        config(10, 1, Duration::from_secs(60)),
        Clock::new(),
        &Anchor::from_readings(at_millis(0), Some(1_000)),
        None,
    );
    assert!(matches!(policy.evaluate_at(&action(1), &who("alice"), at_millis(0)), Decision::Allow));

    let anchor = Anchor::from_readings(at_millis(10), Some(1_010));
    policy.finish_sync_at(&anchor, &vec![("bob".to_string(), vec![1_005])], at_millis(10));

    assert!(matches!(
        policy.evaluate_at(&action(1), &who("alice"), at_millis(10)),
        Decision::Block { .. }
    ));
    assert!(matches!(
        policy.evaluate_at(&action(1), &who("bob"), at_millis(10)),
        Decision::Block { .. }
    ));
    assert!(matches!(policy.evaluate_at(&action(1), &who("carol"), at_millis(10)), Decision::Allow));
}

#[test]
fn moments_are_written_as_wall_clock_time() {
    let anchor = Anchor::from_readings(at_millis(5_000), Some(100_000));

    assert_eq!(anchor.to_epoch_millis(at_millis(4_000)), 99_000);
    assert_eq!(anchor.to_epoch_millis(at_millis(6_500)), 101_500);
    assert_eq!(anchor.to_instant(99_000), Some(at_millis(4_000)));
    assert_eq!(anchor.epoch_millis_before(Duration::from_secs(60)), 40_000);
    assert_eq!(anchor.cutoff(Duration::from_secs(60)), 40_000);
}

#[test]
fn no_entries_make_no_policies() {
    let policies = build_policies(vec![]);

    assert!(policies.is_empty());
}

#[test]
fn a_threshold_entry_makes_a_working_policy() {
    let mut policies = build_policies(vec![(
        PolicyEntry::Threshold(config(3, 100, Duration::from_secs(60))),
        None,
    )]);

    assert_eq!(policies.len(), 1);
    let decision = evaluate_all(&mut policies, &action(4), &who("agent-1"));
    assert!(matches!(decision, Decision::Block { .. }));
}

#[test]
fn preserves_declared_order_across_multiple_entries() {
    let mut policies = build_policies(vec![
        (PolicyEntry::Threshold(config(1, 1, Duration::from_secs(60))), None),
        (PolicyEntry::Threshold(config(100, 100, Duration::from_secs(60))), None),
    ]);

    assert_eq!(policies.len(), 2);
    let decision = evaluate_all(&mut policies, &action(2), &who("agent-1"));
    match decision {
        Decision::Block { reason } => assert!(reason.contains("per-request limit 1")),
        Decision::Allow => panic!("expected the first, stricter policy to block"),
    }
}

#[test]
fn an_entry_with_a_store_remembers_what_it_held() {
    let clock = Clock::new();
    let anchor = Anchor::now(&clock);
    let recent = anchor.stored_millis(clock.now());
    let rows = Some(vec![("agent-1".to_string(), vec![recent])]);

    let mut policy = PolicyEntry::Threshold(config(10, 1, Duration::from_secs(60)))
        .build(Some(OpenedStore { clock, anchor, rows }));

    assert!(matches!(policy.evaluate(&action(1), &who("agent-1")), Decision::Block { .. }));
    assert!(policy.begin_sync().is_some());
}

#[test]
fn policy_defaults_are_the_documented_ones() {
    assert_eq!(default_flush_interval().as_secs(), 2);
    assert_eq!(default_max_tracked_identities(), 100_000);
}

#[test]
fn policy_file_errors_read_exactly() {
    assert_eq!(
        PolicyConfigError::Read { path: "p.toml".to_string() }.message(),
        "reading policy file p.toml (copy policies/ldap.example.toml to get started)"
    );
    assert_eq!(
        PolicyConfigError::Parse { path: "p.toml".to_string() }.message(),
        "parsing policy file p.toml"
    );
}

#[test]
fn a_store_forgets_what_is_as_old_as_the_cutoff() {
    let mut rows = Rows::default();

    let left = rows.sync(vec![("agent-1".to_string(), 999), ("agent-1".to_string(), 1_000)], 999);

    assert_eq!(left, vec![("agent-1".to_string(), vec![1_000])]);
}

#[test]
fn a_blocked_action_leaves_no_trace() {
    let mut with = ThresholdPolicy::new(config(10, 3, Duration::from_millis(20)));
    let mut without = ThresholdPolicy::new(config(10, 3, Duration::from_millis(20)));
    for policy in [&mut with, &mut without] {
        assert!(matches!(
            policy.evaluate_at(&action(2), &who("alice"), at_millis(0)),
            Decision::Allow
        ));
    }

    assert!(matches!(
        with.evaluate_at(&action(2), &who("alice"), at_millis(10)),
        Decision::Block { .. }
    ));
    assert!(matches!(
        with.evaluate_at(&action(4), &who("bob"), at_millis(10)),
        Decision::Block { .. }
    ));

    for (radius, name, millis) in
        [(1, "alice", 15), (1, "alice", 16), (3, "bob", 17), (1, "bob", 18), (2, "alice", 30)]
    {
        let one = with.evaluate_at(&action(radius), &who(name), at_millis(millis));
        let other = without.evaluate_at(&action(radius), &who(name), at_millis(millis));
        match (one, other) {
            (Decision::Allow, Decision::Allow) => {}
            (Decision::Block { reason: one }, Decision::Block { reason: other }) => {
                assert_eq!(one, other);
            }
            (one, other) => panic!("expected the same decision, got {one:?} and {other:?}"),
        }
    }
}

#[test]
fn a_block_does_not_change_who_is_forgotten() {
    let limits = || ThresholdConfig {
        max_tracked_identities: 2,
        ..config(10, 3, Duration::from_millis(100))
    };
    let mut with = ThresholdPolicy::new(limits());
    let mut without = ThresholdPolicy::new(limits());
    for policy in [&mut with, &mut without] {
        for (name, millis) in [("alice", 0), ("bob", 1)] {
            assert!(matches!(
                policy.evaluate_at(&action(2), &who(name), at_millis(millis)),
                Decision::Allow
            ));
        }
    }

    for radius in [2, 11] {
        assert!(matches!(
            with.evaluate_at(&action(radius), &who("alice"), at_millis(2)),
            Decision::Block { .. }
        ));
    }

    for policy in [&mut with, &mut without] {
        // Carol takes the place of alice, whose last admitted action is the
        // oldest; so bob is still remembered and alice begins anew.
        assert!(matches!(
            policy.evaluate_at(&action(1), &who("carol"), at_millis(3)),
            Decision::Allow
        ));
        assert!(matches!(
            policy.evaluate_at(&action(2), &who("bob"), at_millis(4)),
            Decision::Block { .. }
        ));
        assert!(matches!(
            policy.evaluate_at(&action(3), &who("alice"), at_millis(5)),
            Decision::Allow
        ));
    }
}

#[test]
fn a_restored_history_counts_for_as_long_as_it_is_live() {
    let anchor = Anchor::from_readings(at_millis(0), Some(1_000));
    let mut policy =
        ThresholdPolicy::new(config(10, 3, Duration::from_millis(100)));
    policy.finish_sync_at(
        &anchor,
        &vec![("agent-1".to_string(), vec![930, 960, 990])],
        at_millis(0),
    );
    let ctx = who("agent-1");

    // The events fell on -70, -40 and -10.
    assert!(matches!(policy.evaluate_at(&action(1), &ctx, at_millis(30)), Decision::Block { .. }));
    assert!(matches!(policy.evaluate_at(&action(2), &ctx, at_millis(31)), Decision::Block { .. }));
    assert!(matches!(policy.evaluate_at(&action(1), &ctx, at_millis(31)), Decision::Allow));
    assert!(matches!(policy.evaluate_at(&action(1), &ctx, at_millis(32)), Decision::Block { .. }));
    assert!(matches!(policy.evaluate_at(&action(2), &ctx, at_millis(91)), Decision::Allow));
}

#[test]
fn a_block_of_a_newcomer_or_of_an_expired_bucket_leaves_no_trace() {
    let limits = || ThresholdConfig {
        max_tracked_identities: 3,
        ..config(10, 3, Duration::from_millis(20))
    };
    let mut with = ThresholdPolicy::new(limits());
    let mut without = ThresholdPolicy::new(limits());
    for policy in [&mut with, &mut without] {
        for (name, millis) in [("alice", 0), ("bob", 30)] {
            assert!(matches!(
                policy.evaluate_at(&action(2), &who(name), at_millis(millis)),
                Decision::Allow
            ));
        }
    }

    for name in ["alice", "mallory"] {
        assert!(matches!(
            with.evaluate_at(&action(4), &who(name), at_millis(31)),
            Decision::Block { .. }
        ));
    }

    // More newcomers than there is room for, and each of them admitted.
    for (radius, name, millis) in [
        (2, "carol", 32),
        (2, "dave", 33),
        (2, "bob", 34),
        (2, "alice", 35),
        (2, "carol", 36),
        (2, "mallory", 37),
    ] {
        let one = with.evaluate_at(&action(radius), &who(name), at_millis(millis));
        let other = without.evaluate_at(&action(radius), &who(name), at_millis(millis));
        match (one, other) {
            (Decision::Allow, Decision::Allow) => {}
            (Decision::Block { reason: one }, Decision::Block { reason: other }) => {
                assert_eq!(one, other);
            }
            (one, other) => panic!("expected the same decision, got {one:?} and {other:?}"),
        }
    }
}
