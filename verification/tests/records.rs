use ai_protect::engine::action::{Action, OperationKind};
use ai_protect::engine::audit::{log_decision, truncate_for_log, Level, MAX_LOGGED_FIELD_LEN};
use ai_protect::engine::identity::Identity;
use ai_protect::engine::metrics::{
    operation_label, record_decision, record_tls_handshake_failure, record_upstream_connect, ConnectionGuard,
    MetricUpdate,
};
use ai_protect::engine::policy::Decision;
use ai_protect::engine::time::Duration;

#[test]
fn truncate_for_log_passes_short_values_through_unchanged() {
    assert_eq!(
        truncate_for_log("cn=alice,dc=example,dc=com"),
        "cn=alice,dc=example,dc=com"
    );
}

#[test]
fn truncate_for_log_bounds_an_oversized_value() {
    let huge = "a".repeat(MAX_LOGGED_FIELD_LEN * 4);

    let truncated = truncate_for_log(&huge);

    assert!(truncated.len() < huge.len());
    assert!(truncated.contains(&format!("{} bytes total", huge.len())));
}

#[test]
fn truncate_for_log_does_not_split_a_multi_byte_char() {
    // Two octets per character, so the cut falls inside one.
    let huge = "é".repeat(MAX_LOGGED_FIELD_LEN * 2);

    let truncated = truncate_for_log(&huge);

    assert!(truncated.contains(&format!("{} bytes total", huge.len())));
}

#[test]
fn connection_guard_decrements_the_active_gauge_on_drop() {
    let guard = ConnectionGuard::open();
    let (count, raise) = guard.opening();
    assert!(matches!(count, MetricUpdate::Count { name: "ai_protect_connections_total", .. }));
    assert!(matches!(raise, MetricUpdate::Raise { name: "ai_protect_connections_active" }));
    let lower = guard.close();
    assert!(matches!(lower, MetricUpdate::Lower { name: "ai_protect_connections_active" }));
}

#[test]
fn recording_functions_are_no_ops_without_an_installed_recorder() {
    record_decision(
        &Action {
            backend: "ldap",
            operation: OperationKind::AccountLock,
            target: "cn=alice,dc=example,dc=com".into(),
            blast_radius: 1,
        },
        &Decision::Allow,
    );
    record_upstream_connect(Duration::from_millis(5));
    record_tls_handshake_failure("upstream");
}

fn action() -> Action {
    Action {
        backend: "ldap",
        operation: OperationKind::AccountLock,
        target: "cn=alice,dc=example,dc=com".into(),
        blast_radius: 1,
    }
}

#[test]
fn audit_logs_allow_decision() {
    let record = log_decision(&Identity("test-peer".into()), &action(), &Decision::Allow);

    assert_eq!(record.message, "action allowed");
    assert_eq!(record.identity, "test-peer");
    assert_eq!(record.level, Level::Info);
    assert_eq!(record.backend, "ldap");
    assert_eq!(record.operation, OperationKind::AccountLock);
    assert_eq!(record.target, "cn=alice,dc=example,dc=com");
    assert_eq!(record.blast_radius, 1);
    assert!(record.reason.is_none());
}

#[test]
fn audit_logs_block_decision_with_reason() {
    let decision = Decision::Block { reason: "too many locks".into() };

    let record = log_decision(&Identity("test-peer".into()), &action(), &decision);

    assert_eq!(record.message, "action blocked");
    assert_eq!(record.reason.as_deref(), Some("too many locks"));
    assert_eq!(record.identity, "test-peer");
    assert_eq!(record.level, Level::Warn);
}

#[test]
fn logs_an_oversized_identity_and_target_truncated() {
    let huge_dn = "a".repeat(MAX_LOGGED_FIELD_LEN * 4);
    let mut oversized_action = action();
    oversized_action.target = huge_dn.clone();

    let record = log_decision(&Identity(huge_dn.clone()), &oversized_action, &Decision::Allow);

    for field in [&record.identity, &record.target] {
        assert!(!field.contains(&huge_dn));
        assert!(field.contains(&format!("{} bytes total", huge_dn.len())));
    }
}

#[test]
fn truncation_cuts_before_a_split_character() {
    let value = format!("{}é", "a".repeat(MAX_LOGGED_FIELD_LEN - 1));

    assert_eq!(
        truncate_for_log(&value),
        format!("{}... ({} bytes total)", "a".repeat(MAX_LOGGED_FIELD_LEN - 1), 513)
    );
}

#[test]
fn decisions_are_counted_by_operation_and_outcome() {
    let labels = |decision: &Decision| match record_decision(&action(), decision) {
        MetricUpdate::Count { name, labels } => {
            assert_eq!(name, "ai_protect_policy_decisions_total");
            labels.iter().map(|label| (label.name, label.value)).collect::<Vec<_>>()
        }
        other => panic!("expected a count, got {other:?}"),
    };

    let allowed = labels(&Decision::Allow);
    let blocked = labels(&Decision::Block { reason: "no".into() });
    assert!(allowed.contains(&("backend", "ldap")));
    assert!(allowed.contains(&("operation", "account_lock")));
    assert!(allowed.contains(&("decision", "allow")));
    assert!(blocked.contains(&("decision", "block")));
    assert_eq!(operation_label(&OperationKind::PasswordReset), "password_reset");
}

#[test]
fn handshake_failures_and_connects_are_measured() {
    match record_tls_handshake_failure("client") {
        MetricUpdate::Count { name, labels } => {
            assert_eq!(name, "ai_protect_tls_handshake_failures_total");
            assert_eq!(labels.len(), 1);
            assert_eq!(labels[0].name, "hop");
            assert_eq!(labels[0].value, "client");
        }
        other => panic!("expected a count, got {other:?}"),
    }
    match record_upstream_connect(Duration::from_millis(5)) {
        MetricUpdate::Measure { name, elapsed } => {
            assert_eq!(name, "ai_protect_upstream_connect_duration_seconds");
            assert_eq!(elapsed.as_nanos(), 5_000_000);
        }
        other => panic!("expected a measure, got {other:?}"),
    }
}

#[test]
fn the_active_gauge_shows_the_open_connections_in_whatever_order_they_end() {
    let mut active = 0;
    let mut total = 0;
    let mut open: Vec<ConnectionGuard> = Vec::new();
    for opens in [true, true, false, true, true, false, false, false, true] {
        let updates = if opens {
            let guard = ConnectionGuard::open();
            let (count, raise) = guard.opening();
            open.push(guard);
            vec![count, raise]
        } else {
            vec![open.remove(0).close()]
        };
        for update in updates {
            match update {
                MetricUpdate::Count { name: "ai_protect_connections_total", .. } => total += 1,
                MetricUpdate::Raise { name: "ai_protect_connections_active" } => active += 1,
                MetricUpdate::Lower { name: "ai_protect_connections_active" } => active -= 1,
                other => panic!("unexpected update {other:?}"),
            }
        }
        assert_eq!(active, open.len());
    }
    assert_eq!(total, 5);
}
