use ai_protect::engine::action::{Action, OperationKind};
use ai_protect::engine::identity::Identity;
use ai_protect::engine::policy::store::Anchor;
use ai_protect::engine::policy::threshold::ThresholdPolicy;
use ai_protect::engine::policy::{evaluate_all, Decision, Policy, PolicyContext};
use ai_protect::engine::time::Clock;

#[test]
fn formats_bind_dn_as_identity_string() {
    let identity = Identity::from_bind_dn("cn=alice,dc=example,dc=com".to_string());

    assert_eq!(identity.0, "dn:cn=alice,dc=example,dc=com");
}

enum Fixed {
    AlwaysAllow,
    AlwaysBlock(&'static str),
}

impl Policy for Fixed {
    fn evaluate(&mut self, _action: &Action, _ctx: &PolicyContext) -> Decision {
        match self {
            Fixed::AlwaysAllow => Decision::Allow,
            Fixed::AlwaysBlock(reason) => Decision::Block { reason: reason.to_string() },
        }
    }
}

fn action() -> Action {
    Action {
        backend: "ldap",
        operation: OperationKind::AccountLock,
        target: "cn=alice,dc=example,dc=com".into(),
        blast_radius: 1,
    }
}

fn ctx() -> PolicyContext {
    PolicyContext { identity: Identity("agent-1".into()) }
}

#[test]
fn allows_when_every_policy_allows() {
    let mut policies = vec![Fixed::AlwaysAllow, Fixed::AlwaysAllow];

    let decision = evaluate_all(&mut policies, &action(), &ctx());

    assert!(matches!(decision, Decision::Allow));
}

#[test]
fn blocks_and_stops_at_first_blocking_policy() {
    let mut policies = vec![
        Fixed::AlwaysAllow,
        Fixed::AlwaysBlock("first block"),
        Fixed::AlwaysBlock("second block"),
    ];

    let decision = evaluate_all(&mut policies, &action(), &ctx());

    match decision {
        Decision::Block { reason } => assert_eq!(reason, "first block"),
        Decision::Allow => panic!("expected a block decision"),
    }
}

#[test]
fn allows_when_no_policies_configured() {
    let mut policies: Vec<ThresholdPolicy> = vec![];

    let decision = evaluate_all(&mut policies, &action(), &ctx());

    assert!(matches!(decision, Decision::Allow));
}

fn round_trip_loses_less_than_a_millisecond() {
    let clock = Clock::new();
    let anchor = Anchor::now(&clock);
    let instant = clock.now();

    let epoch_millis = anchor.to_epoch_millis(instant);
    let recovered = anchor.to_instant(epoch_millis).unwrap();

    let diff = (recovered.nanos - instant.nanos).abs();
    assert!(diff < 1_000_000);
}

#[test]
fn store_round_trips_instant_through_epoch_millis() {
    round_trip_loses_less_than_a_millisecond();
}

#[test]
fn mod_round_trips_instant_through_epoch_millis() {
    round_trip_loses_less_than_a_millisecond();
}
