use std::collections::HashMap;

use ai_protect::connector::ldap::{LdapConnector, PASSWORD_MODIFY_OID, START_TLS_OID};
use ai_protect::engine::audit::Level;
use ai_protect::engine::connector::ConnectorError;
use ai_protect::engine::metrics::MetricUpdate;
use ai_protect::engine::net::SocketAddr;
use ai_protect::engine::policy::threshold::{ThresholdConfig, ThresholdPolicy, ThresholdScope};
use ai_protect::engine::time::Duration;
use ai_protect::proxy::listener::{
    maybe_upgrade_to_tls, AcceptFault, FirstFrame, Listener, ListenerAction, ListenerEvent,
    ProxyError,
};
use ai_protect::proxy::{
    handle_client_frame, resolve_pending_bind, stage_pending_bind, BindState, ConnectionLimits,
    Delivery, MAX_PENDING_BINDS,
};
use rasn::types::{OctetString, SetOf};
use rasn_ldap::{
    AuthenticationChoice, BindRequest, BindResponse, ChangeOperation, DelRequest, DelResponse,
    ExtendedRequest, ExtendedResponse, LdapMessage, LdapResult, ModifyRequest, ModifyRequestChanges,
    ModifyResponse, PartialAttribute, ProtocolOp, ResultCode,
};

fn encode_message(message_id: u32, protocol_op: ProtocolOp) -> Vec<u8> {
    rasn::ber::encode(&LdapMessage::new(message_id, protocol_op)).expect("encode LDAP message")
}

fn decode_message(frame: &[u8]) -> LdapMessage {
    rasn::ber::decode(frame).expect("decode LDAP message")
}

fn modify_request_frame(message_id: u32, dn: &str, attribute: &str, value: &[u8]) -> Vec<u8> {
    let change = ModifyRequestChanges {
        operation: ChangeOperation::Replace,
        modification: PartialAttribute::new(
            attribute.into(),
            SetOf::from_vec(vec![OctetString::from(value.to_vec())]),
        ),
    };
    encode_message(
        message_id,
        ProtocolOp::ModifyRequest(ModifyRequest { object: dn.into(), changes: vec![change] }),
    )
}

fn bind_with_password(message_id: u32, dn: &str, password: &[u8]) -> Vec<u8> {
    encode_message(
        message_id,
        ProtocolOp::BindRequest(BindRequest::new(
            3,
            dn.into(),
            AuthenticationChoice::Simple(OctetString::from(password.to_vec())),
        )),
    )
}

fn bind_request_frame(message_id: u32, dn: &str) -> Vec<u8> {
    bind_with_password(message_id, dn, b"password")
}

fn bind_response_frame(message_id: u32, result_code: ResultCode) -> Vec<u8> {
    encode_message(
        message_id,
        ProtocolOp::BindResponse(BindResponse::new(result_code, "".into(), "".into(), None, None)),
    )
}

fn extended_frame(message_id: u32, oid: &str, value: Option<Vec<u8>>) -> Vec<u8> {
    encode_message(
        message_id,
        ProtocolOp::ExtendedReq(ExtendedRequest {
            request_name: oid.as_bytes().to_vec().into(),
            request_value: value.map(OctetString::from),
        }),
    )
}

fn peer() -> SocketAddr {
    SocketAddr { ip: "127.0.0.1".to_string(), port: 40000 }
}

fn connector() -> LdapConnector {
    LdapConnector::new(SocketAddr { ip: "127.0.0.1".to_string(), port: 389 }, None)
}

fn policies(max_per_request: usize, max_per_window: usize) -> Vec<ThresholdPolicy> {
    vec![ThresholdPolicy::new(ThresholdConfig {
        max_per_request,
        max_per_window,
        window: Duration::from_secs(60),
        state_db: None,
        flush_interval: Duration::from_secs(2),
        max_tracked_identities: 100_000,
        scope: ThresholdScope::PerIdentity,
        operations: None,
    })]
}

fn allow_all_policies() -> Vec<ThresholdPolicy> {
    policies(10, 10)
}

fn block_all_policies() -> Vec<ThresholdPolicy> {
    policies(0, 10)
}

fn lock_frame(message_id: u32) -> Vec<u8> {
    modify_request_frame(
        message_id,
        "cn=alice,dc=example,dc=com",
        "userAccountControl",
        b"514",
    )
}

#[test]
fn stage_pending_bind_evicts_oldest_message_id_once_at_capacity() {
    let mut pending = HashMap::new();
    for id in 0..MAX_PENDING_BINDS as u32 {
        assert_eq!(stage_pending_bind(&mut pending, id, format!("cn=user{id}")), None);
    }
    assert_eq!(pending.len(), MAX_PENDING_BINDS);

    let evicted = stage_pending_bind(
        &mut pending,
        MAX_PENDING_BINDS as u32,
        "cn=overflow".to_string(),
    );
    assert_eq!(evicted, Some(0));
    assert_eq!(pending.len(), MAX_PENDING_BINDS);
    assert!(
        !pending.contains_key(&0),
        "oldest (smallest) message id should have been evicted to make room"
    );
    assert!(pending.contains_key(&(MAX_PENDING_BINDS as u32)));
}

#[test]
fn stage_pending_bind_restaging_an_existing_id_does_not_evict() {
    let mut pending = HashMap::new();
    for id in 0..MAX_PENDING_BINDS as u32 {
        stage_pending_bind(&mut pending, id, format!("cn=user{id}"));
    }

    stage_pending_bind(&mut pending, 5, "cn=updated".to_string());
    assert_eq!(pending.len(), MAX_PENDING_BINDS);
    assert_eq!(pending.get(&5), Some(&"cn=updated".to_string()));
}

#[test]
fn allowed_request_forwards_to_upstream_and_response_relays_back() {
    let mut state = BindState::new(peer());
    let mut policies = allow_all_policies();

    let outcome = handle_client_frame(&connector(), &mut policies, &mut state, &lock_frame(1));

    assert!(matches!(outcome.delivery, Ok(Delivery::Forward)));
    let (record, update) = outcome.records.expect("expected the decision to be recorded");
    assert_eq!(record.level, Level::Info);
    assert_eq!(record.message, "action allowed");
    assert_eq!(record.identity, "ip:127.0.0.1");
    assert!(matches!(update, MetricUpdate::Count { .. }));
    assert!(outcome.evicted.is_none());

    let response = encode_message(
        1,
        ProtocolOp::ModifyResponse(ModifyResponse(LdapResult::new(
            ResultCode::Success,
            "".into(),
            "".into(),
        ))),
    );
    resolve_pending_bind(&connector(), &mut state, &response).unwrap();
    assert_eq!(state.identity().0, "ip:127.0.0.1");
}

#[test]
fn blocked_request_never_reaches_upstream_and_client_gets_rejection() {
    let mut state = BindState::new(peer());
    let mut policies = block_all_policies();

    let outcome = handle_client_frame(&connector(), &mut policies, &mut state, &lock_frame(7));

    let rejection = match outcome.delivery {
        Ok(Delivery::Reject(rejection)) => rejection,
        _ => panic!("blocked request must never reach upstream"),
    };
    let message = decode_message(&rejection);
    assert_eq!(message.message_id, 7);
    match message.protocol_op {
        ProtocolOp::ModifyResponse(ModifyResponse(result)) => {
            assert_eq!(result.result_code, ResultCode::UnwillingToPerform);
            assert_eq!(
                result.diagnostic_message.0,
                "blast radius 1 exceeds per-request limit 0"
            );
        }
        other => panic!("expected ModifyResponse, got {other:?}"),
    }
    let (record, _) = outcome.records.expect("expected the decision to be recorded");
    assert_eq!(record.level, Level::Warn);
    assert_eq!(record.message, "action blocked");
}

#[test]
fn blocked_delete_never_reaches_upstream_and_client_gets_del_response() {
    let mut state = BindState::new(peer());
    let mut policies = block_all_policies();
    let frame =
        encode_message(7, ProtocolOp::DelRequest(DelRequest("cn=alice,dc=example,dc=com".into())));

    let outcome = handle_client_frame(&connector(), &mut policies, &mut state, &frame);

    let rejection = match outcome.delivery {
        Ok(Delivery::Reject(rejection)) => rejection,
        _ => panic!("blocked bulk delete must never reach upstream"),
    };
    let message = decode_message(&rejection);
    assert_eq!(message.message_id, 7);
    match message.protocol_op {
        ProtocolOp::DelResponse(DelResponse(result)) => {
            assert_eq!(result.result_code, ResultCode::UnwillingToPerform);
        }
        other => panic!("expected DelResponse, got {other:?}"),
    }
}

#[test]
fn blocked_password_modify_never_reaches_upstream_and_client_gets_extended_response() {
    let mut state = BindState::new(peer());
    let mut policies = block_all_policies();
    let dn = "cn=alice,dc=example,dc=com";
    let mut value = vec![0x30, dn.len() as u8 + 2, 0x80, dn.len() as u8];
    value.extend_from_slice(dn.as_bytes());
    let frame = extended_frame(7, PASSWORD_MODIFY_OID, Some(value));

    let outcome = handle_client_frame(&connector(), &mut policies, &mut state, &frame);

    let rejection = match outcome.delivery {
        Ok(Delivery::Reject(rejection)) => rejection,
        _ => panic!("blocked password reset must never reach upstream"),
    };
    let message = decode_message(&rejection);
    assert_eq!(message.message_id, 7);
    match message.protocol_op {
        ProtocolOp::ExtendedResp(ExtendedResponse { result_code, .. }) => {
            assert_eq!(result_code, ResultCode::UnwillingToPerform);
        }
        other => panic!("expected ExtendedResp, got {other:?}"),
    }
}

#[test]
fn bind_dn_becomes_identity_so_same_peer_gets_separate_budgets() {
    let mut policies = policies(10, 1);

    for dn in ["cn=alice,dc=example,dc=com", "cn=bob,dc=example,dc=com"] {
        let mut state = BindState::new(peer());
        let bind = handle_client_frame(
            &connector(),
            &mut policies,
            &mut state,
            &bind_request_frame(1, dn),
        );
        assert!(matches!(bind.delivery, Ok(Delivery::Forward)));
        resolve_pending_bind(
            &connector(),
            &mut state,
            &bind_response_frame(1, ResultCode::Success),
        )
        .unwrap();
        assert_eq!(state.identity().0, format!("dn:{dn}"));

        let modify = modify_request_frame(2, dn, "userAccountControl", b"514");
        let outcome = handle_client_frame(&connector(), &mut policies, &mut state, &modify);
        assert!(
            matches!(outcome.delivery, Ok(Delivery::Forward)),
            "{dn}'s modify should have reached upstream, not been blocked locally"
        );
    }
}

fn second_action_is_blocked_after(bind: &[u8], response: &[u8]) {
    let mut policies = policies(10, 1);
    let mut state = BindState::new(peer());

    let first = handle_client_frame(&connector(), &mut policies, &mut state, &lock_frame(1));
    assert!(matches!(first.delivery, Ok(Delivery::Forward)));

    let claim = handle_client_frame(&connector(), &mut policies, &mut state, bind);
    assert!(matches!(claim.delivery, Ok(Delivery::Forward)));
    resolve_pending_bind(&connector(), &mut state, response).unwrap();
    assert_eq!(state.identity().0, "ip:127.0.0.1");

    let second = handle_client_frame(&connector(), &mut policies, &mut state, &lock_frame(3));
    let rejection = match second.delivery {
        Ok(Delivery::Reject(rejection)) => rejection,
        _ => panic!("expected the second action to be blocked"),
    };
    match decode_message(&rejection).protocol_op {
        ProtocolOp::ModifyResponse(ModifyResponse(result)) => {
            assert_eq!(result.result_code, ResultCode::UnwillingToPerform);
            assert_eq!(
                result.diagnostic_message.0,
                "1 matching actions in the last 60s would exceed window limit 1"
            );
        }
        other => panic!("expected ModifyResponse, got {other:?}"),
    }
}

#[test]
fn unverified_bind_does_not_change_identity_or_reset_budget() {
    second_action_is_blocked_after(
        &bind_request_frame(2, "cn=throwaway,dc=example,dc=com"),
        &bind_response_frame(2, ResultCode::InvalidCredentials),
    );
}

#[test]
fn unauthenticated_bind_does_not_change_identity_or_reset_budget() {
    second_action_is_blocked_after(
        &bind_with_password(2, "cn=throwaway,dc=example,dc=com", b""),
        &bind_response_frame(2, ResultCode::Success),
    );
}

#[test]
fn an_answer_to_no_claim_changes_nothing() {
    let mut state = BindState::new(peer());

    resolve_pending_bind(&connector(), &mut state, &bind_response_frame(9, ResultCode::Success))
        .unwrap();

    assert_eq!(state.identity().0, "ip:127.0.0.1");
}

#[test]
fn unreadable_frames_end_the_connection() {
    let mut state = BindState::new(peer());
    let mut policies = allow_all_policies();

    let outcome =
        handle_client_frame(&connector(), &mut policies, &mut state, &[0x30, 0x01, 0xff]);

    assert!(matches!(outcome.delivery, Err(ConnectorError::Decode)));
    assert!(outcome.records.is_none());
}

#[test]
fn claims_beyond_the_cap_report_the_evicted_one() {
    let mut state = BindState::new(peer());
    let mut policies = allow_all_policies();

    for id in 0..MAX_PENDING_BINDS as u32 {
        let frame = bind_request_frame(id, "cn=alice,dc=example,dc=com");
        let outcome = handle_client_frame(&connector(), &mut policies, &mut state, &frame);
        assert!(outcome.evicted.is_none());
    }
    let frame = bind_request_frame(5000, "cn=alice,dc=example,dc=com");
    let outcome = handle_client_frame(&connector(), &mut policies, &mut state, &frame);

    assert_eq!(outcome.evicted, Some(0));
}

fn limits(max_connections: usize) -> ConnectionLimits {
    ConnectionLimits {
        max_connections,
        io_timeout: Duration::from_secs(60),
        shutdown_timeout: Duration::from_millis(100),
    }
}

#[test]
fn connections_beyond_max_are_rejected() {
    let mut listener = Listener::new(limits(1));

    assert!(matches!(listener.on_event(ListenerEvent::Accepted), ListenerAction::Serve));
    assert!(matches!(listener.on_event(ListenerEvent::Accepted), ListenerAction::Refuse));
    assert!(matches!(listener.on_event(ListenerEvent::ConnectionEnded), ListenerAction::Continue));
    assert!(matches!(listener.on_event(ListenerEvent::Accepted), ListenerAction::Serve));
}

#[test]
fn graceful_shutdown_stops_accepting_and_waits_for_in_flight_connection() {
    let mut listener = Listener::new(limits(4));

    listener.on_event(ListenerEvent::Accepted);
    match listener.on_event(ListenerEvent::ShutdownRequested) {
        ListenerAction::Drain { in_flight, timeout } => {
            assert_eq!(in_flight, 1);
            assert_eq!(timeout.as_nanos(), 100_000_000);
        }
        other => panic!("expected the connection to be waited for, got {other:?}"),
    }
    assert!(matches!(listener.on_event(ListenerEvent::Accepted), ListenerAction::Refuse));
    assert!(matches!(listener.on_event(ListenerEvent::ConnectionEnded), ListenerAction::Finish));
}

#[test]
fn graceful_shutdown_aborts_connections_still_running_past_the_grace_period() {
    let mut listener = Listener::new(limits(4));

    listener.on_event(ListenerEvent::Accepted);
    listener.on_event(ListenerEvent::ShutdownRequested);
    assert!(matches!(
        listener.on_event(ListenerEvent::GraceElapsed),
        ListenerAction::Abort { remaining: 1 }
    ));
}

#[test]
fn an_idle_listener_ends_at_once_on_shutdown() {
    let mut listener = Listener::new(limits(4));

    assert!(matches!(listener.on_event(ListenerEvent::ShutdownRequested), ListenerAction::Finish));
}

#[test]
fn a_lasting_failure_to_accept_ends_the_listener() {
    let mut listener = Listener::new(limits(4));

    assert!(matches!(
        listener.on_event(ListenerEvent::AcceptFailed { fault: AcceptFault::Other }),
        ListenerAction::Fail
    ));
    assert!(matches!(listener.on_event(ListenerEvent::Accepted), ListenerAction::Refuse));
}

#[test]
fn a_transient_failure_to_accept_does_not_end_the_listener() {
    let mut listener = Listener::new(limits(4));

    for fault in [
        AcceptFault::ProcessFileLimit,
        AcceptFault::SystemFileLimit,
        AcceptFault::Aborted,
        AcceptFault::NoBuffers,
        AcceptFault::NoMemory,
    ] {
        assert!(matches!(
            listener.on_event(ListenerEvent::AcceptFailed { fault }),
            ListenerAction::Continue
        ));
    }
    assert!(matches!(listener.on_event(ListenerEvent::Accepted), ListenerAction::Serve));
}

#[test]
fn a_listener_keeps_its_limits() {
    let mut listener = Listener::new(limits(4));
    listener.on_event(ListenerEvent::Accepted);

    let kept = listener.limits();

    assert_eq!(kept.max_connections, 4);
    assert_eq!(kept.io_timeout.as_secs(), 60);
    assert_eq!(kept.shutdown_timeout.as_nanos(), 100_000_000);
}

#[test]
fn client_starttls_upgrades_plaintext_connection_to_tls() {
    let frame = extended_frame(1, START_TLS_OID, None);

    let step = maybe_upgrade_to_tls(&connector(), Some(frame)).unwrap();

    let answer = match step {
        FirstFrame::Upgrade(answer) => answer,
        other => panic!("expected an upgrade, got {other:?}"),
    };
    let message = decode_message(&answer);
    assert_eq!(message.message_id, 1);
    match message.protocol_op {
        ProtocolOp::ExtendedResp(ExtendedResponse { result_code, .. }) => {
            assert_eq!(result_code, ResultCode::Success);
        }
        other => panic!("expected ExtendedResp, got {other:?}"),
    }
}

#[test]
fn client_skips_starttls_and_still_works_when_it_is_configured() {
    let frame = lock_frame(1);

    match maybe_upgrade_to_tls(&connector(), Some(frame.clone())).unwrap() {
        FirstFrame::Relay(Some(kept)) => assert_eq!(kept, frame),
        other => panic!("expected the frame to be relayed, got {other:?}"),
    }
    assert!(matches!(maybe_upgrade_to_tls(&connector(), None), Ok(FirstFrame::Relay(None))));
    assert!(matches!(
        maybe_upgrade_to_tls(&connector(), Some(vec![0x30])),
        Err(ConnectorError::Decode)
    ));
}

#[test]
fn the_default_limits_are_the_documented_ones() {
    let limits = ConnectionLimits::default();

    assert_eq!(limits.max_connections, 1024);
    assert_eq!(limits.io_timeout.as_secs(), 60);
    assert_eq!(limits.shutdown_timeout.as_secs(), 30);
}

#[test]
fn listener_errors_read_exactly() {
    assert_eq!(
        ProxyError::Bind { addr: "127.0.0.1:389".to_string() }.message(),
        "binding listener on 127.0.0.1:389"
    );
    assert_eq!(ProxyError::Accept.message(), "accepting connection");
}
