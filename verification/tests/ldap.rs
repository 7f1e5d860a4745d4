use ai_protect::connector::ber::{
    frame_progress, read_frame, FrameError, FrameProgress, MAX_FRAME_CONTENT_LEN,
};
use ai_protect::connector::ldap::{
    check_start_tls_response, start_tls_request, LdapConnector, StartTlsError,
    PASSWORD_MODIFY_OID, START_TLS_OID, START_TLS_UPSTREAM_MESSAGE_ID,
};
use ai_protect::engine::action::OperationKind;
use ai_protect::engine::connector::{Connector, ConnectorError};
use ai_protect::engine::net::SocketAddr;
use rasn::types::{OctetString, SetOf};
use rasn_ldap::{
    AddRequest, AddResponse, Attribute, AuthenticationChoice, BindRequest, BindResponse,
    ChangeOperation, DelRequest, DelResponse, ExtendedRequest, ExtendedResponse, LdapMessage,
    LdapResult, ModifyDnRequest, ModifyDnResponse, ModifyRequest, ModifyRequestChanges,
    ModifyResponse, PartialAttribute, ProtocolOp, ResultCode, SaslCredentials,
};

const ALICE: &str = "cn=alice,dc=example,dc=com";

fn encode_message(message_id: u32, protocol_op: ProtocolOp) -> Vec<u8> {
    rasn::ber::encode(&LdapMessage::new(message_id, protocol_op)).expect("encode LDAP message")
}

fn decode_message(frame: &[u8]) -> LdapMessage {
    rasn::ber::decode(frame).expect("decode LDAP message")
}

fn change(operation: ChangeOperation, attribute: &str, values: &[&[u8]]) -> ModifyRequestChanges {
    ModifyRequestChanges {
        operation,
        modification: PartialAttribute::new(
            attribute.into(),
            SetOf::from_vec(values.iter().map(|v| OctetString::from(v.to_vec())).collect()),
        ),
    }
}

fn modify_frame(message_id: u32, dn: &str, changes: Vec<ModifyRequestChanges>) -> Vec<u8> {
    encode_message(
        message_id,
        ProtocolOp::ModifyRequest(ModifyRequest { object: dn.into(), changes }),
    )
}

fn modify_request_frame(message_id: u32, dn: &str, attribute: &str, value: &[u8]) -> Vec<u8> {
    modify_frame(message_id, dn, vec![change(ChangeOperation::Replace, attribute, &[value])])
}

fn bind_frame(message_id: u32, dn: &str, authentication: AuthenticationChoice) -> Vec<u8> {
    encode_message(
        message_id,
        ProtocolOp::BindRequest(BindRequest::new(3, dn.into(), authentication)),
    )
}

fn bind_request_frame(message_id: u32, dn: &str) -> Vec<u8> {
    bind_frame(
        message_id,
        dn,
        AuthenticationChoice::Simple(OctetString::from(b"password".to_vec())),
    )
}

fn sasl_bind_request_frame(message_id: u32, dn: &str) -> Vec<u8> {
    bind_frame(
        message_id,
        dn,
        AuthenticationChoice::Sasl(SaslCredentials::new("GSSAPI".into(), None)),
    )
}

fn bind_response_frame(message_id: u32, result_code: ResultCode) -> Vec<u8> {
    encode_message(
        message_id,
        ProtocolOp::BindResponse(BindResponse::new(result_code, "".into(), "".into(), None, None)),
    )
}

fn extended_frame(message_id: u32, oid: &str, value: Option<Vec<u8>>) -> Vec<u8> {
    encode_message(
        message_id,
        ProtocolOp::ExtendedReq(ExtendedRequest {
            request_name: oid.as_bytes().to_vec().into(),
            request_value: value.map(OctetString::from),
        }),
    )
}

fn extended_request_frame(message_id: u32, oid: &str) -> Vec<u8> {
    extended_frame(message_id, oid, None)
}

/// The value of a password reset: a sequence whose first element, under
/// context tag 0, names the account.
fn password_reset_value(dn: &str) -> Vec<u8> {
    let mut inner = vec![0x80, dn.len() as u8];
    inner.extend_from_slice(dn.as_bytes());
    let mut value = vec![0x30, inner.len() as u8];
    value.extend_from_slice(&inner);
    value
}

fn addr() -> SocketAddr {
    SocketAddr { ip: "127.0.0.1".to_string(), port: 389 }
}

fn connector() -> LdapConnector {
    LdapConnector::new(addr(), None)
}

#[test]
fn upgrade_request_confirms_starttls_and_preserves_message_id() {
    let frame = extended_request_frame(9, START_TLS_OID);

    let response = connector()
        .upgrade_request(&frame)
        .unwrap()
        .expect("expected a StartTLS confirmation response");
    let message = decode_message(&response);

    assert_eq!(message.message_id, 9);
    match message.protocol_op {
        ProtocolOp::ExtendedResp(ExtendedResponse { result_code, .. }) => {
            assert_eq!(result_code, ResultCode::Success);
        }
        other => panic!("expected ExtendedResp, got {other:?}"),
    }
}

#[test]
fn upgrade_request_ignores_other_extended_operations() {
    let frame = extended_request_frame(1, "1.2.3.4.5.6.7.8.9");

    let response = connector().upgrade_request(&frame).unwrap();

    assert!(response.is_none());
}

#[test]
fn upgrade_request_ignores_non_extended_operations() {
    let frame = bind_request_frame(1, "cn=alice,dc=example,dc=com");

    let response = connector().upgrade_request(&frame).unwrap();

    assert!(response.is_none());
}

#[test]
fn decodes_lock_attribute_modify_as_account_lock_action() {
    let frame = modify_request_frame(1, "cn=alice,dc=example,dc=com", "userAccountControl", b"514");

    let action = connector().decode(&frame).unwrap().expect("expected an action");

    assert_eq!(action.backend, "ldap");
    assert_eq!(action.operation, OperationKind::AccountLock);
    assert_eq!(action.target, "cn=alice,dc=example,dc=com");
    assert_eq!(action.blast_radius, 1);
}

#[test]
fn ignores_modify_of_unrelated_attribute() {
    let frame = modify_request_frame(
        1,
        "cn=alice,dc=example,dc=com",
        "description",
        b"new description",
    );

    let action = connector().decode(&frame).unwrap();

    assert!(action.is_none());
}

#[test]
fn ignores_non_modify_operations() {
    let frame = bind_request_frame(1, "cn=alice,dc=example,dc=com");

    let action = connector().decode(&frame).unwrap();

    assert!(action.is_none());
}

#[test]
fn lock_attribute_match_is_case_insensitive() {
    let frame = modify_request_frame(1, "cn=alice,dc=example,dc=com", "USERACCOUNTCONTROL", b"514");

    let action = connector().decode(&frame).unwrap();

    assert!(action.is_some());
}

#[test]
fn bind_identity_extracts_dn_from_simple_bind() {
    let frame = bind_request_frame(1, "cn=alice,dc=example,dc=com");

    let identity = connector().bind_identity(&frame).unwrap();

    assert_eq!(identity.as_deref(), Some("cn=alice,dc=example,dc=com"));
}

#[test]
fn bind_identity_ignores_anonymous_bind() {
    let frame = bind_request_frame(1, "");

    let identity = connector().bind_identity(&frame).unwrap();

    assert!(identity.is_none());
}

#[test]
fn bind_identity_ignores_a_bind_without_a_password() {
    let frame = bind_frame(1, ALICE, AuthenticationChoice::Simple(OctetString::from(vec![])));

    let identity = connector().bind_identity(&frame).unwrap();

    assert!(identity.is_none());
}

#[test]
fn bind_identity_ignores_sasl_bind() {
    let frame = sasl_bind_request_frame(1, "cn=alice,dc=example,dc=com");

    let identity = connector().bind_identity(&frame).unwrap();

    assert!(identity.is_none());
}

#[test]
fn bind_identity_ignores_non_bind_operations() {
    let frame = modify_request_frame(1, "cn=alice,dc=example,dc=com", "userAccountControl", b"514");

    let identity = connector().bind_identity(&frame).unwrap();

    assert!(identity.is_none());
}

#[test]
fn build_rejection_preserves_message_id_and_reason() {
    let frame = modify_request_frame(42, "cn=alice,dc=example,dc=com", "userAccountControl", b"514");

    let rejection = connector().build_rejection(&frame, "too many locks").unwrap();
    let message = decode_message(&rejection);

    assert_eq!(message.message_id, 42);
    match message.protocol_op {
        ProtocolOp::ModifyResponse(ModifyResponse(result)) => {
            assert_eq!(result.result_code, ResultCode::UnwillingToPerform);
            assert_eq!(result.diagnostic_message.0, "too many locks");
        }
        other => panic!("expected ModifyResponse, got {other:?}"),
    }
}

fn through_the_trait<C: Connector>(connector: &C) {
    let frame = modify_request_frame(1, "cn=alice,dc=example,dc=com", "userAccountControl", b"514");

    let read = read_frame(&frame).unwrap().unwrap();
    assert_eq!(read, frame);

    let action = connector.decode(&read).unwrap().expect("expected an action");
    assert_eq!(action.operation, OperationKind::AccountLock);

    let rejection = connector.build_rejection(&read, "too many locks").unwrap();
    let message = decode_message(&rejection);
    assert_eq!(message.message_id, 1);
}

#[test]
fn works_through_the_connector_trait_object() {
    through_the_trait(&connector());
}

#[test]
fn read_frame_reads_short_form_length() {
    let frame = modify_request_frame(1, "cn=alice,dc=example,dc=com", "userAccountControl", b"514");

    let read = read_frame(&frame).unwrap().unwrap();

    assert_eq!(read, frame);
}

#[test]
fn read_frame_reads_long_form_length() {
    let big_value = vec![b'x'; 300];
    let frame =
        modify_request_frame(1, "cn=alice,dc=example,dc=com", "userAccountControl", &big_value);
    assert!(
        frame[1] & 0x80 != 0,
        "expected long-form length for this test to be meaningful"
    );

    let read = read_frame(&frame).unwrap().unwrap();

    assert_eq!(read, frame);
}

#[test]
fn read_frame_returns_none_on_clean_eof() {
    let read = read_frame(&[]).unwrap();

    assert!(read.is_none());
}

#[test]
fn read_frame_rejects_length_over_max_frame_size_without_allocating() {
    let oversized_len = (MAX_FRAME_CONTENT_LEN + 1) as u32;
    let mut header = vec![0x30u8, 0x84];
    header.extend_from_slice(&oversized_len.to_be_bytes());

    let err = read_frame(&header).unwrap_err();

    assert!(err.message().contains("exceeds max frame size"));
    assert_eq!(err, FrameError::TooLarge { content_len: MAX_FRAME_CONTENT_LEN + 1 });
}

#[test]
fn frame_errors_read_exactly() {
    assert_eq!(
        FrameError::TooLarge { content_len: 16_777_217 }.message(),
        "LDAP message length 16777217 exceeds max frame size (16777216 bytes)"
    );
    assert_eq!(
        FrameError::UnsupportedLength { num_bytes: 5 }.message(),
        "unsupported LDAP message length encoding (5 length bytes)"
    );
    assert_eq!(FrameError::UnexpectedEof.message(), "LDAP message ends early");
}

#[test]
fn frames_of_the_largest_content_are_announced() {
    let header = [0x30u8, 0x84, 0x01, 0x00, 0x00, 0x00];

    assert_eq!(frame_progress(&header), Ok(FrameProgress::Need(MAX_FRAME_CONTENT_LEN)));
}

#[test]
fn indefinite_and_overlong_lengths_are_unsupported() {
    assert_eq!(
        read_frame(&[0x30, 0x80, 0, 0]),
        Err(FrameError::UnsupportedLength { num_bytes: 0 })
    );
    assert_eq!(
        read_frame(&[0x30, 0x85, 0, 0, 0, 0, 0]),
        Err(FrameError::UnsupportedLength { num_bytes: 5 })
    );
}

#[test]
fn frames_that_end_early_are_an_error() {
    assert_eq!(read_frame(&[0x30]), Err(FrameError::UnexpectedEof));
    assert_eq!(read_frame(&[0x30, 0x82, 0x01]), Err(FrameError::UnexpectedEof));
    assert_eq!(read_frame(&[0x30, 0x03, 1, 2]), Err(FrameError::UnexpectedEof));
}

#[test]
fn a_frame_ends_where_its_length_says() {
    let mut bytes = modify_request_frame(1, ALICE, "lockoutTime", b"1");
    let frame = bytes.clone();
    bytes.extend_from_slice(&bind_request_frame(2, ALICE));

    assert_eq!(read_frame(&bytes).unwrap().unwrap(), frame);
    assert_eq!(frame_progress(&bytes), Ok(FrameProgress::Complete(frame.len())));
}

#[test]
fn a_frame_is_asked_for_piece_by_piece() {
    let frame = modify_request_frame(1, ALICE, "userAccountControl", &[b'x'; 300]);

    let mut have: Vec<u8> = Vec::new();
    loop {
        match frame_progress(&have).unwrap() {
            FrameProgress::Need(n) => {
                assert!(n > 0);
                let from = have.len();
                have.extend_from_slice(&frame[from..from + n]);
            }
            FrameProgress::Complete(n) => {
                assert_eq!(n, frame.len());
                break;
            }
        }
    }

    assert_eq!(have, frame);
}

#[test]
fn deleting_a_lock_attribute_is_an_unlock() {
    let frame = modify_frame(
        1,
        ALICE,
        vec![change(ChangeOperation::Delete, "pwdAccountLockedTime", &[])],
    );

    let action = connector().decode(&frame).unwrap().expect("expected an action");

    assert_eq!(action.operation, OperationKind::AccountUnlock);
    assert_eq!(action.target, ALICE);
}

#[test]
fn a_lock_among_other_changes_wins() {
    let frame = modify_frame(
        1,
        ALICE,
        vec![
            change(ChangeOperation::Delete, "nsAccountLock", &[]),
            change(ChangeOperation::Replace, "description", &[b"away"]),
            change(ChangeOperation::Add, "shadowExpire", &[b"1"]),
        ],
    );

    let action = connector().decode(&frame).unwrap().expect("expected an action");

    assert_eq!(action.operation, OperationKind::AccountLock);
    assert_eq!(action.blast_radius, 1);
}

#[test]
fn deletes_adds_and_renames_are_actions() {
    let delete = encode_message(1, ProtocolOp::DelRequest(DelRequest(ALICE.into())));
    let add = encode_message(
        2,
        ProtocolOp::AddRequest(AddRequest {
            entry: ALICE.into(),
            attributes: vec![Attribute::new(
                "objectClass".into(),
                SetOf::from_vec(vec![OctetString::from(b"user".to_vec())]),
            )],
        }),
    );
    let rename = encode_message(
        3,
        ProtocolOp::ModDnRequest(ModifyDnRequest {
            entry: ALICE.into(),
            new_rdn: "cn=al".into(),
            delete_old_rdn: true,
            new_superior: None,
        }),
    );

    for (frame, operation) in [
        (&delete, OperationKind::Delete),
        (&add, OperationKind::Create),
        (&rename, OperationKind::Rename),
    ] {
        let action = connector().decode(frame).unwrap().expect("expected an action");
        assert_eq!(action.operation, operation);
        assert_eq!(action.target, ALICE);
        assert_eq!(action.backend, "ldap");
        assert_eq!(action.blast_radius, 1);
    }
}

#[test]
fn rejections_answer_in_the_kind_of_their_request() {
    let delete = encode_message(1, ProtocolOp::DelRequest(DelRequest(ALICE.into())));
    let add = encode_message(
        2,
        ProtocolOp::AddRequest(AddRequest { entry: ALICE.into(), attributes: vec![] }),
    );
    let rename = encode_message(
        3,
        ProtocolOp::ModDnRequest(ModifyDnRequest {
            entry: ALICE.into(),
            new_rdn: "cn=al".into(),
            delete_old_rdn: true,
            new_superior: None,
        }),
    );
    let reset = extended_frame(4, PASSWORD_MODIFY_OID, Some(password_reset_value(ALICE)));

    let answer = |frame: &[u8]| decode_message(&connector().build_rejection(frame, "no").unwrap());

    let message = answer(&delete);
    assert_eq!(message.message_id, 1);
    match message.protocol_op {
        ProtocolOp::DelResponse(DelResponse(result)) => {
            assert_eq!(result.result_code, ResultCode::UnwillingToPerform);
            assert_eq!(result.diagnostic_message.0, "no");
        }
        other => panic!("expected DelResponse, got {other:?}"),
    }
    let message = answer(&add);
    assert_eq!(message.message_id, 2);
    match message.protocol_op {
        ProtocolOp::AddResponse(AddResponse(result)) => {
            assert_eq!(result.result_code, ResultCode::UnwillingToPerform);
            assert_eq!(result.diagnostic_message.0, "no");
        }
        other => panic!("expected AddResponse, got {other:?}"),
    }
    let message = answer(&rename);
    assert_eq!(message.message_id, 3);
    match message.protocol_op {
        ProtocolOp::ModDnResponse(ModifyDnResponse(result)) => {
            assert_eq!(result.result_code, ResultCode::UnwillingToPerform);
            assert_eq!(result.diagnostic_message.0, "no");
        }
        other => panic!("expected ModDnResponse, got {other:?}"),
    }
    let message = answer(&reset);
    assert_eq!(message.message_id, 4);
    match message.protocol_op {
        ProtocolOp::ExtendedResp(ExtendedResponse { result_code, diagnostic_message, .. }) => {
            assert_eq!(result_code, ResultCode::UnwillingToPerform);
            assert_eq!(diagnostic_message.0, "no");
        }
        other => panic!("expected ExtendedResp, got {other:?}"),
    }
}

#[test]
fn password_resets_name_their_account() {
    let frame = extended_frame(4, PASSWORD_MODIFY_OID, Some(password_reset_value(ALICE)));

    let action = connector().decode(&frame).unwrap().expect("expected an action");

    assert_eq!(action.operation, OperationKind::PasswordReset);
    assert_eq!(action.target, ALICE);
}

#[test]
fn octets_that_are_no_message_are_an_error() {
    let garbage = [0x30u8, 0x01, 0xff];

    assert_eq!(connector().decode(&garbage).unwrap_err(), ConnectorError::Decode);
    assert_eq!(connector().bind_identity(&garbage).unwrap_err(), ConnectorError::Decode);
    assert_eq!(connector().upgrade_request(&garbage).unwrap_err(), ConnectorError::Decode);
    assert_eq!(connector().bind_request(&garbage).unwrap_err(), ConnectorError::Decode);
    assert_eq!(connector().bind_response(&garbage).unwrap_err(), ConnectorError::Decode);
    assert_eq!(connector().build_rejection(&garbage, "no").unwrap_err(), ConnectorError::Decode);
}

#[test]
fn claims_and_their_outcomes_are_recognized() {
    let claim = connector().bind_request(&bind_request_frame(7, ALICE)).unwrap();
    assert_eq!(claim, Some((7, ALICE.to_string())));

    let unauthenticated =
        bind_frame(7, ALICE, AuthenticationChoice::Simple(OctetString::from(Vec::new())));
    assert_eq!(connector().bind_request(&unauthenticated).unwrap(), None);
    assert_eq!(connector().bind_request(&bind_request_frame(7, "")).unwrap(), None);
    assert_eq!(connector().bind_request(&sasl_bind_request_frame(7, ALICE)).unwrap(), None);

    let granted = bind_response_frame(7, ResultCode::Success);
    assert_eq!(connector().bind_response(&granted).unwrap(), Some((7, true)));
    let refused = bind_response_frame(8, ResultCode::InvalidCredentials);
    assert_eq!(connector().bind_response(&refused).unwrap(), Some((8, false)));
    assert_eq!(connector().bind_response(&bind_request_frame(9, ALICE)).unwrap(), None);
}

#[test]
fn starttls_with_the_upstream_is_negotiated() {
    let request = decode_message(&start_tls_request().unwrap());
    assert_eq!(request.message_id, START_TLS_UPSTREAM_MESSAGE_ID);
    match request.protocol_op {
        ProtocolOp::ExtendedReq(ExtendedRequest { request_name, request_value }) => {
            assert_eq!(request_name.to_vec(), START_TLS_OID.as_bytes().to_vec());
            assert!(request_value.is_none());
        }
        other => panic!("expected ExtendedReq, got {other:?}"),
    }

    let answer = |result_code: ResultCode| {
        encode_message(
            1,
            ProtocolOp::ExtendedResp(ExtendedResponse {
                result_code,
                matched_dn: "".into(),
                diagnostic_message: "".into(),
                referral: None,
                response_name: None,
                response_value: None,
            }),
        )
    };
    assert_eq!(check_start_tls_response(&Some(answer(ResultCode::Success))), Ok(()));
    assert_eq!(
        check_start_tls_response(&Some(answer(ResultCode::ProtocolError))),
        Err(StartTlsError::Rejected { result_code: 2 })
    );
    assert_eq!(check_start_tls_response(&None), Err(StartTlsError::Closed));
    assert_eq!(check_start_tls_response(&Some(vec![0x30])), Err(StartTlsError::Unreadable));
    let modified = encode_message(
        1,
        ProtocolOp::ModifyResponse(ModifyResponse(LdapResult::new(
            ResultCode::Success,
            "".into(),
            "".into(),
        ))),
    );
    assert_eq!(
        check_start_tls_response(&Some(modified)),
        Err(StartTlsError::UnexpectedAnswer)
    );
}

#[test]
fn rejections_read_back_whatever_they_carry() {
    for message_id in [0, 127, 128, 0x7fff_ffff, 0x8000_0000, u32::MAX] {
        for reason in ["", "too many locks", &"é".repeat(40_000)] {
            let frame = modify_request_frame(message_id, ALICE, "nsAccountLock", b"true");

            let message =
                decode_message(&connector().build_rejection(&frame, reason).unwrap());

            assert_eq!(message.message_id, message_id);
            match message.protocol_op {
                ProtocolOp::ModifyResponse(ModifyResponse(result)) => {
                    assert_eq!(result.result_code, ResultCode::UnwillingToPerform);
                    assert_eq!(result.matched_dn.0, "");
                    assert_eq!(result.diagnostic_message.0, reason);
                }
                other => panic!("expected ModifyResponse, got {other:?}"),
            }
        }
    }
}

#[test]
fn password_resets_without_an_account_name_none() {
    for value in [None, Some(vec![]), Some(vec![0x30, 0x00]), Some(vec![0x30, 0x02, 0x81, 0x00])] {
        let frame = extended_frame(4, PASSWORD_MODIFY_OID, value);

        let action = connector().decode(&frame).unwrap().expect("expected an action");

        assert_eq!(action.operation, OperationKind::PasswordReset);
        assert_eq!(action.target, "");
    }
}

#[test]
fn modifications_that_can_be_decoded_are_recognized_whatever_they_change() {
    let long_name = "x".repeat(70_000);
    let many_values: Vec<&[u8]> = vec![b"value"; 300];
    for operation in [ChangeOperation::Add, ChangeOperation::Delete, ChangeOperation::Replace] {
        for name in ["", "d", "d\u{e9}partement;lang-fr", "\u{0}", &long_name] {
            for values in [&[][..], &[&b""[..]][..], &many_values[..]] {
                let unrelated = change(operation, name, values);
                let frame = modify_frame(1, ALICE, vec![unrelated.clone()]);
                assert!(connector().decode(&frame).unwrap().is_none());

                let lock = change(ChangeOperation::Add, "nsAccountLock", &[b"true"]);
                let frame = modify_frame(1, ALICE, vec![unrelated, lock]);
                let action = connector().decode(&frame).unwrap().expect("expected an action");
                assert_eq!(action.operation, OperationKind::AccountLock);
            }
        }
    }
    assert!(connector().decode(&modify_frame(1, ALICE, vec![])).unwrap().is_none());
}

#[test]
fn upgrade_confirmations_read_back_whatever_the_message_id() {
    for message_id in [0, 127, 128, 0x7fff_ffff, 0x8000_0000, u32::MAX] {
        let frame = extended_request_frame(message_id, START_TLS_OID);

        let response = connector().upgrade_request(&frame).unwrap().expect("a confirmation");
        let message = decode_message(&response);

        assert_eq!(message.message_id, message_id);
        match message.protocol_op {
            ProtocolOp::ExtendedResp(answer) => {
                assert_eq!(answer.result_code, ResultCode::Success);
                assert_eq!(answer.matched_dn.0, "");
                assert_eq!(answer.diagnostic_message.0, "");
            }
            other => panic!("expected ExtendedResp, got {other:?}"),
        }
        assert_eq!(check_start_tls_response(&Some(response)), Ok(()));
    }
}
