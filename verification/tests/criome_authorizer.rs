use spirit::criome_gate::{
    AuthorizationStateRecord, AuthorizationStatus, AuthorizationStep, CriomeGateError, CriomeReply,
    PendingAuthorizationObservation, SpiritAuthorizationContext, SpiritOperationAuthorization,
    SpiritOperationAuthorizer,
};
use spirit::engine::AuthorizationMode;
use spirit::guardian_journal::GuardianOperation;
use spirit::justification::Justification;
use spirit::store::{RecordIdentifier, Retirement};

fn configured() -> SpiritOperationAuthorizer {
    let mut authorizer = SpiritOperationAuthorizer::new();
    authorizer.configure_socket("/tmp/criome.sock".to_string());
    authorizer
}

fn granted(digest: &[u8]) -> CriomeReply {
    CriomeReply::AuthorizationGranted {
        authorized_object_digest: digest.to_vec(),
        description: "granted".to_string(),
    }
}

fn state(status: AuthorizationStatus, digest: &[u8], grant: Option<&[u8]>) -> AuthorizationStateRecord {
    AuthorizationStateRecord {
        request_digest: digest.to_vec(),
        status,
        grant_digest: grant.map(|g| g.to_vec()),
        denial: "Policy".to_string(),
        description: "state".to_string(),
    }
}

#[test]
fn an_unconfigured_authorizer_allows_every_operation() {
    let authorizer = SpiritOperationAuthorizer::new();
    assert!(!authorizer.is_configured());
    assert_eq!(authorizer.process_key(), "spirit-process-main");
    match authorizer.authorization_step(None, &vec![1], AuthorizationMode::Gating) {
        AuthorizationStep::Decided(Ok(SpiritOperationAuthorization::Allowed)) => {}
        other => panic!("expected an allowance, got {other:?}"),
    }
}

#[test]
fn an_unreachable_criome_blocks() {
    match configured().authorization_step(None, &vec![1], AuthorizationMode::Gating) {
        AuthorizationStep::Decided(Ok(SpiritOperationAuthorization::Blocked(text))) => {
            assert_eq!(text, "criome operation authorization unreachable")
        }
        other => panic!("expected a block, got {other:?}"),
    }
}

#[test]
fn gating_needs_a_grant_for_this_request() {
    let authorizer = configured();
    let digest = vec![7, 7, 7];
    assert!(matches!(
        authorizer.authorization_from_reply(&granted(&digest), &digest, AuthorizationMode::Gating),
        Ok(SpiritOperationAuthorization::Allowed)
    ));
    assert!(matches!(
        authorizer.authorization_from_reply(&granted(&[9]), &digest, AuthorizationMode::Gating),
        Err(CriomeGateError::UnexpectedReply(_))
    ));
    match authorizer.authorization_from_reply(
        &CriomeReply::AuthorizationDenied("Denied(Policy)".to_string()),
        &digest,
        AuthorizationMode::Gating,
    ) {
        Ok(SpiritOperationAuthorization::Blocked(text)) => assert_eq!(text, "Denied(Policy)"),
        other => panic!("expected a block, got {other:?}"),
    }
    assert!(matches!(
        authorizer.authorization_from_reply(
            &CriomeReply::Other("Pong".to_string()),
            &digest,
            AuthorizationMode::Gating
        ),
        Err(CriomeGateError::UnexpectedReply(_))
    ));
}

#[test]
fn observing_allows_whatever_the_verdict() {
    let authorizer = configured();
    let digest = vec![1, 2];
    assert!(matches!(
        authorizer.authorization_from_reply(
            &CriomeReply::AuthorizationDenied("Denied".to_string()),
            &digest,
            AuthorizationMode::Observing
        ),
        Ok(SpiritOperationAuthorization::Allowed)
    ));
    assert!(authorizer.validate_observed_reply(&granted(&[3]), &digest).is_err());
}

#[test]
fn a_parked_gating_request_is_watched_until_it_settles() {
    let authorizer = configured();
    let digest = vec![4, 4];
    let parked = CriomeReply::AuthorizationPending {
        request_slot: "slot-9".to_string(),
        description: "pending".to_string(),
    };
    match authorizer.authorization_step(Some(parked), &digest, AuthorizationMode::Gating) {
        AuthorizationStep::AwaitPending(slot) => assert_eq!(slot, "slot-9"),
        other => panic!("expected to wait, got {other:?}"),
    }
    let waiting = authorizer.observe_pending_authorization(
        Some(CriomeReply::AuthorizationObservationSnapshot(vec![state(
            AuthorizationStatus::Signing,
            &digest,
            None,
        )])),
        &digest,
    );
    assert!(matches!(waiting, Ok(PendingAuthorizationObservation::Waiting)));
    assert!(authorizer
        .wait_for_pending_authorization(false, &"slot-9".to_string(), waiting)
        .is_none());
    let allowed = authorizer.observe_pending_authorization(
        Some(CriomeReply::AuthorizationObservationSnapshot(vec![state(
            AuthorizationStatus::Granted,
            &digest,
            Some(&digest),
        )])),
        &digest,
    );
    assert!(matches!(
        authorizer.wait_for_pending_authorization(false, &"slot-9".to_string(), allowed),
        Some(Ok(SpiritOperationAuthorization::Allowed))
    ));
    match authorizer.wait_for_pending_authorization(
        true,
        &"slot-9".to_string(),
        Ok(PendingAuthorizationObservation::Waiting),
    ) {
        Some(Ok(SpiritOperationAuthorization::Blocked(text))) => assert_eq!(
            text,
            "criome operation authorization timed out waiting for parked request slot-9"
        ),
        other => panic!("expected a timeout block, got {other:?}"),
    }
}

#[test]
fn parked_states_settle_as_criome_reports_them() {
    let authorizer = configured();
    let digest = vec![5];
    match authorizer.pending_authorization_from_state(&state(AuthorizationStatus::Denied, &digest, None), &digest) {
        Ok(PendingAuthorizationObservation::Blocked(text)) => {
            assert_eq!(text, "criome operation authorization denied: Policy")
        }
        other => panic!("expected a block, got {other:?}"),
    }
    match authorizer.pending_authorization_from_state(&state(AuthorizationStatus::Expired, &digest, None), &digest) {
        Ok(PendingAuthorizationObservation::Blocked(text)) => {
            assert_eq!(text, "criome operation authorization expired")
        }
        other => panic!("expected a block, got {other:?}"),
    }
    assert!(authorizer
        .pending_authorization_from_state(&state(AuthorizationStatus::Parked, &[6], None), &digest)
        .is_err());
    match authorizer.observe_pending_authorization(None, &digest) {
        Ok(PendingAuthorizationObservation::Blocked(text)) => {
            assert_eq!(text, "criome operation authorization unreachable while waiting")
        }
        other => panic!("expected a block, got {other:?}"),
    }
    assert!(matches!(
        authorizer.observe_pending_authorization(
            Some(CriomeReply::AuthorizationObservationSnapshot(Vec::new())),
            &digest
        ),
        Ok(PendingAuthorizationObservation::Waiting)
    ));
}

#[test]
fn a_signal_call_names_the_spirit_contract() {
    let authorizer = configured();
    let nonce = authorizer.replay_nonce(1234);
    assert_eq!(nonce, "spirit-operation-1234");
    let call = authorizer.signal_call_authorization(
        SpiritAuthorizationContext {
            operation_name: "Record".to_string(),
            raw_payload: "(Record ...)".to_string(),
            target_key: "spirit-process-main".to_string(),
        },
        vec![1, 2, 3],
        nonce,
    );
    assert_eq!(call.contract_name, "signal-spirit");
    assert_eq!(call.operation_head, "Record");
    assert_eq!(call.authorization_scope, "spirit-operation");
    assert_eq!(call.host_identity, "spirit");
    assert_eq!(call.request_digest, vec![1, 2, 3]);
}

#[test]
fn an_operation_asks_criome_under_its_own_name() {
    let operation = GuardianOperation::retire(Retirement {
        record_identifier: RecordIdentifier("abcd".to_string()),
        justification: Justification {
            testimony: Vec::new(),
            reasoning: "no longer wanted".to_string(),
        },
    });
    let authorizer = configured();
    let context = operation.authorization_context(authorizer.process_key(), "(Retire abcd)".to_string());
    assert_eq!(context.operation_name, "Retire");
    assert_eq!(context.raw_payload, "(Retire abcd)");
    assert_eq!(context.target_key, "spirit-process-main");
}
