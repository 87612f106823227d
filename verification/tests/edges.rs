use spirit::apply_ingress::{AuthorizedApplyOutcome, CarriedHex, EvaluationDecision, PreparedAuthorizedApply};
use spirit::config::{Configuration, ConfigurationError};
use spirit::criome_gate::{CriomeAuthorization, CriomeGate, GateDecision};
use spirit::digest::{state_digest, ArchivedRow};
use spirit::engine::Engine;
use spirit::origination::RouterOrigination;
use spirit::shipper::{check_replayed_suffix, plan_authorized_suffix, MirrorShipperError, OutboxRow, SuffixPlan};
use spirit::guardian::{
    AdmissionJudgeResponse, AdmissionJudgeVerdict, AdmissionRejectionProjection,
    AdmissionRejectionReason, AgentGuardian, AgentGuardianConfiguration, AgentGuardianError,
    JudgeDiagnostic, JudgeDiagnosticProjection, ReferentRegistrationRejectionReason,
    ReferentRejectionProjection, RequestRejectionProjection, SpiritJudgeReply,
    SpiritJudgeRequestRejectionReason,
};
use spirit::identifier::RecordIdentifierCodeRange;
use spirit::ledger::{
    MailLedger, MailLedgerEvent, MessageIdentifier, MessageProcessed, MessageSent, OriginRoute,
    SignalObjectName,
};
use spirit::magnitude::{Certainty, Importance, Magnitude, Privacy};
use spirit::nexus::{ApplyRefusalReason, Input, Output};
use spirit::query::Entry;
use spirit::record::{Description, Domain, Domains, Kind, Referent, Referents};
use spirit::render::{
    RenderClient, RenderDirectory, RenderInput, RenderReferent, RenderReferents, RenderRequest,
    RenderTimestamp, RenderedIntent,
};
use spirit::store::{DatabaseMarker, Store};
use spirit::tables::{ClassificationPolicy, Statement, StashTable};
use spirit::trace_event::{NexusObjectName, ObjectName, SemaObjectName, TraceEvent};
use spirit::verdict::{GuardianRejectionReason, GuardianVerdict, RecordSet, ReferentGuardianRejectionReason};

fn plain_entry() -> Entry {
    Entry {
        domains: Domains::new(vec![Domain::new(vec!["Technology".to_string()])]),
        kind: Kind::new("Constraint"),
        description: Description::new("text"),
        certainty: Certainty::new(Magnitude::Low),
        importance: Importance::new(Magnitude::Low),
        privacy: Privacy::new(Magnitude::Zero),
        referents: Referents::new(vec![Referent::new("spirit")]),
    }
}

#[test]
fn hex_bodies_decode_or_are_malformed() {
    assert_eq!(CarriedHex::new("0aFF").octets().unwrap(), vec![10u8, 255u8]);
    assert_eq!(CarriedHex::new("").octets().unwrap(), Vec::<u8>::new());
    assert!(matches!(CarriedHex::new("abc").octets(), Err(ApplyRefusalReason::MalformedRecord)));
    assert!(matches!(CarriedHex::new("zz").octets(), Err(ApplyRefusalReason::MalformedRecord)));
}

#[test]
fn an_apply_is_checked_then_gated() {
    let digest = vec![1u8, 2, 3];
    let other = vec![9u8];
    let mismatch = PreparedAuthorizedApply::prepare(&digest, &other, "abcd".to_string(), &"abcd".to_string(), plain_entry());
    assert!(matches!(mismatch, Err(ApplyRefusalReason::RehashMismatch)));
    let misnamed = PreparedAuthorizedApply::prepare(&digest, &digest, "abcd".to_string(), &"wxyz".to_string(), plain_entry());
    assert!(matches!(misnamed, Err(ApplyRefusalReason::MalformedRecord)));
    let prepared = PreparedAuthorizedApply::prepare(&digest, &digest, "abcd".to_string(), &"abcd".to_string(), plain_entry()).unwrap();
    let mut store = Store::open("/tmp/apply.sema".to_string(), Vec::new(), Vec::new(), 0, 0).unwrap();
    let denied = prepared.resolve(&EvaluationDecision::Rejected, &mut store);
    assert!(matches!(denied, AuthorizedApplyOutcome::Refused(ApplyRefusalReason::AuthorizationDenied)));
    let prepared = PreparedAuthorizedApply::prepare(&digest, &digest, "abcd".to_string(), &"abcd".to_string(), plain_entry()).unwrap();
    let unregistered = prepared.resolve(&EvaluationDecision::Authorized, &mut store);
    assert!(matches!(unregistered, AuthorizedApplyOutcome::Refused(ApplyRefusalReason::MalformedRecord)));
    assert!(matches!(
        AuthorizedApplyOutcome::Refused(ApplyRefusalReason::RehashMismatch).into_output(),
        Output::ApplyRefused(ApplyRefusalReason::RehashMismatch)
    ));
}

#[test]
fn an_enabled_criome_refuses_head_advances_only() {
    let statement = Input::State(Statement("x".to_string()));
    assert!(CriomeAuthorization::Disabled.admits(&statement));
    assert!(!CriomeAuthorization::Enabled.admits(&statement));
    assert!(CriomeAuthorization::Enabled.admits(&Input::Version));
    assert!(CriomeAuthorization::Enabled.admits(&Input::LookupStash(3)));
    let mut gate = CriomeGate::new();
    assert_eq!(gate.authorization(), CriomeAuthorization::Disabled);
    gate.set_authorization(CriomeAuthorization::Enabled);
    assert_eq!(gate.authorization(), CriomeAuthorization::Enabled);
    let decision = gate.authorize_head(&vec![0u8; 32]).unwrap();
    assert_eq!(decision, GateDecision::Unconfigured);
    assert!(!decision.ships());
    assert!(GateDecision::Authorized.ships());
}

#[test]
fn the_state_digest_is_blake3_over_the_framed_rows() {
    assert_eq!(state_digest(5, &Vec::new(), &Vec::new()), 0);
    let rows = vec![ArchivedRow { key: "abcd".to_string(), archive: vec![1, 2, 3] }];
    let referents = vec![ArchivedRow { key: "spirit".to_string(), archive: vec![4] }];
    let mut framed = Vec::new();
    framed.extend_from_slice(&7u64.to_le_bytes());
    framed.extend_from_slice(b"abcd");
    framed.extend_from_slice(&[1, 2, 3]);
    framed.extend_from_slice(b"spirit");
    framed.extend_from_slice(&[4]);
    let hash = blake3::hash(&framed);
    let mut head = [0u8; 8];
    head.copy_from_slice(&hash.as_bytes()[..8]);
    assert_eq!(state_digest(7, &rows, &referents), u64::from_le_bytes(head));
    assert_ne!(state_digest(7, &rows, &referents), state_digest(8, &rows, &referents));
}

#[test]
fn judge_reasons_carry_over() {
    assert_eq!(
        AdmissionRejectionProjection::new(AdmissionRejectionReason::JudgeTimedOut).into_signal(),
        GuardianRejectionReason::HarnessTimedOut
    );
    assert_eq!(
        AdmissionRejectionProjection::new(AdmissionRejectionReason::Overstated).into_signal(),
        GuardianRejectionReason::Overstated
    );
    assert_eq!(
        ReferentRejectionProjection::new(ReferentRegistrationRejectionReason::JudgeMalformed).into_signal(),
        ReferentGuardianRejectionReason::HarnessMalformed
    );
    assert_eq!(
        RequestRejectionProjection::new(SpiritJudgeRequestRejectionReason::ProviderRejected).to_guardian_reason(),
        GuardianRejectionReason::HarnessUnavailable
    );
    assert_eq!(
        RequestRejectionProjection::new(SpiritJudgeRequestRejectionReason::InvalidRequest).to_referent_reason(),
        ReferentGuardianRejectionReason::HarnessMalformed
    );
}

#[test]
fn a_diagnostic_lists_its_hashes() {
    let plain = JudgeDiagnosticProjection::new(JudgeDiagnostic {
        redacted_text: "could is hedged".to_string(),
        content_hashes: Vec::new(),
    })
    .into_explanation();
    assert_eq!(plain.0, "could is hedged");
    let hashed = JudgeDiagnosticProjection::new(JudgeDiagnostic {
        redacted_text: "private".to_string(),
        content_hashes: vec!["aa".to_string(), "bb".to_string()],
    })
    .into_explanation();
    assert_eq!(hashed.0, "private [aa, bb]");
}

#[test]
fn an_unreachable_judge_fails_closed() {
    let guardian = AgentGuardian::new(AgentGuardianConfiguration::local_openai_compatible("/tmp/judge.sock".to_string()));
    let marker = DatabaseMarker { commit_sequence: 1, state_digest: 2 };
    let timed_out = guardian.decide(
        Err(AgentGuardianError::Socket { timed_out: true, message: "timed out".to_string() }),
        RecordSet(Vec::new()),
        marker,
    );
    match timed_out.verdict {
        GuardianVerdict::Reject(reject) => {
            assert_eq!(reject.guardian_rejection_reason, GuardianRejectionReason::HarnessTimedOut);
            assert_eq!(reject.explanation.0, "spirit judge socket unavailable: timed out");
        }
        GuardianVerdict::Accept => panic!("an unreachable judge must not accept"),
    }
    let accepted = guardian.decide(
        Ok(SpiritJudgeReply::AdmissionJudged(AdmissionJudgeResponse {
            verdict: AdmissionJudgeVerdict::Accept,
            diagnostic: JudgeDiagnostic { redacted_text: String::new(), content_hashes: Vec::new() },
        })),
        RecordSet(Vec::new()),
        marker,
    );
    assert!(accepted.into_guardian_rejection().is_none());
    assert_eq!(guardian.configuration.timeout(), 180_000);
    assert!(guardian.configuration.provider_name().is_none());
}

#[test]
fn render_requests_are_validated_and_queried() {
    let empty = RenderInput::Render(RenderRequest::new(RenderReferents::new(Vec::new()), None)).into_request();
    assert!(empty.is_err());
    let request = RenderInput::Render(RenderRequest::new(
        RenderReferents::new(vec![RenderReferent::new("spirit".to_string())]),
        Some(RenderDirectory::new("/tmp/out".to_string())),
    ))
    .into_request()
    .unwrap();
    assert_eq!(request.output_path(&"/ignored".to_string()), "/tmp/out/spirit.nota");
    let here = RenderRequest::new(RenderReferents::new(vec![RenderReferent::new("spirit".to_string())]), None);
    assert_eq!(here.output_path(&"/home/me/".to_string()), "/home/me/spirit.nota");
    let query = request.query();
    assert!(matches!(query.certainty_selection, spirit::magnitude::CertaintySelection::AtLeastCertainty(c) if c == Certainty::new(Magnitude::Minimum)));
    let missed = RenderClient::records_from_output(Output::Error("no matching record".to_string())).unwrap();
    assert!(missed.is_empty());
    assert!(RenderClient::records_from_output(Output::Error("boom".to_string())).is_err());
}

#[test]
fn configuration_paths_and_errors() {
    let configuration = Configuration::new("/tmp/s.sock".to_string(), "/tmp/s.sema".to_string())
        .with_meta_socket_path("/tmp/m.sock".to_string());
    assert_eq!(configuration.socket_path(), "/tmp/s.sock");
    assert_eq!(configuration.meta_socket_path().map(|p| p.as_str()), Some("/tmp/m.sock"));
    assert!(configuration.trace_socket_path().is_none());
    assert_eq!(
        ConfigurationError::ArchiveDecode.message(),
        "failed to decode binary configuration"
    );
}

#[test]
fn trace_names_follow_their_plane() {
    assert_eq!(TraceEvent::new(ObjectName::Signal(SignalObjectName::Admitted)).name(), "SignalAdmitted");
    assert_eq!(ObjectName::Nexus(NexusObjectName::Started).name(), "NexusStarted");
    assert_eq!(ObjectName::Sema(SemaObjectName::WriteApplied).name(), "SemaWriteApplied");
}

#[test]
fn identifiers_of_four_characters_start_at_zero() {
    let range = RecordIdentifierCodeRange::new(4);
    assert_eq!(range.first_value, 0);
    assert_eq!(range.value_count, 1_679_616);
    assert_eq!(range.identifier_from_draw(0), "0000");
    assert_eq!(range.identifier_from_draw(35), "000z");
    assert_eq!(range.identifier_from_draw(36), "0010");
}

#[test]
fn a_statement_is_classified_under_the_default_policy() {
    let request = ClassificationPolicy::default_policy().classify(Statement("say it".to_string()));
    assert_eq!(request.entry.description.0, "say it");
    assert_eq!(request.entry.domains.0[0].0, vec!["Information".to_string(), "Documentation".to_string()]);
    assert_eq!(request.justification.testimony.len(), 1);
    assert_eq!(request.justification.reasoning, "say it");
}

#[test]
fn a_stash_hands_back_what_was_put() {
    let mut table = StashTable::new();
    let marker = DatabaseMarker { commit_sequence: 3, state_digest: 4 };
    let result = table.put(Vec::new(), marker);
    assert_eq!(result.stash_handle, 1);
    assert_eq!(result.record_count, 0);
    let (records, sealed) = table.lookup(&1).unwrap();
    assert!(records.is_empty());
    assert_eq!(sealed, marker);
    assert!(table.lookup(&2).is_none());
    assert_eq!(table.len(), 1);
}

#[test]
fn magnitudes_saturate_at_maximum() {
    assert_eq!(Magnitude::Maximum.next(), Magnitude::Maximum);
    assert_eq!(Magnitude::Zero.next(), Magnitude::Minimum);
    assert_eq!(Magnitude::High.rank(), 5);
}

#[test]
fn the_engine_lands_a_foreign_apply_only_on_an_authorized_decision() {
    let store = Store::open("/tmp/engine-apply.sema".to_string(), Vec::new(), Vec::new(), 0, 0).unwrap();
    let mut engine = Engine::new(store);
    let digest = vec![7u8, 7];
    let prepare = || {
        let mut entry = plain_entry();
        entry.referents = Referents::new(Vec::new());
        PreparedAuthorizedApply::prepare(&digest, &digest, "wxyz".to_string(), &"wxyz".to_string(), entry)
    };
    assert!(matches!(
        engine.apply_authorized_record(Err(ApplyRefusalReason::RehashMismatch), Some(EvaluationDecision::Authorized)),
        Output::ApplyRefused(ApplyRefusalReason::RehashMismatch)
    ));
    assert!(matches!(
        engine.apply_authorized_record(prepare(), None),
        Output::ApplyRefused(ApplyRefusalReason::AuthorizationUnavailable)
    ));
    assert!(matches!(
        engine.apply_authorized_record(prepare(), Some(EvaluationDecision::Deferred)),
        Output::ApplyRefused(ApplyRefusalReason::AuthorizationDenied)
    ));
    assert_eq!(engine.record_count(), 0);
    assert!(matches!(
        engine.apply_authorized_record(prepare(), Some(EvaluationDecision::Authorized)),
        Output::RecordApplied(_)
    ));
    assert_eq!(engine.record_count(), 1);
}

#[test]
fn the_default_classification_policy_is_the_named_default() {
    let defaulted = ClassificationPolicy::default();
    let named = ClassificationPolicy::default_policy();
    assert_eq!(
        format!("{:?}", defaulted.classify(Statement("same".to_string()))),
        format!("{:?}", named.classify(Statement("same".to_string())))
    );
}

#[test]
fn origination_hex_is_what_the_ingress_decodes() {
    let octets = vec![0u8, 1, 15, 16, 171, 255];
    let text = RouterOrigination::to_hex(&octets);
    assert_eq!(text, "00010f10abff");
    assert_eq!(CarriedHex::new(&text).octets().unwrap(), octets);
    assert_eq!(RouterOrigination::to_hex(&Vec::new()), "");
    let origination = RouterOrigination::new(
        "/tmp/router.sock".to_string(),
        "spirit-a".to_string(),
        "spirit-b".to_string(),
    );
    assert_eq!(origination.router_socket(), "/tmp/router.sock");
}

#[test]
fn a_rendered_document_carries_its_header_then_the_records() {
    let rendered = RenderedIntent::new(
        RenderRequest::new(RenderReferents::new(vec![RenderReferent::new("spirit".to_string())]), None),
        Output::Error("marker".to_string()),
        Output::Error("records".to_string()),
        RenderTimestamp::new(1700000000),
    );
    assert_eq!(
        rendered.document("(MarkerReported 3)", "(RecordsObserved [])"),
        ";; @generated by spirit-render\n;; generator-version: 0.1.0\n;; generated-unix-timestamp-seconds: 1700000000\n;; spirit-marker: (MarkerReported 3)\n;; privacy-filter: Zero\n;; certainty-filter: AtLeast Minimum\n;; criome-auth-reference: None\n(RecordsObserved [])\n"
    );
}

#[test]
fn the_ledger_hook_logs_each_handoff_and_reply() {
    let mut ledger = MailLedger::new();
    {
        let mut hook = ledger.hook();
        assert!(MessageSent::new(MessageIdentifier(7), OriginRoute(3), 9).push_to(&mut hook).is_ok());
        assert!(MessageProcessed::new(MessageIdentifier(7), OriginRoute(3), "reply".to_string())
            .push_to(&mut hook)
            .is_ok());
    }
    let events = ledger.events();
    assert_eq!(events.len(), 2);
    match (&events[0], &events[1]) {
        (MailLedgerEvent::Sent(sent), MailLedgerEvent::Processed(processed)) => {
            assert_eq!(sent.mail_identifier.0, 7);
            assert_eq!(sent.origin_route.0, 3);
            assert_eq!(sent.short_header.0, 9);
            assert_eq!(processed.mail_identifier.0, 7);
            assert_eq!(processed.origin_route.0, 3);
        }
        other => panic!("expected a sent then a processed line, got {other:?}"),
    }
}

#[test]
fn only_the_authorized_suffix_ships() {
    let outbox = vec![
        OutboxRow { entry_digest: vec![1], commit_sequence: 4 },
        OutboxRow { entry_digest: vec![2], commit_sequence: 5 },
        OutboxRow { entry_digest: vec![3], commit_sequence: 6 },
    ];
    assert_eq!(
        plan_authorized_suffix(&outbox, &vec![2]),
        SuffixPlan::Ship { first_sequence: 4, rows: 2 }
    );
    assert_eq!(plan_authorized_suffix(&outbox, &vec![9]), SuffixPlan::AlreadyCommitted);
    assert_eq!(check_replayed_suffix(2, 3).unwrap(), 2);
    match check_replayed_suffix(2, 1) {
        Err(error @ MirrorShipperError::AuthorizedSuffix { .. }) => assert_eq!(
            error.message(),
            "authorized-suffix ship failed: outbox names 2 authorized rows but the replay yields 1 entries"
        ),
        other => panic!("expected a short replay, got {other:?}"),
    }
}
