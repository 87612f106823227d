use spirit::guardian::{
    AdmissionJudgeResponse, AdmissionJudgeVerdict, AdmissionRejectionReason, AgentGuardian,
    AgentGuardianConfiguration, AgentGuardianError, JudgeDiagnostic, ReferentRegistrationJudgeResponse,
    ReferentRegistrationJudgeVerdict, ReferentRegistrationRejectionReason, SpiritJudgeReply,
};
use spirit::guardian_context::{text_less, GuardianRecordBundle, GUARDIAN_RECORD_LIMIT};
use spirit::guardian::{reply_from_frame, JudgeFrameBody, JudgeFrameReply, SpiritJudgeRequest, SubReply};
use spirit::guardian_journal::{GuardianOperation, JudgmentScope};
use spirit::justification::{Justification, VerbatimQuote};
use spirit::magnitude::{Certainty, Importance, Magnitude, Privacy};
use spirit::nexus::{EffectCommand, EffectResult, Input, Nexus, NexusWork, Output};
use spirit::query::Entry;
use spirit::record::{Description, Domain, Domains, Kind, Referent, Referents};
use spirit::referent::ReferentRegistration;
use spirit::store::{Clarification, ObservedRecord, RecordIdentifier, Retirement, Store};
use spirit::tables::RecordRequest;
use spirit::verdict::{GuardianRejectionReason, RecordSet, ReferentGuardianRejectionReason};

fn justification(text: &str) -> Justification {
    Justification {
        testimony: vec![VerbatimQuote {
            quote_text: text.to_string(),
            source: None,
        }],
        reasoning: text.to_string(),
    }
}

fn entry(description: &str, kind: &str, domain: &str, referent: &str) -> Entry {
    Entry {
        domains: Domains::new(vec![Domain::new(vec!["Technology".to_string(), domain.to_string()])]),
        kind: Kind::new(kind),
        description: Description::new(description),
        certainty: Certainty::new(Magnitude::Medium),
        importance: Importance::new(Magnitude::Low),
        privacy: Privacy::new(Magnitude::Zero),
        referents: Referents::new(vec![Referent::new(referent)]),
    }
}

fn registration(name: &str) -> ReferentRegistration {
    ReferentRegistration {
        referent: Referent::new(name),
        aliases: Referents::new(Vec::new()),
        justification: justification("register it"),
    }
}

fn store() -> Store {
    let mut store =
        Store::open("/tmp/guardian.sema".to_string(), Vec::new(), Vec::new(), 0, 0).unwrap();
    store.register_referent(registration("spirit")).unwrap();
    store.register_referent(registration("socket")).unwrap();
    store
}

fn record_request(description: &str) -> RecordRequest {
    RecordRequest {
        entry: entry(description, "Constraint", "Software", "spirit"),
        justification: justification("the owner said so"),
    }
}

fn guardian() -> AgentGuardian {
    AgentGuardian::new(AgentGuardianConfiguration::local_openai_compatible(
        "/tmp/judge.sock".to_string(),
    ))
}

fn diagnostic(text: &str) -> JudgeDiagnostic {
    JudgeDiagnostic {
        redacted_text: text.to_string(),
        content_hashes: vec!["h1".to_string(), "h2".to_string()],
    }
}

fn admission(verdict: AdmissionJudgeVerdict) -> Option<Result<SpiritJudgeReply, AgentGuardianError>> {
    Some(Ok(SpiritJudgeReply::AdmissionJudged(AdmissionJudgeResponse {
        verdict,
        diagnostic: diagnostic("judged"),
    })))
}

#[test]
fn a_required_guardian_without_an_agent_refuses_every_write() {
    let mut nexus = Nexus::new(store());
    nexus.require_guardian();
    let reply = nexus.execute_to_reply(NexusWork::SignalArrived(Input::Record(record_request(
        "schema creates the interface",
    ))));
    match reply {
        Output::GuardianRejected(rejection) => {
            assert_eq!(
                rejection.guardian_rejection_reason,
                GuardianRejectionReason::HarnessUnavailable
            );
            assert_eq!(
                rejection.explanation.0,
                "guardian is required but no guardian agent is configured"
            );
        }
        other => panic!("expected a guardian refusal, got {other:?}"),
    }
    assert_eq!(nexus.store().len(), 0);
    assert_eq!(nexus.store().guardian_decision_count(), 1);
}

#[test]
fn an_unregistered_referent_is_refused_by_a_required_guardian() {
    let mut nexus = Nexus::new(store());
    nexus.require_guardian();
    let request = RecordRequest {
        entry: entry("new things", "Constraint", "Software", "brand-new"),
        justification: justification("the owner said so"),
    };
    match nexus.execute_to_reply(NexusWork::SignalArrived(Input::Record(request))) {
        Output::ReferentGuardianRejected(rejection) => assert_eq!(
            rejection.referent_guardian_rejection_reason,
            ReferentGuardianRejectionReason::HarnessUnavailable
        ),
        other => panic!("expected a referent refusal, got {other:?}"),
    }
    assert_eq!(nexus.store().guardian_decision_count(), 1);
}

#[test]
fn an_unguarded_nexus_records_without_journaling() {
    let mut nexus = Nexus::new(store());
    match nexus.execute_to_reply(NexusWork::SignalArrived(Input::Record(record_request(
        "schema creates the interface",
    )))) {
        Output::RecordAccepted(_) => {}
        other => panic!("expected the record to be accepted, got {other:?}"),
    }
    assert_eq!(nexus.store().len(), 1);
    assert_eq!(nexus.store().guardian_decision_count(), 0);
}

#[test]
fn the_judges_verdict_decides_a_guarded_write() {
    let mut nexus = Nexus::new(store());
    nexus.set_guardian(guardian());
    let accepted = nexus
        .guard_record(record_request("first"), admission(AdmissionJudgeVerdict::Accept))
        .unwrap();
    assert!(accepted.is_ok());
    assert_eq!(nexus.store().len(), 1);
    let refused = nexus
        .guard_record(
            record_request("second"),
            admission(AdmissionJudgeVerdict::Reject(AdmissionRejectionReason::Overstated)),
        )
        .unwrap();
    match refused {
        Err(rejection) => {
            assert_eq!(rejection.guardian_rejection_reason, GuardianRejectionReason::Overstated);
            assert_eq!(rejection.explanation.0, "judged [h1, h2]");
        }
        Ok(_) => panic!("expected a refusal"),
    }
    assert_eq!(nexus.store().len(), 1);
    assert_eq!(nexus.store().guardian_decision_count(), 2);
}

#[test]
fn a_judge_that_cannot_be_reached_refuses() {
    let mut nexus = Nexus::new(store());
    nexus.set_guardian(guardian());
    let operation = GuardianOperation::record(record_request("third"));
    let refusal = nexus
        .guard_model(
            operation,
            Some(Err(AgentGuardianError::Socket {
                timed_out: true,
                message: "timed out".to_string(),
            })),
        )
        .unwrap();
    assert_eq!(
        refusal.unwrap().guardian_rejection_reason,
        GuardianRejectionReason::HarnessTimedOut
    );
}

#[test]
fn a_duplicate_verdict_raises_the_existing_records_importance() {
    let mut nexus = Nexus::new(store());
    nexus.set_guardian(guardian());
    nexus
        .guard_record(record_request("same arrow"), admission(AdmissionJudgeVerdict::Accept))
        .unwrap()
        .unwrap();
    let refused = nexus
        .guard_record(
            record_request("  Same Arrow "),
            admission(AdmissionJudgeVerdict::Reject(AdmissionRejectionReason::Duplicate)),
        )
        .unwrap();
    match refused {
        Err(rejection) => {
            assert_eq!(rejection.guardian_rejection_reason, GuardianRejectionReason::Duplicate);
            assert_eq!(rejection.explanation.0, "guardian judged the write as a duplicate");
            assert_eq!(rejection.record_set.0.len(), 1);
            assert_eq!(
                rejection.record_set.0[0].entry.importance.payload().clone(),
                Magnitude::Medium
            );
        }
        Ok(_) => panic!("expected a duplicate refusal"),
    }
    assert_eq!(nexus.store().len(), 1);
}

#[test]
fn referent_registrations_go_before_the_guardian() {
    let mut nexus = Nexus::new(store());
    nexus.set_guardian(guardian());
    // Already registered: answered without the judge.
    let settled = nexus.guard_referent_registration(registration("spirit"), None).unwrap();
    assert_eq!(settled.unwrap().0 .0, "spirit");
    assert_eq!(nexus.store().guardian_decision_count(), 0);
    let refused = nexus
        .guard_referent_registration(
            registration("vague-thing"),
            Some(Ok(SpiritJudgeReply::ReferentRegistrationJudged(
                ReferentRegistrationJudgeResponse {
                    verdict: ReferentRegistrationJudgeVerdict::RejectReferent(
                        ReferentRegistrationRejectionReason::TooVague,
                    ),
                    diagnostic: diagnostic("too vague"),
                },
            ))),
        )
        .unwrap();
    assert_eq!(
        refused.unwrap_err().referent_guardian_rejection_reason,
        ReferentGuardianRejectionReason::TooVague
    );
    let accepted = nexus
        .guard_referent_registration(
            registration("daemon"),
            Some(Ok(SpiritJudgeReply::ReferentRegistrationJudged(
                ReferentRegistrationJudgeResponse {
                    verdict: ReferentRegistrationJudgeVerdict::Accept,
                    diagnostic: diagnostic("fine"),
                },
            ))),
        )
        .unwrap();
    assert_eq!(accepted.unwrap().0 .0, "daemon");
    assert_eq!(nexus.store().guardian_decision_count(), 2);
}

#[test]
fn relevance_scores_follow_the_published_weights() {
    let existing = entry("the *socket* writes are framed", "Constraint", "Software", "socket");
    let same = entry("The *Socket* writes are framed ", "Constraint", "Software", "socket");
    // duplicate 100 + domain 30 + referent 30 + keyword 20 + text 10 + kind 1
    assert_eq!(existing.guardian_relevance_score(&same), 191);
    let other = entry("unrelated", "Preference", "Hardware", "spirit");
    assert_eq!(existing.guardian_relevance_score(&other), 0);
    let mut doubtful = existing.clone();
    doubtful.certainty = Certainty::new(Magnitude::Zero);
    assert_eq!(doubtful.guardian_relevance_score(&same), 0);
}

#[test]
fn related_records_come_most_related_first() {
    let mut store = store();
    let loose = store
        .record_entry(entry("kind only", "Constraint", "Hardware", "spirit"))
        .unwrap();
    let close = store
        .record_entry(entry("socket writes", "Constraint", "Software", "socket"))
        .unwrap();
    store
        .record_entry(entry("nothing", "Preference", "Hardware", "spirit"))
        .unwrap();
    let proposed = entry("socket writes", "Constraint", "Software", "socket");
    let related = store.guardian_records_for_entry(&proposed).unwrap();
    let identifiers: Vec<String> =
        related.0.iter().map(|r| r.record_identifier.0.clone()).collect();
    assert_eq!(
        identifiers,
        vec![close.record_identifier.0.clone(), loose.record_identifier.0.clone()]
    );
    assert!(GUARDIAN_RECORD_LIMIT == 64);
}

#[test]
fn an_operation_bundles_the_records_it_touches_in_identifier_order() {
    let mut store = store();
    let first = store
        .record_entry(entry("first", "Constraint", "Software", "spirit"))
        .unwrap();
    let operation = GuardianOperation::retire(Retirement {
        record_identifier: first.record_identifier.clone(),
        justification: justification("drop it"),
    });
    let records = store.guardian_records_for_operation(&operation).unwrap();
    assert_eq!(records.0.len(), 1);
    assert_eq!(records.0[0].record_identifier.0, first.record_identifier.0);
    let missing = GuardianOperation::clarify(Clarification {
        record_identifier: RecordIdentifier("zzzz".to_string()),
        description: Description::new("sharper"),
        justification: justification("sharpen"),
    });
    assert!(store.guardian_records_for_operation(&missing).unwrap().0.is_empty());
}

#[test]
fn a_bundle_keeps_the_last_record_per_identifier_in_order() {
    let mut bundle = GuardianRecordBundle::new();
    let record = |id: &str, text: &str| ObservedRecord {
        record_identifier: RecordIdentifier(id.to_string()),
        entry: entry(text, "Constraint", "Software", "spirit"),
    };
    bundle.insert(record("bbbb", "one"));
    bundle.insert(record("aaaa", "two"));
    bundle.extend(RecordSet(vec![record("bbbb", "three"), record("cccc", "four")]));
    let set = bundle.into_record_set();
    let seen: Vec<(String, String)> = set
        .0
        .iter()
        .map(|r| (r.record_identifier.0.clone(), r.entry.description.0.clone()))
        .collect();
    assert_eq!(
        seen,
        vec![
            ("aaaa".to_string(), "two".to_string()),
            ("bbbb".to_string(), "three".to_string()),
            ("cccc".to_string(), "four".to_string()),
        ]
    );
}

#[test]
fn identifiers_sort_by_code_point() {
    assert!(text_less("abc", "abd"));
    assert!(text_less("ab", "abc"));
    assert!(!text_less("abc", "abc"));
    assert!(!text_less("b", "abc"));
    assert!(text_less("", "a"));
}

#[test]
fn operations_name_themselves_and_carry_testimony() {
    let operation = GuardianOperation::record(record_request("x"));
    assert_eq!(operation.name(), "Record");
    assert!(!operation.testimony_is_empty());
    assert_eq!(operation.candidate_entries().len(), 1);
    let bare = GuardianOperation::retire(Retirement {
        record_identifier: RecordIdentifier("abcd".to_string()),
        justification: Justification {
            testimony: Vec::new(),
            reasoning: "no quote".to_string(),
        },
    });
    assert!(bare.testimony_is_empty());
    assert!(bare.candidate_entries().is_empty());
    match bare.as_signal_input() {
        Input::Retire(retirement) => assert_eq!(retirement.record_identifier.0, "abcd"),
        other => panic!("expected a retirement, got {other:?}"),
    }
}

#[test]
fn a_judge_frame_yields_the_operation_reply() {
    let accepted = reply_from_frame(JudgeFrameBody::Reply(JudgeFrameReply::Accepted(
        SubReply::Answered(SpiritJudgeReply::AdmissionJudged(AdmissionJudgeResponse {
            verdict: AdmissionJudgeVerdict::Accept,
            diagnostic: diagnostic("fine"),
        })),
    )));
    assert!(matches!(accepted, Ok(SpiritJudgeReply::AdmissionJudged(_))));
    match reply_from_frame(JudgeFrameBody::Reply(JudgeFrameReply::Accepted(SubReply::Skipped))) {
        Ok(SpiritJudgeReply::RequestRejected(rejection)) => {
            assert_eq!(
                rejection.diagnostic.redacted_text,
                "spirit judge frame operation produced no reply"
            );
        }
        other => panic!("expected an invalid-request refusal, got {other:?}"),
    }
    match reply_from_frame(JudgeFrameBody::Reply(JudgeFrameReply::Accepted(SubReply::Failed(None)))) {
        Ok(SpiritJudgeReply::RequestRejected(rejection)) => {
            assert_eq!(rejection.diagnostic.redacted_text, "spirit judge frame operation failed");
        }
        other => panic!("expected an invalid-request refusal, got {other:?}"),
    }
    match reply_from_frame(JudgeFrameBody::Reply(JudgeFrameReply::Rejected("busy".to_string()))) {
        Err(AgentGuardianError::Frame(text)) => assert_eq!(text, "busy"),
        other => panic!("expected a frame failure, got {other:?}"),
    }
    match reply_from_frame(JudgeFrameBody::HandshakeReply) {
        Err(AgentGuardianError::WrongReply(what)) => assert_eq!(what, "handshake reply"),
        other => panic!("expected the wrong reply, got {other:?}"),
    }
}

#[test]
fn a_private_write_is_judged_under_redaction() {
    let public = GuardianOperation::record(record_request("public"));
    assert_eq!(public.judgment_scope(), JudgmentScope::Public);
    let mut private_request = record_request("private");
    private_request.entry.privacy = Privacy::new(Magnitude::Low);
    let private = GuardianOperation::record(private_request);
    assert_eq!(private.judgment_scope(), JudgmentScope::PrivateHashesAndRedaction);
    let marker = store().database_marker();
    match guardian().admission_request(&private, RecordSet(Vec::new()), marker) {
        SpiritJudgeRequest::JudgeAdmission(packet) => {
            assert_eq!(packet.judgment_scope, JudgmentScope::PrivateHashesAndRedaction);
            assert_eq!(packet.database_marker, marker);
        }
        other => panic!("expected an admission request, got {other:?}"),
    }
    match guardian().referent_request(&registration("daemon"), Vec::new(), marker) {
        SpiritJudgeRequest::JudgeReferentRegistration(packet) => {
            assert_eq!(packet.judgment_scope, JudgmentScope::PrivateHashesAndRedaction);
            assert_eq!(packet.registration.referent.0, "daemon");
        }
        other => panic!("expected a referent request, got {other:?}"),
    }
}

#[test]
fn a_failed_judgement_fails_closed_and_leaves_the_store_alone() {
    let mut nexus = Nexus::new(store());
    nexus.set_guardian(guardian());
    let before = nexus.store().len();
    let outcome = nexus.guard_record(
        record_request("fourth"),
        Some(Err(AgentGuardianError::Frame("bad length".to_string()))),
    );
    match outcome {
        Ok(Err(refusal)) => {
            assert_eq!(refusal.guardian_rejection_reason, GuardianRejectionReason::HarnessUnavailable);
            assert_eq!(refusal.explanation.0, "spirit judge frame failed: bad length");
        }
        other => panic!("expected a refusal, got {other:?}"),
    }
    assert_eq!(nexus.store().len(), before);
    assert_eq!(nexus.store().guardian_decision_count(), 1);
}

#[test]
fn a_failed_judgement_refuses_an_edit() {
    let mut store = store();
    let first = store
        .record_entry(entry("keep", "Constraint", "Software", "spirit"))
        .unwrap();
    let mut nexus = Nexus::new(store);
    nexus.set_guardian(guardian());
    let outcome = nexus.guard_retire(
        Retirement {
            record_identifier: first.record_identifier.clone(),
            justification: justification("drop it"),
        },
        Some(Err(AgentGuardianError::Socket {
            timed_out: false,
            message: "refused".to_string(),
        })),
    );
    match outcome {
        Ok(Err(refusal)) => {
            assert_eq!(refusal.guardian_rejection_reason, GuardianRejectionReason::HarnessUnavailable);
            assert_eq!(refusal.explanation.0, "spirit judge socket unavailable: refused");
        }
        other => panic!("expected a refusal, got {other:?}"),
    }
    assert_eq!(nexus.store().len(), 1);
}

#[test]
fn a_judged_write_is_carried_out_on_the_judges_reply() {
    let mut nexus = Nexus::new(store());
    nexus.set_guardian(guardian());
    let accepted = nexus.apply_effect_judged(
        EffectCommand::GuardRecord(record_request("judged")),
        admission(AdmissionJudgeVerdict::Accept),
    );
    assert!(matches!(accepted, EffectResult::Recorded(_)));
    assert_eq!(nexus.store().len(), 1);
    let unreachable = nexus.apply_effect_judged(
        EffectCommand::GuardRecord(record_request("unjudged")),
        Some(Err(AgentGuardianError::Frame("bad".to_string()))),
    );
    match unreachable {
        EffectResult::GuardianRejected(refusal) => {
            assert_eq!(refusal.guardian_rejection_reason, GuardianRejectionReason::HarnessUnavailable)
        }
        other => panic!("expected a refusal, got {other:?}"),
    }
    assert_eq!(nexus.store().len(), 1);
    assert_eq!(nexus.store().guardian_decision_count(), 2);
}

#[test]
fn the_first_unsettled_referent_is_the_next_registration() {
    let nexus = Nexus::new(store());
    let referents = Referents::new(vec![Referent::new("spirit"), Referent::new("fresh-name"), Referent::new("other")]);
    let next = nexus.next_implied_registration(&referents, &justification("implied")).unwrap();
    assert_eq!(next.referent.0, "fresh-name");
    assert!(next.aliases.0.is_empty());
    let settled = Referents::new(vec![Referent::new("spirit"), Referent::new("socket")]);
    assert!(nexus.next_implied_registration(&settled, &justification("implied")).is_none());
    let request = record_request("settled");
    assert!(matches!(
        Nexus::settled_result(EffectCommand::RecordWithImpliedReferents(request)),
        EffectResult::RecordReferentsSettled(_)
    ));
}
