use spirit::engine::{
    AuthorizationMode, ConfigureRequest, CriomeGateTarget, Engine, GuardianPromptTarget, MetaOutput,
};
use spirit::ledger::ORIGIN_ROUTE_BASE;
use spirit::magnitude::{
    CertaintySelection, ImportanceSelection, Magnitude, PrivacySelection,
};
use spirit::nexus::{
    ApplyRefusalReason, Input, Nexus, NexusWork, Output, ValidationError, CONTINUATION_LIMIT,
};
use spirit::query::{DomainMatch, KeywordMatch, Query, ReferentSelection, TextMatch};
use spirit::store::{ArchiveDatabaseTarget, Store};
use spirit::tables::{ObserverFilter, OperationKind, Statement};

fn any_query() -> Query {
    Query {
        domain_match: DomainMatch::Any,
        keyword_match: KeywordMatch::Any,
        text_match: TextMatch::Any,
        referent_selection: ReferentSelection::Any,
        selected_kind: None,
        privacy_selection: PrivacySelection::Any,
        certainty_selection: CertaintySelection::Any,
        importance_selection: ImportanceSelection::Any,
    }
}

fn nexus() -> Nexus {
    Nexus::new(Store::open("/tmp/nexus.sema".to_string(), Vec::new(), Vec::new(), 0, 0).unwrap())
}

fn run(nexus: &mut Nexus, input: Input) -> Output {
    nexus.execute_to_reply(NexusWork::SignalArrived(input))
}

#[test]
fn a_statement_is_classified_and_recorded() {
    let mut nexus = nexus();
    let output = run(&mut nexus, Input::State(Statement("keep the daemon small".to_string())));
    let identifier = match output {
        Output::RecordAccepted(identifier) => identifier,
        other => panic!("expected a recorded statement, got {other:?}"),
    };
    let entry = nexus.store().entry_by_identifier(identifier.0.as_str()).unwrap();
    assert_eq!(entry.description.0, "keep the daemon small");
    assert_eq!(entry.kind.0, "Clarification");
    assert_eq!(entry.referents.0[0].0, "state");
    assert_eq!(entry.certainty.0, Magnitude::Minimum);
    assert_eq!(entry.privacy.0, Magnitude::Zero);
}

#[test]
fn an_observation_is_stashed_and_can_be_looked_up() {
    let mut nexus = nexus();
    run(&mut nexus, Input::State(Statement("one".to_string())));
    run(&mut nexus, Input::State(Statement("two".to_string())));
    let stashed = match run(&mut nexus, Input::Observe(any_query())) {
        Output::RecordsStashed(stashed) => stashed,
        other => panic!("expected a stashed observation, got {other:?}"),
    };
    assert_eq!(stashed.stash_handle, 1);
    assert_eq!(stashed.record_count, 2);
    match run(&mut nexus, Input::LookupStash(1)) {
        Output::RecordsObserved(records) => {
            assert_eq!(records.len(), 2);
            assert_eq!(records[0].entry.description.0, stashed.observed_records[0].entry.description.0);
        }
        other => panic!("expected the stashed records, got {other:?}"),
    }
    assert!(matches!(
        run(&mut nexus, Input::LookupStash(7)),
        Output::Rejected(ValidationError::StashHandleNotFound)
    ));
}

#[test]
fn an_empty_observation_is_a_miss() {
    let mut nexus = nexus();
    match run(&mut nexus, Input::Observe(any_query())) {
        Output::Error(text) => assert_eq!(text, "no matching record"),
        other => panic!("expected a miss, got {other:?}"),
    }
}

#[test]
fn version_marker_and_apply_are_answered_directly() {
    let mut nexus = nexus();
    assert!(matches!(run(&mut nexus, Input::Version), Output::VersionReported(v) if v == "0.1.0"));
    assert!(matches!(
        run(&mut nexus, Input::Marker),
        Output::MarkerReported(marker) if marker.commit_sequence == 0 && marker.state_digest == 0
    ));
    assert!(matches!(
        run(&mut nexus, Input::ApplyAuthorizedRecord),
        Output::ApplyRefused(ApplyRefusalReason::AuthorizationUnavailable)
    ));
}

#[test]
fn a_tap_sees_the_logged_operations_its_filter_admits() {
    let mut nexus = nexus();
    run(&mut nexus, Input::Version);
    run(&mut nexus, Input::Marker);
    let tapped = match run(&mut nexus, Input::Tap(ObserverFilter::Only(OperationKind::Version))) {
        Output::ObservationTapped(subscription) => subscription,
        other => panic!("expected a tap, got {other:?}"),
    };
    assert_eq!(tapped.subscription_token, 1);
    assert_eq!(tapped.observed_operations, vec![OperationKind::Version]);
    run(&mut nexus, Input::Version);
    match run(&mut nexus, Input::Untap(1)) {
        Output::ObservationUntapped(retraction) => {
            assert_eq!(retraction.observed_operations, vec![OperationKind::Version, OperationKind::Version]);
        }
        other => panic!("expected an untap, got {other:?}"),
    }
    match run(&mut nexus, Input::Untap(1)) {
        Output::ObservationUntapped(retraction) => assert!(retraction.observed_operations.is_empty()),
        other => panic!("expected an empty untap, got {other:?}"),
    }
    assert!(nexus.observer_tap_table().is_empty());
}

#[test]
fn an_intent_subscription_gets_a_fresh_token() {
    let mut nexus = nexus();
    assert!(matches!(run(&mut nexus, Input::SubscribeIntent(any_query())), Output::SubscriptionStarted(1)));
    assert!(matches!(run(&mut nexus, Input::SubscribeIntent(any_query())), Output::SubscriptionStarted(2)));
}

#[test]
fn the_budget_error_names_the_limit() {
    let nexus = nexus();
    match nexus.budget_exhausted_reply(CONTINUATION_LIMIT, CONTINUATION_LIMIT) {
        Output::Error(text) => assert_eq!(
            text,
            "nexus continuation budget exhausted after 64 steps (limit 64)"
        ),
        other => panic!("expected an error, got {other:?}"),
    }
}

#[test]
fn the_engine_logs_one_handoff_and_one_reply_per_request() {
    let store = Store::open("/tmp/engine.sema".to_string(), Vec::new(), Vec::new(), 0, 0).unwrap();
    let mut engine = Engine::new(store);
    let response = engine.handle(Input::Version);
    assert_eq!(response.origin_route.0, ORIGIN_ROUTE_BASE + 1);
    assert!(matches!(response.root, Output::VersionReported(_)));
    engine.handle(Input::State(Statement("remember this".to_string())));
    assert_eq!(engine.sent_message_count(), 2);
    assert_eq!(engine.processed_message_count(), 2);
    assert_eq!(engine.mail_ledger().len(), 4);
    assert_eq!(engine.record_count(), 1);
    assert_eq!(engine.authorization_mode(), AuthorizationMode::Gating);
}

#[test]
fn configure_echoes_its_targets() {
    let store = Store::open("/tmp/configure.sema".to_string(), Vec::new(), Vec::new(), 0, 0).unwrap();
    let mut engine = Engine::new(store);
    let reply = engine.configure(ConfigureRequest {
        archive_database_target: ArchiveDatabaseTarget::Path("/tmp/elsewhere.sema".to_string()),
        selected_mirror_target: None,
        selected_criome_gate_target: Some(CriomeGateTarget::Socket("/tmp/criome.sock".to_string())),
        selected_guardian_prompt_target: Some(GuardianPromptTarget::Prompt("role".to_string())),
    });
    match reply {
        MetaOutput::Configured(receipt) => {
            assert!(matches!(receipt.archive_database_target, ArchiveDatabaseTarget::Path(p) if p == "/tmp/elsewhere.sema"));
            assert_eq!(receipt.database_marker.commit_sequence, 0);
        }
        other => panic!("expected a configured receipt, got {other:?}"),
    }
    assert_eq!(engine.store().archive_database_path(), "/tmp/elsewhere.sema");
}
