use spirit::error::StoreError;
use spirit::justification::{Justification, VerbatimQuote};
use spirit::magnitude::{
    Certainty, CertaintySelection, Importance, ImportanceSelection, Magnitude, Privacy,
    PrivacySelection,
};
use spirit::query::{DomainMatch, Entry, KeywordMatch, Query, ReferentSelection, TextMatch};
use spirit::record::{Description, Domain, Domains, Kind, Referent, Referents};
use spirit::referent::ReferentRegistration;
use spirit::store::{
    CertaintyChange, Clarification, ClarificationResolution, ImportanceBump, RecordChange,
    RecordIdentifier, RemovalCandidateCollection, Retirement, Store, StoreWrite, Supersession,
    TargetClarification,
};

fn justification(text: &str) -> Justification {
    Justification {
        testimony: vec![VerbatimQuote {
            quote_text: text.to_string(),
            source: None,
        }],
        reasoning: text.to_string(),
    }
}

fn entry(description: &str, certainty: Magnitude, importance: Magnitude, referent: &str) -> Entry {
    Entry {
        domains: Domains::new(vec![Domain::new(vec![
            "Technology".to_string(),
            "Software".to_string(),
        ])]),
        kind: Kind::new("Constraint"),
        description: Description::new(description),
        certainty: Certainty::new(certainty),
        importance: Importance::new(importance),
        privacy: Privacy::new(Magnitude::Zero),
        referents: Referents::new(vec![Referent::new(referent)]),
    }
}

fn any_query() -> Query {
    Query {
        domain_match: DomainMatch::Any,
        keyword_match: KeywordMatch::Any,
        text_match: TextMatch::Any,
        referent_selection: ReferentSelection::Any,
        selected_kind: None,
        privacy_selection: PrivacySelection::Any,
        certainty_selection: CertaintySelection::Any,
        importance_selection: ImportanceSelection::Any,
    }
}

fn registration(name: &str) -> ReferentRegistration {
    ReferentRegistration {
        referent: Referent::new(name),
        aliases: Referents::new(Vec::new()),
        justification: justification("register it"),
    }
}

fn empty_store() -> Store {
    Store::open("/tmp/spirit.sema".to_string(), Vec::new(), Vec::new(), 0, 0).unwrap()
}

fn store_with_spirit() -> Store {
    let mut store = empty_store();
    store.register_referent(registration("spirit")).unwrap();
    store
}

#[test]
fn a_recorded_entry_reads_back() {
    let mut store = store_with_spirit();
    let receipt = store
        .record_entry(entry("schema creates the interface", Magnitude::Medium, Magnitude::Low, "spirit"))
        .unwrap();
    let read = store
        .entry_by_identifier(receipt.record_identifier.0.as_str())
        .unwrap();
    assert_eq!(read.description.0, "schema creates the interface");
    assert_eq!(store.len(), 1);
    assert_eq!(receipt.database_marker.commit_sequence, 2);
    assert_eq!(receipt.record_identifier.0.chars().count(), 4);
}

#[test]
fn an_unregistered_referent_is_refused() {
    let mut store = empty_store();
    let refused = store.record_entry(entry("text", Magnitude::Low, Magnitude::Low, "nobody"));
    assert!(matches!(refused, Err(StoreError::UnregisteredReferent(_))));
    assert!(store.is_empty());
}

#[test]
fn a_non_kebab_referent_is_refused() {
    let mut store = empty_store();
    let refused = store.register_referent(registration("Not Kebab"));
    assert!(matches!(refused, Err(StoreError::NonKebabReferent(_))));
}

#[test]
fn changing_certainty_and_bumping_importance_update_the_record() {
    let mut store = store_with_spirit();
    let receipt = store
        .record_entry(entry("keep it small", Magnitude::Low, Magnitude::Maximum, "spirit"))
        .unwrap();
    let id = receipt.record_identifier;
    store
        .change_certainty(CertaintyChange {
            record_identifier: id.clone(),
            certainty: Certainty::new(Magnitude::High),
        })
        .unwrap()
        .unwrap();
    let bumped = store.bump_importance(ImportanceBump(id.clone())).unwrap().unwrap();
    assert_eq!(bumped.importance, Importance::new(Magnitude::Maximum));
    let read = store.entry_by_identifier(id.0.as_str()).unwrap();
    assert_eq!(read.certainty, Certainty::new(Magnitude::High));
    let missing = store
        .bump_importance(ImportanceBump(RecordIdentifier("zzzz".to_string())))
        .unwrap();
    assert!(missing.is_none());
}

#[test]
fn retiring_archives_then_retracts() {
    let mut store = store_with_spirit();
    let receipt = store
        .record_entry(entry("retire me", Magnitude::Low, Magnitude::Low, "spirit"))
        .unwrap();
    let id = receipt.record_identifier;
    store.take_writes();
    let retired = store
        .retire(Retirement {
            record_identifier: id.clone(),
            justification: justification("no longer wanted"),
        })
        .unwrap();
    assert!(retired.is_some());
    assert!(store.entry_by_identifier(id.0.as_str()).is_none());
    let writes = store.take_writes();
    assert_eq!(writes.len(), 2);
    match &writes[0] {
        StoreWrite::ArchiveRecord { archive_path, record } => {
            assert_eq!(archive_path, "/tmp/spirit.archive.sema");
            assert_eq!(record.record_identifier, format!("{}-2", id.0));
        }
        other => panic!("expected an archive write, got {other:?}"),
    }
    assert!(matches!(&writes[1], StoreWrite::RetractRecord(retracted) if retracted == &id.0));
}

#[test]
fn clarifying_replaces_the_description() {
    let mut store = store_with_spirit();
    let id = store
        .record_entry(entry("vague", Magnitude::Low, Magnitude::Low, "spirit"))
        .unwrap()
        .record_identifier;
    store
        .clarify(Clarification {
            record_identifier: id.clone(),
            description: Description::new("precise"),
            justification: justification("sharpen"),
        })
        .unwrap()
        .unwrap();
    assert_eq!(
        store.entry_by_identifier(id.0.as_str()).unwrap().description.0,
        "precise"
    );
}

#[test]
fn superseding_replaces_records() {
    let mut store = store_with_spirit();
    let old = store
        .record_entry(entry("old way", Magnitude::Low, Magnitude::Low, "spirit"))
        .unwrap()
        .record_identifier;
    let receipt = store
        .supersede(Supersession {
            retired_identifiers: vec![old.clone()],
            replacements: vec![
                entry("new way", Magnitude::Medium, Magnitude::Low, "spirit"),
                entry("second way", Magnitude::Medium, Magnitude::Low, "spirit"),
            ],
            justification: justification("changed my mind"),
        })
        .unwrap()
        .unwrap();
    assert_eq!(receipt.record_identifiers.len(), 2);
    assert!(store.entry_by_identifier(old.0.as_str()).is_none());
    assert_eq!(
        store
            .entry_by_identifier(receipt.record_identifiers[0].0.as_str())
            .unwrap()
            .description
            .0,
        "new way"
    );
    assert_eq!(store.len(), 2);
    let missing = store
        .supersede(Supersession {
            retired_identifiers: vec![RecordIdentifier("0000".to_string())],
            replacements: vec![entry("never", Magnitude::Low, Magnitude::Low, "spirit")],
            justification: justification("nothing"),
        })
        .unwrap();
    assert!(missing.is_none());
    assert_eq!(store.len(), 2);
}

#[test]
fn resolving_a_clarification_edits_targets_and_removes_it() {
    let mut store = store_with_spirit();
    let target = store
        .record_entry(entry("unclear", Magnitude::Low, Magnitude::Low, "spirit"))
        .unwrap()
        .record_identifier;
    let question = store
        .record_entry(entry("what did you mean?", Magnitude::Low, Magnitude::Low, "spirit"))
        .unwrap()
        .record_identifier;
    let receipt = store
        .resolve_clarification(ClarificationResolution {
            clarification_record_identifier: question.clone(),
            target_clarifications: vec![TargetClarification {
                record_identifier: target.clone(),
                description: Description::new("clear now"),
            }],
            justification: justification("answered"),
        })
        .unwrap()
        .unwrap();
    assert_eq!(receipt.record_identifiers.len(), 1);
    assert!(store.entry_by_identifier(question.0.as_str()).is_none());
    assert_eq!(
        store.entry_by_identifier(target.0.as_str()).unwrap().description.0,
        "clear now"
    );
}

#[test]
fn a_sweep_archives_and_removes_every_match() {
    let mut store = store_with_spirit();
    store
        .record_entry(entry("first", Magnitude::Zero, Magnitude::Low, "spirit"))
        .unwrap();
    store
        .record_entry(entry("second", Magnitude::High, Magnitude::Low, "spirit"))
        .unwrap();
    let mut query = any_query();
    query.certainty_selection = CertaintySelection::removal_candidate_certainty();
    let collected = store
        .collect_removal_candidates(RemovalCandidateCollection { record_query: query })
        .unwrap();
    assert_eq!(collected.removal_archive_records.len(), 1);
    assert_eq!(collected.removal_archive_records[0].entry.description.0, "first");
    assert_eq!(collected.removed_identifiers.len(), 1);
    assert!(collected.skipped_removal_candidates.is_empty());
    assert_eq!(store.len(), 1);
}

#[test]
fn observation_comes_most_certain_first() {
    let mut store = store_with_spirit();
    store
        .record_entry(entry("low", Magnitude::Low, Magnitude::High, "spirit"))
        .unwrap();
    store
        .record_entry(entry("high", Magnitude::High, Magnitude::Low, "spirit"))
        .unwrap();
    store
        .record_entry(entry("high and important", Magnitude::High, Magnitude::Maximum, "spirit"))
        .unwrap();
    let observed = store.observe(&any_query()).unwrap();
    let order: Vec<&str> = observed
        .iter()
        .map(|r| r.entry.description.0.as_str())
        .collect();
    assert_eq!(order, vec!["high and important", "high", "low"]);
    assert_eq!(store.count(&any_query()).unwrap(), 3);
}

#[test]
fn changing_a_record_keeps_its_identifier() {
    let mut store = store_with_spirit();
    let id = store
        .record_entry(entry("before", Magnitude::Low, Magnitude::Low, "spirit"))
        .unwrap()
        .record_identifier;
    store
        .change_record(RecordChange {
            record_identifier: id.clone(),
            entry: entry("after", Magnitude::Medium, Magnitude::Medium, "spirit"),
            justification: justification("rewrite"),
        })
        .unwrap()
        .unwrap();
    assert_eq!(store.entry_by_identifier(id.0.as_str()).unwrap().description.0, "after");
    assert_eq!(store.len(), 1);
}

#[test]
fn importing_an_existing_identifier_is_refused() {
    let mut store = store_with_spirit();
    store
        .import_record("abcd".to_string(), entry("one", Magnitude::Low, Magnitude::Low, "spirit"))
        .unwrap();
    let again = store.import_record(
        "abcd".to_string(),
        entry("two", Magnitude::Low, Magnitude::Low, "spirit"),
    );
    assert!(matches!(again, Err(StoreError::Database(_))));
}

#[test]
fn a_duplicate_proposal_is_refused_and_bumps_the_original() {
    let mut store = store_with_spirit();
    let id = store
        .propose(entry("Use schema", Magnitude::Low, Magnitude::Low, "spirit"))
        .unwrap()
        .record_identifier;
    let refused = store
        .guard_propose(entry("  use SCHEMA ", Magnitude::Low, Magnitude::Low, "spirit"))
        .unwrap();
    let rejection = refused.unwrap_err();
    assert_eq!(
        rejection.guardian_rejection_reason,
        spirit::verdict::GuardianRejectionReason::Duplicate
    );
    assert_eq!(
        store.entry_by_identifier(id.0.as_str()).unwrap().importance,
        Importance::new(Magnitude::Medium)
    );
}

#[test]
fn store_errors_describe_themselves() {
    assert_eq!(
        StoreError::UnregisteredReferent("x".to_string()).message(),
        "unregistered referent: x"
    );
    assert_eq!(
        StoreError::ArchiveEncode.message(),
        "failed to encode record rkyv archive"
    );
}
