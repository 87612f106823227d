use spirit::digest::{state_digest, ArchivedRow};
use spirit::engine::Engine;
use spirit::error::StoreError;
use spirit::guardian_journal::GuardianOperation;
use spirit::identifier::{MintProgress, MintStep, RecordIdentifierMint};
use spirit::justification::{Justification, VerbatimQuote};
use spirit::ledger::{MailLedger, MailLedgerEvent, MessageIdentifier, MessageProcessed, MessageSent, OriginRoute};
use spirit::magnitude::{Certainty, Importance, Magnitude, Privacy};
use spirit::nexus::{EffectCommand, EffectResult, Input, Nexus, NexusAction, NexusWork, Output, Settlement, CONTINUATION_LIMIT};
use spirit::record::{Description, Domain, Domains, Kind, Referent, Referents};
use spirit::referent::ReferentRegistration;
use spirit::query::Entry;
use spirit::sema::{SemaWriteInput, SemaWriteOutput};
use spirit::store::{DatabaseMarker, RecordIdentifier, Removal, Store, StoreWrite, Supersession};
use spirit::tables::{ObserverFilter, ObserverTapTable, OperationKind, Proposal, RecordRequest, StashTable};

fn justification(text: &str) -> Justification {
    Justification {
        testimony: vec![VerbatimQuote {
            quote_text: text.to_string(),
            source: None,
        }],
        reasoning: text.to_string(),
    }
}

fn entry(description: &str, referent: &str) -> Entry {
    Entry {
        domains: Domains::new(vec![Domain::new(vec!["Technology".to_string()])]),
        kind: Kind::new("Constraint"),
        description: Description::new(description),
        certainty: Certainty::new(Magnitude::Low),
        importance: Importance::new(Magnitude::Low),
        privacy: Privacy::new(Magnitude::Zero),
        referents: Referents::new(vec![Referent::new(referent)]),
    }
}

fn store_with_spirit(path: &str) -> Store {
    let mut store = Store::open(path.to_string(), Vec::new(), Vec::new(), 0, 0).unwrap();
    store
        .register_referent(ReferentRegistration {
            referent: Referent::new("spirit"),
            aliases: Referents::new(Vec::new()),
            justification: justification("register it"),
        })
        .unwrap();
    store
}

#[test]
fn a_supersession_with_no_replacements_retires_its_targets() {
    let mut store = store_with_spirit("/tmp/histories-supersede.sema");
    let gone = store.record_entry(entry("old way", "spirit")).unwrap().record_identifier;
    let kept = store.record_entry(entry("other way", "spirit")).unwrap().record_identifier;
    let receipt = store
        .supersede(Supersession {
            retired_identifiers: vec![gone.clone()],
            replacements: Vec::new(),
            justification: justification("no longer true"),
        })
        .unwrap()
        .unwrap();
    assert!(receipt.record_identifiers.is_empty());
    assert!(store.entry_by_identifier(gone.0.as_str()).is_none());
    assert_eq!(store.entry_by_identifier(kept.0.as_str()).unwrap().description.0, "other way");
    assert_eq!(store.len(), 1);
}

#[test]
fn a_failed_supersession_loses_no_record() {
    let mut store = store_with_spirit("/tmp/histories-supersede-failed.sema");
    let target = store.record_entry(entry("old way", "spirit")).unwrap().record_identifier;
    let refused = store.supersede(Supersession {
        retired_identifiers: vec![target.clone()],
        replacements: vec![entry("new way", "nobody")],
        justification: justification("changed my mind"),
    });
    assert!(matches!(refused, Err(StoreError::UnregisteredReferent(_))));
    assert_eq!(store.entry_by_identifier(target.0.as_str()).unwrap().description.0, "old way");
    assert_eq!(store.len(), 1);
}

#[test]
fn an_empty_store_marker_reads_zero() {
    let mut store = Store::open("/tmp/histories-marker.sema".to_string(), Vec::new(), Vec::new(), 0, 77).unwrap();
    assert_eq!(store.database_marker(), DatabaseMarker { commit_sequence: 0, state_digest: 0 });
    store.set_state_digest(99);
    assert_eq!(store.database_marker().state_digest, 0);
}

#[test]
fn a_remove_write_takes_the_record_out() {
    let mut store = store_with_spirit("/tmp/histories-remove.sema");
    let target = store.record_entry(entry("to remove", "spirit")).unwrap().record_identifier;
    let before = store.database_marker().commit_sequence;
    match store.apply_write(SemaWriteInput::Remove(Removal { record_identifier: target.clone() })) {
        SemaWriteOutput::Removed(receipt) => assert_eq!(receipt.0 .0, target.0),
        other => panic!("expected a removal, got {other:?}"),
    }
    assert!(store.entry_by_identifier(target.0.as_str()).is_none());
    assert_eq!(store.database_marker().commit_sequence, before + 1);
    match store.apply_write(SemaWriteInput::Remove(Removal { record_identifier: RecordIdentifier("zzzz".to_string()) })) {
        SemaWriteOutput::Missed(text) => assert!(!text.is_empty()),
        other => panic!("expected a miss, got {other:?}"),
    }
}

#[test]
fn guarded_commands_name_their_guardian_operation() {
    let proposal = Proposal { entry: entry("p", "spirit"), justification: justification("why") };
    assert!(matches!(
        EffectCommand::Propose(proposal).guardian_operation(),
        Some(GuardianOperation::Propose(_))
    ));
    let registration = ReferentRegistration {
        referent: Referent::new("spirit"),
        aliases: Referents::new(Vec::new()),
        justification: justification("register it"),
    };
    assert!(EffectCommand::GuardReferentRegistration(registration).guardian_operation().is_none());
}

#[test]
fn the_budget_stops_only_a_cycle_that_has_not_replied() {
    let next = NexusAction::Continue(NexusWork::SignalArrived(Input::Version));
    assert!(Nexus::budget_stops(CONTINUATION_LIMIT, &next));
    assert!(!Nexus::budget_stops(CONTINUATION_LIMIT - 1, &next));
    let reply = NexusAction::ReplyToSignal(Output::Error("done".to_string()));
    assert!(!Nexus::budget_stops(CONTINUATION_LIMIT, &reply));
}

#[test]
fn stash_handles_count_up_and_every_stash_survives() {
    let mut table = StashTable::new();
    for n in 1..=3u64 {
        let marker = DatabaseMarker { commit_sequence: n, state_digest: 10 * n };
        assert_eq!(table.put(Vec::new(), marker).stash_handle, n);
    }
    assert_eq!(table.len(), 3);
    for n in 1..=3u64 {
        assert_eq!(table.lookup(&n).unwrap().1, DatabaseMarker { commit_sequence: n, state_digest: 10 * n });
    }
    assert!(table.lookup(&4).is_none());
    assert!(table.lookup(&0).is_none());
}

#[test]
fn open_taps_are_opens_less_closes_that_found_their_tap() {
    let mut table = ObserverTapTable::new();
    let (first, _, seen) = table.open(ObserverFilter::AllOperations);
    assert_eq!(first, 1);
    assert!(seen.is_empty());
    table.observe_operation(OperationKind::Version);
    let (second, _, seen) = table.open(ObserverFilter::Only(OperationKind::Version));
    assert_eq!(second, 2);
    assert_eq!(seen, vec![OperationKind::Version]);
    assert_eq!(table.len(), 2);
    assert_eq!(table.close(first), Some(vec![OperationKind::Version]));
    assert_eq!(table.close(first), None);
    assert_eq!(table.close(9), None);
    assert_eq!(table.len(), 1);
}

#[test]
fn the_ledger_counts_add_up_to_its_length() {
    let mut ledger = MailLedger::new();
    {
        let mut hook = ledger.hook();
        for n in 0..3u64 {
            assert!(MessageSent::new(MessageIdentifier(n), OriginRoute(n), 1).push_to(&mut hook).is_ok());
        }
        for n in 0..2u64 {
            assert!(MessageProcessed::new(MessageIdentifier(n), OriginRoute(n), ()).push_to(&mut hook).is_ok());
        }
    }
    assert_eq!(ledger.sent_message_count(), 3);
    assert_eq!(ledger.processed_message_count(), 2);
    assert_eq!(ledger.events().len(), 5);
    assert!(matches!(ledger.events()[0], MailLedgerEvent::Sent(_)));
    assert!(matches!(ledger.events()[4], MailLedgerEvent::Processed(_)));
}

#[test]
fn an_opened_request_is_logged_and_answered_on_its_route() {
    let store = Store::open("/tmp/histories-engine.sema".to_string(), Vec::new(), Vec::new(), 0, 0).unwrap();
    let mut engine = Engine::new(store);
    let (work, pending) = engine.open_request(Input::Version);
    assert_eq!(engine.sent_message_count(), 1);
    assert_eq!(engine.processed_message_count(), 0);
    let route = pending.origin_route();
    let output = engine.nexus_mut().execute_to_reply(work);
    let response = engine.close_request(pending, output);
    assert_eq!(response.origin_route, route);
    assert!(matches!(response.root, Output::VersionReported(_)));
    assert_eq!(engine.sent_message_count(), 1);
    assert_eq!(engine.processed_message_count(), 1);
    assert_eq!(engine.mail_ledger().len(), 2);
}

#[test]
fn the_marker_digest_follows_the_committed_rows() {
    let mut store = store_with_spirit("/tmp/histories-digest.sema");
    let id = store.record_entry(entry("digest me", "spirit")).unwrap().record_identifier;
    let records = vec![ArchivedRow { key: id.0.clone(), archive: vec![1u8, 2, 3] }];
    let referents = vec![ArchivedRow { key: "spirit".to_string(), archive: vec![4u8] }];
    let commit = store.database_marker().commit_sequence;
    assert!(store.refresh_state_digest(&records, &referents));
    let expected = state_digest(commit, &records, &referents);
    assert_ne!(expected, 0);
    assert_eq!(store.database_marker().state_digest, expected);
    let misnamed = vec![ArchivedRow { key: "zzzz".to_string(), archive: vec![1u8, 2, 3] }];
    assert!(!store.refresh_state_digest(&misnamed, &referents));
    assert_eq!(store.database_marker().state_digest, expected);
    assert!(!store.refresh_state_digest(&Vec::new(), &referents));
}

#[test]
fn a_superseded_record_is_archived_before_it_goes() {
    let mut store = store_with_spirit("/tmp/histories-archived.sema");
    let gone = store.record_entry(entry("old way", "spirit")).unwrap().record_identifier;
    store.take_writes();
    store
        .supersede(Supersession {
            retired_identifiers: vec![gone.clone()],
            replacements: vec![entry("new way", "spirit")],
            justification: justification("changed my mind"),
        })
        .unwrap()
        .unwrap();
    let writes = store.take_writes();
    let archived = writes.iter().position(|write| match write {
        StoreWrite::ArchiveRecord { record, .. } => {
            record.record_identifier.starts_with(&format!("{}-", gone.0)) && record.entry.description.0 == "old way"
        }
        _ => false,
    });
    let retracted = writes.iter().position(|write| matches!(write, StoreWrite::RetractRecord(id) if *id == gone.0));
    assert!(archived.is_some());
    assert!(retracted.is_some());
    assert!(archived.unwrap() < retracted.unwrap());
}

#[test]
fn a_mint_step_takes_a_free_draw_and_counts_a_used_one() {
    let mint = RecordIdentifierMint::new(vec!["0000".to_string()]);
    match mint.mint_step(MintProgress { code_length: 4, attempt: 0 }, 1) {
        MintStep::Minted(identifier) => assert_eq!(identifier, "0001"),
        other => panic!("expected a minted identifier, got {other:?}"),
    }
    match mint.mint_step(MintProgress { code_length: 4, attempt: 0 }, 0) {
        MintStep::Draw(next) => assert_eq!(next, MintProgress { code_length: 4, attempt: 1 }),
        other => panic!("expected another draw, got {other:?}"),
    }
    match mint.mint_step(MintProgress { code_length: 4, attempt: 127 }, 0) {
        MintStep::Minted(identifier) => assert_eq!(identifier, "0001"),
        other => panic!("expected the smallest free identifier, got {other:?}"),
    }
    match mint.mint_step(MintProgress { code_length: 5, attempt: 0 }, 0) {
        MintStep::Minted(identifier) => assert_eq!(identifier, "10000"),
        other => panic!("expected a five-character identifier, got {other:?}"),
    }
}

#[test]
fn a_mint_returns_a_fresh_four_character_identifier() {
    let mint = RecordIdentifierMint::new(vec!["0000".to_string(), "0001".to_string()]);
    let identifier = mint.next_identifier().unwrap();
    assert_eq!(identifier.chars().count(), 4);
    assert!(identifier != "0000" && identifier != "0001");
    assert!(identifier.chars().all(|c| c.is_ascii_digit() || c.is_ascii_lowercase()));
}

#[test]
fn settling_registers_the_first_unsettled_referent_and_stops_at_a_refusal() {
    let nexus = Nexus::new(store_with_spirit("/tmp/histories-settle.sema"));
    let mut both = entry("two names", "spirit");
    both.referents = Referents::new(vec![Referent::new("spirit"), Referent::new("socket")]);
    let command = EffectCommand::RecordWithImpliedReferents(RecordRequest { entry: both, justification: justification("why") });
    let command = match nexus.settlement_step(command, None) {
        Settlement::Register(carried, registration) => {
            assert_eq!(registration.referent.0, "socket");
            assert!(registration.aliases.0.is_empty());
            carried
        }
        other => panic!("expected a registration, got {other:?}"),
    };
    match nexus.settlement_step(command, Some(EffectResult::OperationFailed("refused".to_string()))) {
        Settlement::Done(EffectResult::OperationFailed(text)) => assert_eq!(text, "refused"),
        other => panic!("expected the refusal, got {other:?}"),
    }
    let settled = EffectCommand::RecordWithImpliedReferents(RecordRequest {
        entry: entry("one name", "spirit"),
        justification: justification("why"),
    });
    assert!(matches!(
        nexus.settlement_step(settled, None),
        Settlement::Done(EffectResult::RecordReferentsSettled(_))
    ));
}
