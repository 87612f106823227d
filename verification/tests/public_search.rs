use spirit::justification::{Justification, VerbatimQuote};
use spirit::magnitude::{Certainty, Importance, Magnitude, Privacy};
use spirit::query::Entry;
use spirit::record::{Description, Domain, Domains, Kind, Referent, Referents, SearchText};
use spirit::referent::ReferentRegistration;
use spirit::search::{SearchNeedle, PUBLIC_TEXT_SEARCH_LIMIT};
use spirit::sema::{SemaReadInput, SemaReadOutput};
use spirit::store::Store;

fn justification(text: &str) -> Justification {
    Justification {
        testimony: vec![VerbatimQuote {
            quote_text: text.to_string(),
            source: None,
        }],
        reasoning: text.to_string(),
    }
}

fn registration(name: &str) -> ReferentRegistration {
    ReferentRegistration {
        referent: Referent::new(name),
        aliases: Referents::new(Vec::new()),
        justification: justification("register it"),
    }
}

fn entry(
    description: &str,
    certainty: Magnitude,
    importance: Magnitude,
    privacy: Magnitude,
    referent: &str,
) -> Entry {
    Entry {
        domains: Domains::new(vec![Domain::new(vec!["Technology".to_string()])]),
        kind: Kind::new("Constraint"),
        description: Description::new(description),
        certainty: Certainty::new(certainty),
        importance: Importance::new(importance),
        privacy: Privacy::new(privacy),
        referents: Referents::new(vec![Referent::new(referent)]),
    }
}

fn store() -> Store {
    let mut store =
        Store::open("/tmp/search.sema".to_string(), Vec::new(), Vec::new(), 0, 0).unwrap();
    store.register_referent(registration("spirit")).unwrap();
    store.register_referent(registration("socket")).unwrap();
    store
}

fn search(text: &str) -> SearchText {
    SearchText(text.to_string())
}

#[test]
fn needle_is_trimmed_lowercased_and_split() {
    let needle = SearchNeedle::new(&search("  Socket   Writes \n"));
    assert_eq!(needle.full_text, "socket   writes");
    assert_eq!(needle.tokens, vec!["socket".to_string(), "writes".to_string()]);
    assert!(!needle.is_empty());
    assert!(SearchNeedle::new(&search(" \t ")).is_empty());
}

#[test]
fn scores_follow_the_published_weights() {
    let needle = SearchNeedle::new(&search("Socket Writes"));
    let whole = Description::new("The daemon handles Socket Writes");
    assert_eq!(needle.score_description(&whole), 120);
    let one_token = Description::new("writes are batched");
    assert_eq!(needle.score_description(&one_token), 10);
    let referents = Referents::new(vec![Referent::new("socket"), Referent::new("socket-writes")]);
    // "socket": equal to a token (30); "socket-writes": holds both tokens (15 + 15).
    assert_eq!(needle.score_referents(&referents), 60);
    let exact = Referents::new(vec![Referent::new("socket writes")]);
    // equal to the whole text (120) and holds both tokens (15 + 15).
    assert_eq!(needle.score_referents(&exact), 150);
    let e = entry("nothing here", Magnitude::Medium, Magnitude::Low, Magnitude::Zero, "spirit");
    assert_eq!(needle.score_entry(&e), None);
    let e = entry("socket writes", Magnitude::Medium, Magnitude::Low, Magnitude::Zero, "socket");
    assert_eq!(needle.score_entry(&e), Some(150));
}

#[test]
fn search_ranks_public_matches_best_first() {
    let mut store = store();
    let weak = store
        .record_entry(entry("writes go through", Magnitude::High, Magnitude::High, Magnitude::Zero, "spirit"))
        .unwrap();
    let strong = store
        .record_entry(entry("socket writes are framed", Magnitude::Low, Magnitude::Low, Magnitude::Zero, "socket"))
        .unwrap();
    let private = store
        .record_entry(entry("socket writes are secret", Magnitude::High, Magnitude::High, Magnitude::Low, "socket"))
        .unwrap();
    let doubtful = store
        .record_entry(entry("socket writes maybe", Magnitude::Zero, Magnitude::High, Magnitude::Zero, "socket"))
        .unwrap();
    let tied_first = store
        .record_entry(entry("the socket", Magnitude::Medium, Magnitude::Low, Magnitude::Zero, "spirit"))
        .unwrap();
    let tied_second = store
        .record_entry(entry("a socket", Magnitude::Medium, Magnitude::Low, Magnitude::Zero, "spirit"))
        .unwrap();
    let _unrelated = store
        .record_entry(entry("nothing to see", Magnitude::Maximum, Magnitude::Maximum, Magnitude::Zero, "spirit"))
        .unwrap();
    let found = store.public_text_search(&search("Socket Writes"));
    let identifiers: Vec<String> = found.iter().map(|r| r.record_identifier.0.clone()).collect();
    // strong: 100 + 10 + 10 + 30 = 150; tied: 10 each, store order; weak: 10 but more certain.
    assert_eq!(
        identifiers,
        vec![
            strong.record_identifier.0.clone(),
            weak.record_identifier.0.clone(),
            tied_first.record_identifier.0.clone(),
            tied_second.record_identifier.0.clone(),
        ]
    );
    assert!(!identifiers.contains(&private.record_identifier.0));
    assert!(!identifiers.contains(&doubtful.record_identifier.0));
}

#[test]
fn blank_search_finds_nothing() {
    let mut store = store();
    store
        .record_entry(entry("socket writes", Magnitude::High, Magnitude::High, Magnitude::Zero, "socket"))
        .unwrap();
    assert!(store.public_text_search(&search("   ")).is_empty());
}

#[test]
fn search_returns_at_most_the_limit() {
    let mut store = store();
    for i in 0..30 {
        store
            .record_entry(entry(
                &format!("socket note {i}"),
                Magnitude::Medium,
                Magnitude::Low,
                Magnitude::Zero,
                "spirit",
            ))
            .unwrap();
    }
    let found = store.public_text_search(&search("socket"));
    assert_eq!(found.len(), PUBLIC_TEXT_SEARCH_LIMIT);
    assert_eq!(found[0].entry.description.0, "socket note 0");
    assert_eq!(found[24].entry.description.0, "socket note 24");
}

#[test]
fn search_read_misses_without_a_match() {
    let mut store = store();
    store
        .record_entry(entry("socket writes", Magnitude::High, Magnitude::High, Magnitude::Zero, "socket"))
        .unwrap();
    match store.observe_read(SemaReadInput::PublicTextSearch(search("quantum"))) {
        SemaReadOutput::Missed(text) => assert_eq!(text, "no matching record"),
        other => panic!("expected a miss, got {other:?}"),
    }
    match store.observe_read(SemaReadInput::PublicTextSearch(search("socket"))) {
        SemaReadOutput::PublicTextSearchResults(records) => assert_eq!(records.len(), 1),
        other => panic!("expected results, got {other:?}"),
    }
}
