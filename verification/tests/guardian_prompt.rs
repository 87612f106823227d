use spirit::guardian_journal::GuardianOperation;
use spirit::guardian_prompt::{
    guardian_user_message, reason_catalogue, referent_user_message, GuardianPromptSection,
    GuardianPromptSource, GuardianRetry,
};
use spirit::justification::{Justification, VerbatimQuote};
use spirit::store::{RecordIdentifier, Retirement};
use spirit::verdict::{model_reasons, GuardianRejectionReason};

#[test]
fn every_model_reason_is_glossed_and_no_harness_reason_leaks() {
    for reason in model_reasons() {
        assert!(
            reason.admission_gloss().is_some(),
            "model reason {reason:?} must carry a gloss"
        );
    }
    assert_eq!(model_reasons().len(), 17);
    assert!(GuardianRejectionReason::HarnessMalformed
        .admission_gloss()
        .is_none());
}

#[test]
fn blank_role_override_falls_back_to_the_compiled_in_role() {
    let source = GuardianPromptSource::role_override("   \n\t  \n".to_string());
    assert!(
        matches!(source, GuardianPromptSource::Compiled),
        "a blank role override must resolve to the compiled-in source"
    );
    assert!(source.role_text().is_none());
}

#[test]
fn a_written_role_overrides_the_compiled_in_role() {
    let source = GuardianPromptSource::role_override("Guard the owner's intent.".to_string());
    assert_eq!(
        source.role_text().map(|s| s.as_str()),
        Some("Guard the owner's intent.")
    );
    assert!(GuardianPromptSource::compiled_in().role_text().is_none());
}

#[test]
fn harness_reasons_carry_no_gloss() {
    assert!(GuardianRejectionReason::HarnessUnavailable.admission_gloss().is_none());
    assert!(GuardianRejectionReason::HarnessTimedOut.admission_gloss().is_none());
    assert!(GuardianRejectionReason::Duplicate.admission_gloss().is_some());
}

fn retirement() -> GuardianOperation {
    GuardianOperation::retire(Retirement {
        record_identifier: RecordIdentifier("abcd".to_string()),
        justification: Justification {
            testimony: vec![VerbatimQuote {
                quote_text: "drop it".to_string(),
                source: None,
            }],
            reasoning: "the psyche asked".to_string(),
        },
    })
}

#[test]
fn reason_catalogue_lists_each_model_reason_once_with_its_gloss() {
    let catalogue = reason_catalogue();
    let heading = "CLOSED REJECTION REASONS. On a reject you name EXACTLY ONE of these atoms and no other. They are the only legal reason atoms; never invent one. Never name a Harness reason — those are the daemon's, not yours.\n";
    assert!(catalogue.starts_with(heading));
    let lines: Vec<&str> = catalogue[heading.len()..].split('\n').collect();
    assert_eq!(lines.len(), 17);
    assert_eq!(
        lines[0],
        "- MissingTestimony — no verbatim quote at all, or a bare affirmation (yes / do it) with no antecedent. An evidentiary production failure — NOT RetrievalInsufficient, NOT NonIntent."
    );
    assert_eq!(
        lines[9],
        "- UnclearDomain — the domain is missing or wrong. A named instance (spirit, rkyv, DeepSeek) is a referent, not a domain; domains are universal subjects."
    );
    assert!(lines[16].starts_with("- RetrievalInsufficient — "));
    assert!(!catalogue.contains("- Harness"));
}

#[test]
fn only_the_role_section_can_be_overridden() {
    let source = GuardianPromptSource::role_override("Guard the owner's intent.".to_string());
    assert_eq!(
        source.section_override(GuardianPromptSection::Role).map(String::as_str),
        Some("Guard the owner's intent.")
    );
    assert!(source.section_override(GuardianPromptSection::Checklist).is_none());
    assert!(GuardianPromptSource::compiled_in()
        .section_override(GuardianPromptSection::Role)
        .is_none());
}

#[test]
fn an_operation_is_introduced_by_its_heading() {
    assert_eq!(
        retirement().prompt_text("(Retirement abcd)"),
        "Retire request (remove an intent the psyche no longer wants; needs a verbatim psyche authorization):\n(Retirement abcd)"
    );
}

#[test]
fn a_retry_quotes_the_bad_reply_and_the_parser() {
    let retry = GuardianRetry::new("Accepted!".to_string(), "unknown head".to_string());
    assert_eq!(
        retry.user_text("GuardianVerdict"),
        "\n\nYOUR PREVIOUS REPLY WAS NOT A VALID GuardianVerdict and was discarded:\nAccepted!\n\nThe parser said:\nunknown head\n\nReply again with ONLY one valid GuardianVerdict NOTA value — (Accept) or the double-nested (Reject ( <Reason> [explanation] )) — and nothing else."
    );
}

#[test]
fn the_user_message_carries_operation_candidate_bundle_and_retry() {
    let plain = guardian_user_message(&retirement(), "(R)", "[]", None);
    assert_eq!(
        plain,
        "Operation: Retire\n\nCandidate under judgement:\nRetire request (remove an intent the psyche no longer wants; needs a verbatim psyche authorization):\n(R)\n\nRelevant existing records (the live bundle — judge duplicates, contradictions, and named targets only against what appears here):\n[]"
    );
    let retry = GuardianRetry::new("x".to_string(), "y".to_string());
    let again = guardian_user_message(&retirement(), "(R)", "[]", Some(&retry));
    assert_eq!(again, format!("{plain}{}", retry.user_text("GuardianVerdict")));
}

#[test]
fn the_referent_message_carries_registration_and_registry() {
    assert_eq!(
        referent_user_message("(Reg spirit)", "[]", None),
        "Operation: RegisterReferent\n\nCandidate registration:\n(Reg spirit)\n\nAlready-registered referents:\n[]"
    );
    let retry = GuardianRetry::new("x".to_string(), "y".to_string());
    assert!(referent_user_message("a", "b", Some(&retry))
        .ends_with(&retry.user_text("ReferentGuardianVerdict")));
}
