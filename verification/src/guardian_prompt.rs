//! The text the guardian judge is shown: which role text the system prompt
//! carries (the compiled-in role, or an owner-supplied override of the role
//! section alone), the closed catalogue of rejection reasons, the heading of
//! each candidate operation, the user message of a judgement, and the note
//! that asks again after a malformed reply.
//!
//! The NOTA renderings of operations, record bundles and registrations come
//! from the NOTA encoder; the functions here take them as text.

use vstd::prelude::*;

use crate::guardian_journal::{operation_name, GuardianOperation};
use crate::text::{blank, is_blank};
use crate::verdict::{atom_of, gloss_of, model_reason_list, model_reasons, GuardianRejectionReason};

verus! {

/// The source of the guardian prompt's role section.
#[derive(Debug)]
pub enum GuardianPromptSource {
    /// Every section renders from its compiled-in default.
    Compiled,
    /// The role section renders from this owner-supplied text.
    RoleOverride(String),
}

/// The override text of a source, if any.
pub open spec fn override_text(source: GuardianPromptSource) -> Option<Seq<char>> {
    match source {
        GuardianPromptSource::Compiled => None,
        GuardianPromptSource::RoleOverride(role) => Some(role@),
    }
}

/// The override a role text gives: none when the text is blank.
pub open spec fn role_override_text(role: Seq<char>) -> Option<Seq<char>> {
    if is_blank(role) {
        None
    } else {
        Some(role)
    }
}

impl GuardianPromptSource {
    /// No override.
    pub fn compiled_in() -> (r: Self)
        ensures
            r == GuardianPromptSource::Compiled,
    {
        GuardianPromptSource::Compiled
    }

    /// An override of the role section by `role`; a blank text (empty or
    /// only whitespace) falls back to the compiled-in role.
    pub fn role_override(role: String) -> (r: Self)
        ensures
            override_text(r) == role_override_text(role@),
    {
        if blank(role.as_str()) {
            GuardianPromptSource::Compiled
        } else {
            GuardianPromptSource::RoleOverride(role)
        }
    }

    /// The owner-supplied role text, when one overrides the compiled-in
    /// role.
    pub fn role_text(&self) -> (r: Option<&String>)
        ensures
            match r {
                Some(role) => override_text(*self) == Some(role@),
                None => override_text(*self) is None,
            },
    {
        match self {
            GuardianPromptSource::Compiled => None,
            GuardianPromptSource::RoleOverride(role) => Some(role),
        }
    }
}

/// One section of the guardian's system prompt.
#[derive(Clone, Copy, Debug, PartialEq, Eq, Structural)]
pub enum GuardianPromptSection {
    Role,
    Referent,
    RecordShape,
    JustificationShape,
    BurdenLadder,
    Checklist,
    FewShot,
}

impl GuardianPromptSource {
    /// The owner-supplied text that replaces `section`, if any: only the
    /// role section can be overridden; every other section, and the role
    /// section of a compiled-in source, renders from its compiled-in
    /// default (`None`).
    pub fn section_override(&self, section: GuardianPromptSection) -> (r: Option<&String>)
        ensures
            match r {
                Some(text) => section == GuardianPromptSection::Role && override_text(*self) == Some(
                    text@,
                ),
                None => section != GuardianPromptSection::Role || override_text(*self) is None,
            },
    {
        match section {
            GuardianPromptSection::Role => self.role_text(),
            _ => None,
        }
    }
}

/// One line of the reason catalogue: the reason's atom and its gloss.
pub open spec fn catalogue_line(reason: GuardianRejectionReason, gloss: &'static str) -> Seq<char> {
    "- "@ + atom_of(reason)@ + " — "@ + gloss@
}

/// The catalogue lines of the glossed reasons among `reasons`, in order,
/// joined by newlines.
pub open spec fn catalogue_lines(reasons: Seq<GuardianRejectionReason>) -> Seq<char>
    decreases reasons.len(),
{
    if reasons.len() == 0 {
        Seq::empty()
    } else {
        let prior = catalogue_lines(reasons.drop_last());
        match gloss_of(reasons.last()) {
            Some(gloss) => if prior.len() == 0 {
                catalogue_line(reasons.last(), gloss)
            } else {
                prior + "\n"@ + catalogue_line(reasons.last(), gloss)
            },
            None => prior,
        }
    }
}

/// The heading above the reason catalogue.
pub open spec fn catalogue_heading() -> Seq<char> {
    "CLOSED REJECTION REASONS. On a reject you name EXACTLY ONE of these atoms and no other. They are the only legal reason atoms; never invent one. Never name a Harness reason — those are the daemon's, not yours.\n"@
}

/// The closed reason catalogue the judge is shown.
pub open spec fn reason_catalogue_text() -> Seq<char> {
    catalogue_heading() + catalogue_lines(model_reason_list())
}

/// The closed rejection-reason catalogue, rendered from the reason enum so
/// it cannot drift from the atoms the daemon parses: one line per reason
/// the judge may name, its atom and its gloss.
pub fn reason_catalogue() -> (r: String)
    ensures
        r@ == reason_catalogue_text(),
{
    let reasons = model_reasons();
    let mut lines = "".to_string();
    let mut any = false;
    proof {
        reveal_strlit("");
        reveal_strlit("- ");
        assert(reasons@.subrange(0, 0) =~= Seq::<GuardianRejectionReason>::empty());
    }
    let mut i: usize = 0;
    while i < reasons.len()
        invariant
            reasons@ == model_reason_list(),
            i <= reasons.len(),
            lines@ == catalogue_lines(reasons@.subrange(0, i as int)),
            any <==> lines@.len() > 0,
            "- "@.len() == 2,
        decreases reasons.len() - i,
    {
        let reason = reasons[i];
        proof {
            assert(reasons@.subrange(0, i + 1).drop_last() =~= reasons@.subrange(0, i as int));
            assert(reasons@.subrange(0, i + 1).last() == reason);
        }
        match reason.admission_gloss() {
            Some(gloss) => {
                if any {
                    lines.append("\n");
                }
                lines.append("- ");
                lines.append(reason.atom());
                lines.append(" — ");
                lines.append(gloss);
                any = true;
            },
            None => {},
        }
        i = i + 1;
    }
    proof {
        assert(reasons@.subrange(0, reasons@.len() as int) =~= reasons@);
    }
    let mut out = "CLOSED REJECTION REASONS. On a reject you name EXACTLY ONE of these atoms and no other. They are the only legal reason atoms; never invent one. Never name a Harness reason — those are the daemon's, not yours.\n".to_string();
    out.append(lines.as_str());
    out
}

/// The heading that introduces a candidate operation to the judge.
pub open spec fn operation_heading(operation: GuardianOperation) -> Seq<char> {
    match operation {
        GuardianOperation::Record(_) => "Record request (create a new durable intent):\n"@,
        GuardianOperation::Propose(_) => "Propose request (create a new durable intent):\n"@,
        GuardianOperation::Clarify(_) => "Clarify request (sharpen an existing record without changing its arrow):\n"@,
        GuardianOperation::ResolveClarification(_) => "ResolveClarification request (fold a standalone clarification record into its target record edits, then remove the standalone clarification):\n"@,
        GuardianOperation::Supersede(_) => "Supersede request (atomically retire the target set and install the replacement set; the replacements TOGETHER must preserve the retired kernel with no meaning lost):\n"@,
        GuardianOperation::Retire(_) => "Retire request (remove an intent the psyche no longer wants; needs a verbatim psyche authorization):\n"@,
        GuardianOperation::ChangeRecord(_) => "ChangeRecord request (edit a record in place under the same identifier; a correction, not a redirect):\n"@,
    }
}

impl GuardianOperation {
    /// The heading that introduces this operation to the judge.
    pub fn prompt_heading(&self) -> (r: &'static str)
        ensures
            r@ == operation_heading(*self),
    {
        match self {
            GuardianOperation::Record(_) => "Record request (create a new durable intent):\n",
            GuardianOperation::Propose(_) => "Propose request (create a new durable intent):\n",
            GuardianOperation::Clarify(_) => "Clarify request (sharpen an existing record without changing its arrow):\n",
            GuardianOperation::ResolveClarification(_) => "ResolveClarification request (fold a standalone clarification record into its target record edits, then remove the standalone clarification):\n",
            GuardianOperation::Supersede(_) => "Supersede request (atomically retire the target set and install the replacement set; the replacements TOGETHER must preserve the retired kernel with no meaning lost):\n",
            GuardianOperation::Retire(_) => "Retire request (remove an intent the psyche no longer wants; needs a verbatim psyche authorization):\n",
            GuardianOperation::ChangeRecord(_) => "ChangeRecord request (edit a record in place under the same identifier; a correction, not a redirect):\n",
        }
    }

    /// The candidate as the judge reads it: the operation's heading, then
    /// `rendered`, the operation's NOTA text.
    pub fn prompt_text(&self, rendered: &str) -> (r: String)
        ensures
            r@ == operation_heading(*self) + rendered@,
    {
        let mut out = self.prompt_heading().to_string();
        out.append(rendered);
        out
    }
}

/// A malformed judge reply and what the parser said of it, shown to the
/// judge when it is asked again.
#[derive(Clone, Debug)]
pub struct GuardianRetry {
    pub completion: String,
    pub error: String,
}

/// The note appended to the user message after a malformed reply.
pub open spec fn retry_text(verdict_type: Seq<char>, completion: Seq<char>, error: Seq<char>) -> Seq<char> {
    "\n\nYOUR PREVIOUS REPLY WAS NOT A VALID "@ + verdict_type + " and was discarded:\n"@ + completion
        + "\n\nThe parser said:\n"@ + error + "\n\nReply again with ONLY one valid "@ + verdict_type
        + " NOTA value — (Accept) or the double-nested (Reject ( <Reason> [explanation] )) — and nothing else."@
}

/// The retry note of an optional retry; empty when there is none.
pub open spec fn optional_retry_text(verdict_type: Seq<char>, retry: Option<GuardianRetry>) -> Seq<char> {
    match retry {
        Some(retry) => retry_text(verdict_type, retry.completion@, retry.error@),
        None => Seq::empty(),
    }
}

impl GuardianRetry {
    /// A retry of the reply `completion`, refused with `error`.
    pub fn new(completion: String, error: String) -> (r: Self)
        ensures
            r.completion@ == completion@,
            r.error@ == error@,
    {
        GuardianRetry { completion, error }
    }

    /// The note that tells the judge its previous reply was not a valid
    /// `verdict_type`, quotes it and the parser's complaint, and asks for
    /// one valid value.
    pub fn user_text(&self, verdict_type: &str) -> (r: String)
        ensures
            r@ == retry_text(verdict_type@, self.completion@, self.error@),
    {
        let mut out = "\n\nYOUR PREVIOUS REPLY WAS NOT A VALID ".to_string();
        out.append(verdict_type);
        out.append(" and was discarded:\n");
        out.append(self.completion.as_str());
        out.append("\n\nThe parser said:\n");
        out.append(self.error.as_str());
        out.append("\n\nReply again with ONLY one valid ");
        out.append(verdict_type);
        out.append(" NOTA value — (Accept) or the double-nested (Reject ( <Reason> [explanation] )) — and nothing else.");
        out
    }
}

fn optional_retry(verdict_type: &str, retry: Option<&GuardianRetry>) -> (r: String)
    ensures
        r@ == optional_retry_text(verdict_type@, match retry { Some(x) => Some(*x), None => None }),
{
    match retry {
        Some(retry) => retry.user_text(verdict_type),
        None => {
            proof {
                reveal_strlit("");
            }
            "".to_string()
        },
    }
}

/// The user message of an admission judgement.
pub open spec fn guardian_user_text(
    operation: GuardianOperation,
    rendered_operation: Seq<char>,
    rendered_bundle: Seq<char>,
    retry: Option<GuardianRetry>,
) -> Seq<char> {
    "Operation: "@ + operation_name(operation) + "\n\nCandidate under judgement:\n"@ + operation_heading(
        operation,
    ) + rendered_operation
        + "\n\nRelevant existing records (the live bundle — judge duplicates, contradictions, and named targets only against what appears here):\n"@
        + rendered_bundle + optional_retry_text("GuardianVerdict"@, retry)
}

/// The user message of a referent-registration judgement.
pub open spec fn referent_user_text(
    rendered_registration: Seq<char>,
    rendered_registered: Seq<char>,
    retry: Option<GuardianRetry>,
) -> Seq<char> {
    "Operation: RegisterReferent\n\nCandidate registration:\n"@ + rendered_registration
        + "\n\nAlready-registered referents:\n"@ + rendered_registered + optional_retry_text(
        "ReferentGuardianVerdict"@,
        retry,
    )
}

/// The user message asking the judge to rule on `operation`, given the
/// operation's NOTA text, the NOTA text of the live bundle it is judged
/// against, and the retry note after a malformed reply.
pub fn guardian_user_message(
    operation: &GuardianOperation,
    rendered_operation: &str,
    rendered_bundle: &str,
    retry: Option<&GuardianRetry>,
) -> (r: String)
    ensures
        r@ == guardian_user_text(
            *operation,
            rendered_operation@,
            rendered_bundle@,
            match retry { Some(x) => Some(*x), None => None },
        ),
{
    let candidate = operation.prompt_text(rendered_operation);
    let retry_note = optional_retry("GuardianVerdict", retry);
    let mut out = "Operation: ".to_string();
    out.append(operation.name());
    out.append("\n\nCandidate under judgement:\n");
    out.append(candidate.as_str());
    out.append("\n\nRelevant existing records (the live bundle — judge duplicates, contradictions, and named targets only against what appears here):\n");
    out.append(rendered_bundle);
    out.append(retry_note.as_str());
    out
}

/// The user message asking the judge to rule on a referent registration,
/// given the registration's NOTA text, that of the referents already
/// registered, and the retry note after a malformed reply.
pub fn referent_user_message(
    rendered_registration: &str,
    rendered_registered: &str,
    retry: Option<&GuardianRetry>,
) -> (r: String)
    ensures
        r@ == referent_user_text(
            rendered_registration@,
            rendered_registered@,
            match retry { Some(x) => Some(*x), None => None },
        ),
{
    let retry_note = optional_retry("ReferentGuardianVerdict", retry);
    let mut out = "Operation: RegisterReferent\n\nCandidate registration:\n".to_string();
    out.append(rendered_registration);
    out.append("\n\nAlready-registered referents:\n");
    out.append(rendered_registered);
    out.append(retry_note.as_str());
    out
}

} // verus!
