//! Guardian verdicts: the closed rejection-reason sets, the one-line
//! glosses the judge is shown, and the rejections a write receives.

use vstd::prelude::*;

use crate::referent::StoredReferent;
use crate::store::ObservedRecord;

verus! {

/// Why the guardian refused a write. The `Harness*` reasons are set by the
/// daemon when the judge itself fails; the judge never names them.
#[derive(Clone, Copy, Debug, PartialEq, Eq, Structural)]
pub enum GuardianRejectionReason {
    MissingTestimony,
    TestimonyFabricated,
    InsufficientWarrant,
    Overstated,
    ImportanceUnsupported,
    NonIntent,
    NegativeGuideline,
    Matter,
    Compound,
    UnclearDomain,
    UnclearPrivacy,
    Duplicate,
    Contradiction,
    ClarifyTramples,
    ClarifyLosesMeaning,
    SupersedeTargetMissing,
    RetrievalInsufficient,
    HarnessUnavailable,
    HarnessMalformed,
    HarnessTimedOut,
}

/// Why the guardian refused a referent registration.
#[derive(Clone, Copy, Debug, PartialEq, Eq, Structural)]
pub enum ReferentGuardianRejectionReason {
    Duplicate,
    Ambiguous,
    TooVague,
    AliasCollision,
    NonReferent,
    UnclearJustification,
    HarnessUnavailable,
    HarnessMalformed,
    HarnessTimedOut,
}

/// The reason is one the daemon sets on a judge failure.
pub open spec fn is_harness_reason(reason: GuardianRejectionReason) -> bool {
    reason == GuardianRejectionReason::HarnessUnavailable || reason
        == GuardianRejectionReason::HarnessMalformed || reason
        == GuardianRejectionReason::HarnessTimedOut
}

/// The gloss shown to the judge for each reason it may name; none for the
/// daemon's own reasons.
pub open spec fn gloss_of(reason: GuardianRejectionReason) -> Option<&'static str> {
    match reason {
        GuardianRejectionReason::MissingTestimony => Some("no verbatim quote at all, or a bare affirmation (yes / do it) with no antecedent. An evidentiary production failure — NOT RetrievalInsufficient, NOT NonIntent."),
        GuardianRejectionReason::TestimonyFabricated => Some("a quote that reads like agent prose rather than how a human actually talks, or one suspiciously perfect for the claim. Heuristic only."),
        GuardianRejectionReason::InsufficientWarrant => Some("the reasoning and quotes do not license THIS submission: on-point words that do not argue this point, or a destructive op (Supersede / Retire / meaning-changing ChangeRecord / certainty downgrade) carrying no verbatim psyche authorization, or a fresh Record whose evidence warrants editing an existing target or resolving a live conflict through maintenance instead."),
        GuardianRejectionReason::Overstated => Some("the claimed Certainty outruns the quote's modal strength (e.g. High claimed on could / maybe / I think). Read modality off the QUOTE, never the agent's framing."),
        GuardianRejectionReason::ImportanceUnsupported => Some("the Importance rung is not justified from its OWN evidence (direct psyche declaration, recurrence, architectural centrality, blast radius, keeps-coming-up, or blocks-other-work). Confident tone is not evidence of importance."),
        GuardianRejectionReason::NonIntent => Some("task chatter, a status update, or a transient reaction — not durable intent that still guides once the current task is erased."),
        GuardianRejectionReason::NegativeGuideline => Some("the candidate's operative guidance is framed primarily as an exclusion, prohibition, forbidden wording, or definition-by-negation. Remand: state the affirmative shape to follow."),
        GuardianRejectionReason::Matter => Some("durable, but not the psyche's intent. Intent is a durable UNIVERSAL RULE the psyche wants — a standing direction about the work or the world, and it is rare. Matter is concrete content instead: (a) scoped to a single mechanism, component, or one-off architectural decision — code, an architecture, a specification, a mechanism, a manual entry, or what Spirit / the guardian / the system / a process IS; or (b) Spirit-usage / agent-training material — any rule about how to use, operate, or interpret Spirit itself. STRIP TEST: an action performed on or with Spirit is matter; a general work-or-world behavior Spirit merely records is intent. Matter belongs written in the repository — a repo file, ARCHITECTURE doc, skill, or bead — not the intent database. Remand: name its proper home and record it there. When a record mixes a thin directive with such matter, treat the whole thing as Matter — the directive can be re-captured cleanly on its own later."),
        GuardianRejectionReason::Compound => Some("the Entry bundles several separable arrows that belong in distinct records."),
        GuardianRejectionReason::UnclearDomain => Some("the domain is missing or wrong. A named instance (spirit, rkyv, DeepSeek) is a referent, not a domain; domains are universal subjects."),
        GuardianRejectionReason::UnclearPrivacy => Some("the privacy level is unsafe or underspecified — e.g. personal-affairs substance recorded at Zero (public)."),
        GuardianRejectionReason::Duplicate => Some("a live record already states the same forward arrow. Remand: the daemon bumps the canonical record's importance."),
        GuardianRejectionReason::Contradiction => Some("the candidate negates a live psyche arrow without a verbatim psyche quote authorizing the reversal. Remand: provide authorizing testimony, then file the coherent maintenance operation instead of a conflicting sibling Record."),
        GuardianRejectionReason::ClarifyTramples => Some("a Clarify or ChangeRecord redirects, inverts, or hardens the original arrow instead of sharpening it — that is a Supersede, not a Clarify."),
        GuardianRejectionReason::ClarifyLosesMeaning => Some("a Clarify, ChangeRecord, or collapsed multi-target Supersede silently drops material meaning the original record(s) carried."),
        GuardianRejectionReason::SupersedeTargetMissing => Some("a named target record is absent from the supplied bundle, so the operation cannot be judged against what it claims to replace."),
        GuardianRejectionReason::RetrievalInsufficient => Some("the supplied live-record bundle is too thin to judge duplicate / contradiction / target. An EMPTY bundle for a genuinely novel Record is fine — that is not insufficiency."),
        GuardianRejectionReason::HarnessUnavailable => None,
        GuardianRejectionReason::HarnessMalformed => None,
        GuardianRejectionReason::HarnessTimedOut => None,
    }
}

/// The atom that names a reason on the wire: its variant name.
pub open spec fn atom_of(reason: GuardianRejectionReason) -> &'static str {
    match reason {
        GuardianRejectionReason::MissingTestimony => "MissingTestimony",
        GuardianRejectionReason::TestimonyFabricated => "TestimonyFabricated",
        GuardianRejectionReason::InsufficientWarrant => "InsufficientWarrant",
        GuardianRejectionReason::Overstated => "Overstated",
        GuardianRejectionReason::ImportanceUnsupported => "ImportanceUnsupported",
        GuardianRejectionReason::NonIntent => "NonIntent",
        GuardianRejectionReason::NegativeGuideline => "NegativeGuideline",
        GuardianRejectionReason::Matter => "Matter",
        GuardianRejectionReason::Compound => "Compound",
        GuardianRejectionReason::UnclearDomain => "UnclearDomain",
        GuardianRejectionReason::UnclearPrivacy => "UnclearPrivacy",
        GuardianRejectionReason::Duplicate => "Duplicate",
        GuardianRejectionReason::Contradiction => "Contradiction",
        GuardianRejectionReason::ClarifyTramples => "ClarifyTramples",
        GuardianRejectionReason::ClarifyLosesMeaning => "ClarifyLosesMeaning",
        GuardianRejectionReason::SupersedeTargetMissing => "SupersedeTargetMissing",
        GuardianRejectionReason::RetrievalInsufficient => "RetrievalInsufficient",
        GuardianRejectionReason::HarnessUnavailable => "HarnessUnavailable",
        GuardianRejectionReason::HarnessMalformed => "HarnessMalformed",
        GuardianRejectionReason::HarnessTimedOut => "HarnessTimedOut",
    }
}

/// The reasons the judge may name, in the order it is shown them.
pub open spec fn model_reason_list() -> Seq<GuardianRejectionReason> {
    seq![
        GuardianRejectionReason::MissingTestimony,
        GuardianRejectionReason::TestimonyFabricated,
        GuardianRejectionReason::InsufficientWarrant,
        GuardianRejectionReason::Overstated,
        GuardianRejectionReason::ImportanceUnsupported,
        GuardianRejectionReason::NonIntent,
        GuardianRejectionReason::NegativeGuideline,
        GuardianRejectionReason::Matter,
        GuardianRejectionReason::Compound,
        GuardianRejectionReason::UnclearDomain,
        GuardianRejectionReason::UnclearPrivacy,
        GuardianRejectionReason::Duplicate,
        GuardianRejectionReason::Contradiction,
        GuardianRejectionReason::ClarifyTramples,
        GuardianRejectionReason::ClarifyLosesMeaning,
        GuardianRejectionReason::SupersedeTargetMissing,
        GuardianRejectionReason::RetrievalInsufficient,
    ]
}

impl GuardianRejectionReason {
    /// The atom naming this reason on the wire.
    pub fn atom(&self) -> (r: &'static str)
        ensures
            r == atom_of(*self),
    {
        match self {
            GuardianRejectionReason::MissingTestimony => "MissingTestimony",
            GuardianRejectionReason::TestimonyFabricated => "TestimonyFabricated",
            GuardianRejectionReason::InsufficientWarrant => "InsufficientWarrant",
            GuardianRejectionReason::Overstated => "Overstated",
            GuardianRejectionReason::ImportanceUnsupported => "ImportanceUnsupported",
            GuardianRejectionReason::NonIntent => "NonIntent",
            GuardianRejectionReason::NegativeGuideline => "NegativeGuideline",
            GuardianRejectionReason::Matter => "Matter",
            GuardianRejectionReason::Compound => "Compound",
            GuardianRejectionReason::UnclearDomain => "UnclearDomain",
            GuardianRejectionReason::UnclearPrivacy => "UnclearPrivacy",
            GuardianRejectionReason::Duplicate => "Duplicate",
            GuardianRejectionReason::Contradiction => "Contradiction",
            GuardianRejectionReason::ClarifyTramples => "ClarifyTramples",
            GuardianRejectionReason::ClarifyLosesMeaning => "ClarifyLosesMeaning",
            GuardianRejectionReason::SupersedeTargetMissing => "SupersedeTargetMissing",
            GuardianRejectionReason::RetrievalInsufficient => "RetrievalInsufficient",
            GuardianRejectionReason::HarnessUnavailable => "HarnessUnavailable",
            GuardianRejectionReason::HarnessMalformed => "HarnessMalformed",
            GuardianRejectionReason::HarnessTimedOut => "HarnessTimedOut",
        }
    }

    /// The one-line gloss the judge is shown for this reason, or `None` for
    /// a reason only the daemon sets.
    pub fn admission_gloss(&self) -> (r: Option<&'static str>)
        ensures
            r == gloss_of(*self),
            r is None <==> is_harness_reason(*self),
    {
        match self {
            GuardianRejectionReason::MissingTestimony => Some("no verbatim quote at all, or a bare affirmation (yes / do it) with no antecedent. An evidentiary production failure — NOT RetrievalInsufficient, NOT NonIntent."),
            GuardianRejectionReason::TestimonyFabricated => Some("a quote that reads like agent prose rather than how a human actually talks, or one suspiciously perfect for the claim. Heuristic only."),
            GuardianRejectionReason::InsufficientWarrant => Some("the reasoning and quotes do not license THIS submission: on-point words that do not argue this point, or a destructive op (Supersede / Retire / meaning-changing ChangeRecord / certainty downgrade) carrying no verbatim psyche authorization, or a fresh Record whose evidence warrants editing an existing target or resolving a live conflict through maintenance instead."),
            GuardianRejectionReason::Overstated => Some("the claimed Certainty outruns the quote's modal strength (e.g. High claimed on could / maybe / I think). Read modality off the QUOTE, never the agent's framing."),
            GuardianRejectionReason::ImportanceUnsupported => Some("the Importance rung is not justified from its OWN evidence (direct psyche declaration, recurrence, architectural centrality, blast radius, keeps-coming-up, or blocks-other-work). Confident tone is not evidence of importance."),
            GuardianRejectionReason::NonIntent => Some("task chatter, a status update, or a transient reaction — not durable intent that still guides once the current task is erased."),
            GuardianRejectionReason::NegativeGuideline => Some("the candidate's operative guidance is framed primarily as an exclusion, prohibition, forbidden wording, or definition-by-negation. Remand: state the affirmative shape to follow."),
            GuardianRejectionReason::Matter => Some("durable, but not the psyche's intent. Intent is a durable UNIVERSAL RULE the psyche wants — a standing direction about the work or the world, and it is rare. Matter is concrete content instead: (a) scoped to a single mechanism, component, or one-off architectural decision — code, an architecture, a specification, a mechanism, a manual entry, or what Spirit / the guardian / the system / a process IS; or (b) Spirit-usage / agent-training material — any rule about how to use, operate, or interpret Spirit itself. STRIP TEST: an action performed on or with Spirit is matter; a general work-or-world behavior Spirit merely records is intent. Matter belongs written in the repository — a repo file, ARCHITECTURE doc, skill, or bead — not the intent database. Remand: name its proper home and record it there. When a record mixes a thin directive with such matter, treat the whole thing as Matter — the directive can be re-captured cleanly on its own later."),
            GuardianRejectionReason::Compound => Some("the Entry bundles several separable arrows that belong in distinct records."),
            GuardianRejectionReason::UnclearDomain => Some("the domain is missing or wrong. A named instance (spirit, rkyv, DeepSeek) is a referent, not a domain; domains are universal subjects."),
            GuardianRejectionReason::UnclearPrivacy => Some("the privacy level is unsafe or underspecified — e.g. personal-affairs substance recorded at Zero (public)."),
            GuardianRejectionReason::Duplicate => Some("a live record already states the same forward arrow. Remand: the daemon bumps the canonical record's importance."),
            GuardianRejectionReason::Contradiction => Some("the candidate negates a live psyche arrow without a verbatim psyche quote authorizing the reversal. Remand: provide authorizing testimony, then file the coherent maintenance operation instead of a conflicting sibling Record."),
            GuardianRejectionReason::ClarifyTramples => Some("a Clarify or ChangeRecord redirects, inverts, or hardens the original arrow instead of sharpening it — that is a Supersede, not a Clarify."),
            GuardianRejectionReason::ClarifyLosesMeaning => Some("a Clarify, ChangeRecord, or collapsed multi-target Supersede silently drops material meaning the original record(s) carried."),
            GuardianRejectionReason::SupersedeTargetMissing => Some("a named target record is absent from the supplied bundle, so the operation cannot be judged against what it claims to replace."),
            GuardianRejectionReason::RetrievalInsufficient => Some("the supplied live-record bundle is too thin to judge duplicate / contradiction / target. An EMPTY bundle for a genuinely novel Record is fine — that is not insufficiency."),
            GuardianRejectionReason::HarnessUnavailable => None,
            GuardianRejectionReason::HarnessMalformed => None,
            GuardianRejectionReason::HarnessTimedOut => None,
        }
    }
}

/// The reasons the judge may name, in presentation order: every reason
/// except the daemon's own.
pub fn model_reasons() -> (r: Vec<GuardianRejectionReason>)
    ensures
        r@ == model_reason_list(),
{
    let mut reasons: Vec<GuardianRejectionReason> = Vec::new();
    reasons.push(GuardianRejectionReason::MissingTestimony);
    reasons.push(GuardianRejectionReason::TestimonyFabricated);
    reasons.push(GuardianRejectionReason::InsufficientWarrant);
    reasons.push(GuardianRejectionReason::Overstated);
    reasons.push(GuardianRejectionReason::ImportanceUnsupported);
    reasons.push(GuardianRejectionReason::NonIntent);
    reasons.push(GuardianRejectionReason::NegativeGuideline);
    reasons.push(GuardianRejectionReason::Matter);
    reasons.push(GuardianRejectionReason::Compound);
    reasons.push(GuardianRejectionReason::UnclearDomain);
    reasons.push(GuardianRejectionReason::UnclearPrivacy);
    reasons.push(GuardianRejectionReason::Duplicate);
    reasons.push(GuardianRejectionReason::Contradiction);
    reasons.push(GuardianRejectionReason::ClarifyTramples);
    reasons.push(GuardianRejectionReason::ClarifyLosesMeaning);
    reasons.push(GuardianRejectionReason::SupersedeTargetMissing);
    reasons.push(GuardianRejectionReason::RetrievalInsufficient);
    assert(reasons@ =~= model_reason_list());
    reasons
}

/// Every reason the judge may name carries a gloss, none of the daemon's
/// own reasons is among them, every other reason is, and none is listed
/// twice.
pub proof fn lemma_model_reasons_are_glossed()
    ensures
        model_reason_list().len() == 17,
        forall|i: int|
            0 <= i < model_reason_list().len() ==> gloss_of(#[trigger] model_reason_list()[i]) is Some,
        forall|i: int|
            0 <= i < model_reason_list().len() ==> !is_harness_reason(#[trigger] model_reason_list()[i]),
        forall|reason: GuardianRejectionReason|
            !is_harness_reason(reason) ==> #[trigger] model_reason_list().contains(reason),
        forall|i: int, j: int|
            0 <= i < j < model_reason_list().len() ==> model_reason_list()[i] != model_reason_list()[j],
{
    let l = model_reason_list();
    assert forall|reason: GuardianRejectionReason| !is_harness_reason(reason) implies #[trigger] l.contains(reason) by {
        match reason {
            GuardianRejectionReason::MissingTestimony => {
                assert(l[0] == reason);
            },
            GuardianRejectionReason::TestimonyFabricated => {
                assert(l[1] == reason);
            },
            GuardianRejectionReason::InsufficientWarrant => {
                assert(l[2] == reason);
            },
            GuardianRejectionReason::Overstated => {
                assert(l[3] == reason);
            },
            GuardianRejectionReason::ImportanceUnsupported => {
                assert(l[4] == reason);
            },
            GuardianRejectionReason::NonIntent => {
                assert(l[5] == reason);
            },
            GuardianRejectionReason::NegativeGuideline => {
                assert(l[6] == reason);
            },
            GuardianRejectionReason::Matter => {
                assert(l[7] == reason);
            },
            GuardianRejectionReason::Compound => {
                assert(l[8] == reason);
            },
            GuardianRejectionReason::UnclearDomain => {
                assert(l[9] == reason);
            },
            GuardianRejectionReason::UnclearPrivacy => {
                assert(l[10] == reason);
            },
            GuardianRejectionReason::Duplicate => {
                assert(l[11] == reason);
            },
            GuardianRejectionReason::Contradiction => {
                assert(l[12] == reason);
            },
            GuardianRejectionReason::ClarifyTramples => {
                assert(l[13] == reason);
            },
            GuardianRejectionReason::ClarifyLosesMeaning => {
                assert(l[14] == reason);
            },
            GuardianRejectionReason::SupersedeTargetMissing => {
                assert(l[15] == reason);
            },
            GuardianRejectionReason::RetrievalInsufficient => {
                assert(l[16] == reason);
            },
            _ => {},
        }
    }
}

/// A guardian's prose explanation of a verdict.
#[derive(Debug)]
pub struct Explanation(pub String);

impl Explanation {
    pub fn new(text: &str) -> (r: Self)
        ensures
            r.0@ == text@,
    {
        Explanation(text.to_string())
    }
}

impl Clone for Explanation {
    fn clone(&self) -> (r: Self)
        ensures
            r == *self,
    {
        Explanation(self.0.clone())
    }
}

/// The records a read or a verdict carries.
#[derive(Debug)]
pub struct RecordSet(pub Vec<ObservedRecord>);

impl Clone for RecordSet {
    fn clone(&self) -> (r: Self)
        ensures
            crate::store::observed_view(r.0@) == crate::store::observed_view(self.0@),
    {
        let ghost view = crate::store::observed_view(self.0@);
        let mut out: Vec<ObservedRecord> = Vec::new();
        let mut i: usize = 0;
        while i < self.0.len()
            invariant
                i <= self.0.len(),
                view == crate::store::observed_view(self.0@),
                crate::store::observed_view(out@) == view.subrange(0, i as int),
            decreases self.0.len() - i,
        {
            let ghost before = crate::store::observed_view(out@);
            out.push(self.0[i].clone());
            assert(crate::store::observed_view(out@) =~= before.push(view[i as int]));
            assert(view.subrange(0, i + 1) =~= view.subrange(0, i as int).push(view[i as int]));
            i = i + 1;
        }
        assert(view.subrange(0, self.0.len() as int) =~= view);
        RecordSet(out)
    }
}

/// A refused write: the reason, the records it was judged against, and the
/// explanation.
#[derive(Debug)]
pub struct GuardianRejection {
    pub guardian_rejection_reason: GuardianRejectionReason,
    pub record_set: RecordSet,
    pub explanation: Explanation,
}

/// A refused referent registration.
#[derive(Debug)]
pub struct ReferentGuardianRejection {
    pub referent_guardian_rejection_reason: ReferentGuardianRejectionReason,
    pub registered_referents: Vec<StoredReferent>,
    pub explanation: Explanation,
}

/// The judge's refusal of a write.
#[derive(Debug)]
pub struct Reject {
    pub guardian_rejection_reason: GuardianRejectionReason,
    pub explanation: Explanation,
}

/// The judge's refusal of a referent registration.
#[derive(Debug)]
pub struct RejectReferent {
    pub referent_guardian_rejection_reason: ReferentGuardianRejectionReason,
    pub explanation: Explanation,
}

/// The judge's verdict on a write.
#[derive(Debug)]
pub enum GuardianVerdict {
    Accept,
    Reject(Reject),
}

/// The judge's verdict on a referent registration.
#[derive(Debug)]
pub enum ReferentGuardianVerdict {
    Accept,
    RejectReferent(RejectReferent),
}

impl Clone for Reject {
    fn clone(&self) -> (r: Self)
        ensures
            r == *self,
    {
        Reject { guardian_rejection_reason: self.guardian_rejection_reason, explanation: self.explanation.clone() }
    }
}

impl Clone for RejectReferent {
    fn clone(&self) -> (r: Self)
        ensures
            r == *self,
    {
        RejectReferent {
            referent_guardian_rejection_reason: self.referent_guardian_rejection_reason,
            explanation: self.explanation.clone(),
        }
    }
}

impl Clone for GuardianVerdict {
    fn clone(&self) -> (r: Self)
        ensures
            r == *self,
    {
        match self {
            GuardianVerdict::Accept => GuardianVerdict::Accept,
            GuardianVerdict::Reject(rejection) => GuardianVerdict::Reject(rejection.clone()),
        }
    }
}

impl Clone for ReferentGuardianVerdict {
    fn clone(&self) -> (r: Self)
        ensures
            r == *self,
    {
        match self {
            ReferentGuardianVerdict::Accept => ReferentGuardianVerdict::Accept,
            ReferentGuardianVerdict::RejectReferent(rejection) => ReferentGuardianVerdict::RejectReferent(
                rejection.clone(),
            ),
        }
    }
}

impl GuardianVerdict {
    pub fn reject(rejection: Reject) -> (r: Self)
        ensures
            r == GuardianVerdict::Reject(rejection),
    {
        GuardianVerdict::Reject(rejection)
    }

    /// A refusal the daemon issues itself, for a reason such as an
    /// unavailable judge.
    pub fn from_harness_rejection(reason: GuardianRejectionReason, explanation: Explanation) -> (r:
        Self)
        ensures
            r == GuardianVerdict::Reject(
                Reject { guardian_rejection_reason: reason, explanation },
            ),
    {
        GuardianVerdict::reject(Reject { guardian_rejection_reason: reason, explanation })
    }
}

impl ReferentGuardianVerdict {
    pub fn reject_referent(rejection: RejectReferent) -> (r: Self)
        ensures
            r == ReferentGuardianVerdict::RejectReferent(rejection),
    {
        ReferentGuardianVerdict::RejectReferent(rejection)
    }

    pub fn from_harness_rejection(
        reason: ReferentGuardianRejectionReason,
        explanation: Explanation,
    ) -> (r: Self)
        ensures
            r == ReferentGuardianVerdict::RejectReferent(
                RejectReferent { referent_guardian_rejection_reason: reason, explanation },
            ),
    {
        ReferentGuardianVerdict::reject_referent(
            RejectReferent { referent_guardian_rejection_reason: reason, explanation },
        )
    }
}

} // verus!
