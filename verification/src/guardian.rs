//! The agent guardian: its configuration, the judge's replies as the
//! daemon reads them, and how a reply becomes a verdict and a rejection.
//!
//! The judge is consulted over a socket; what it answers is taken here as
//! a value, so every way a reply turns into a verdict is checked.

use vstd::prelude::*;

use crate::store::DatabaseMarker;
use crate::guardian_journal::{
    same_operation, writes_private_entry, GuardianDecision, GuardianOperation, JudgmentScope,
};
use crate::referent::{registry_view, ReferentRegistration, StoredReferent};
use crate::store::observed_view;
use crate::verdict::{
    Explanation, GuardianRejection, GuardianRejectionReason, GuardianVerdict, RecordSet,
    ReferentGuardianRejection, ReferentGuardianRejectionReason, ReferentGuardianVerdict, Reject,
    RejectReferent,
};

verus! {

broadcast use vstd::string::group_string_axioms;

/// Why the judge refused an admission.
#[derive(Clone, Copy, Debug, PartialEq, Eq, Structural)]
pub enum AdmissionRejectionReason {
    Duplicate,
    Contradiction,
    Compound,
    NonIntent,
    NegativeGuideline,
    Matter,
    UnclearPrivacy,
    UnclearDomain,
    ClarifyTramples,
    ClarifyLosesMeaning,
    SupersedeTargetMissing,
    RetrievalInsufficient,
    MissingTestimony,
    TestimonyFabricated,
    InsufficientWarrant,
    Overstated,
    ImportanceUnsupported,
    JudgeUnavailable,
    JudgeMalformed,
    JudgeTimedOut,
}

/// Why the judge refused a referent registration.
#[derive(Clone, Copy, Debug, PartialEq, Eq, Structural)]
pub enum ReferentRegistrationRejectionReason {
    Duplicate,
    Ambiguous,
    TooVague,
    AliasCollision,
    NonReferent,
    UnclearJustification,
    JudgeUnavailable,
    JudgeMalformed,
    JudgeTimedOut,
}

/// Why the judge refused the request itself.
#[derive(Clone, Copy, Debug, PartialEq, Eq, Structural)]
pub enum SpiritJudgeRequestRejectionReason {
    InvalidRequest,
    ConfigurationUnavailable,
    ResponseFormatFailure,
    ProviderUnavailable,
    ProviderRejected,
}

/// The judge's diagnostic: redacted prose and the hashes of the content it
/// refers to.
#[derive(Debug)]
pub struct JudgeDiagnostic {
    pub redacted_text: String,
    pub content_hashes: Vec<String>,
}

/// The judge's verdict on an admission.
#[derive(Debug, Clone, Copy, PartialEq, Eq, Structural)]
pub enum AdmissionJudgeVerdict {
    Accept,
    Reject(AdmissionRejectionReason),
}

/// The judge's answer to an admission request.
#[derive(Debug)]
pub struct AdmissionJudgeResponse {
    pub verdict: AdmissionJudgeVerdict,
    pub diagnostic: JudgeDiagnostic,
}

/// The judge's verdict on a referent registration.
#[derive(Debug, Clone, Copy, PartialEq, Eq, Structural)]
pub enum ReferentRegistrationJudgeVerdict {
    Accept,
    RejectReferent(ReferentRegistrationRejectionReason),
}

/// The judge's answer to a referent request.
#[derive(Debug)]
pub struct ReferentRegistrationJudgeResponse {
    pub verdict: ReferentRegistrationJudgeVerdict,
    pub diagnostic: JudgeDiagnostic,
}

/// The judge's refusal of a request.
#[derive(Debug)]
pub struct SpiritJudgeRequestRejection {
    pub reason: SpiritJudgeRequestRejectionReason,
    pub diagnostic: JudgeDiagnostic,
}

/// Any reply the judge gives.
#[derive(Debug)]
pub enum SpiritJudgeReply {
    AdmissionJudged(AdmissionJudgeResponse),
    ReferentRegistrationJudged(ReferentRegistrationJudgeResponse),
    RequestRejected(SpiritJudgeRequestRejection),
}

/// Why the judge could not be consulted.
#[derive(Debug)]
pub enum AgentGuardianError {
    /// The socket failed; `timed_out` when it timed out or would block.
    Socket { timed_out: bool, message: String },
    /// A frame could not be encoded or decoded.
    Frame(String),
    /// The judge answered with the wrong kind of frame.
    WrongReply(String),
}

/// The guardian reason an admission refusal becomes; the judge's own
/// failures become the harness reasons.
pub open spec fn admission_reason(reason: AdmissionRejectionReason) -> GuardianRejectionReason {
    match reason {
        AdmissionRejectionReason::Duplicate => GuardianRejectionReason::Duplicate,
        AdmissionRejectionReason::Contradiction => GuardianRejectionReason::Contradiction,
        AdmissionRejectionReason::Compound => GuardianRejectionReason::Compound,
        AdmissionRejectionReason::NonIntent => GuardianRejectionReason::NonIntent,
        AdmissionRejectionReason::NegativeGuideline => GuardianRejectionReason::NegativeGuideline,
        AdmissionRejectionReason::Matter => GuardianRejectionReason::Matter,
        AdmissionRejectionReason::UnclearPrivacy => GuardianRejectionReason::UnclearPrivacy,
        AdmissionRejectionReason::UnclearDomain => GuardianRejectionReason::UnclearDomain,
        AdmissionRejectionReason::ClarifyTramples => GuardianRejectionReason::ClarifyTramples,
        AdmissionRejectionReason::ClarifyLosesMeaning => GuardianRejectionReason::ClarifyLosesMeaning,
        AdmissionRejectionReason::SupersedeTargetMissing => GuardianRejectionReason::SupersedeTargetMissing,
        AdmissionRejectionReason::RetrievalInsufficient => GuardianRejectionReason::RetrievalInsufficient,
        AdmissionRejectionReason::MissingTestimony => GuardianRejectionReason::MissingTestimony,
        AdmissionRejectionReason::TestimonyFabricated => GuardianRejectionReason::TestimonyFabricated,
        AdmissionRejectionReason::InsufficientWarrant => GuardianRejectionReason::InsufficientWarrant,
        AdmissionRejectionReason::Overstated => GuardianRejectionReason::Overstated,
        AdmissionRejectionReason::ImportanceUnsupported => GuardianRejectionReason::ImportanceUnsupported,
        AdmissionRejectionReason::JudgeUnavailable => GuardianRejectionReason::HarnessUnavailable,
        AdmissionRejectionReason::JudgeMalformed => GuardianRejectionReason::HarnessMalformed,
        AdmissionRejectionReason::JudgeTimedOut => GuardianRejectionReason::HarnessTimedOut,
    }
}

/// The guardian reason a referent refusal becomes.
pub open spec fn referent_reason(reason: ReferentRegistrationRejectionReason) -> ReferentGuardianRejectionReason {
    match reason {
        ReferentRegistrationRejectionReason::Duplicate => ReferentGuardianRejectionReason::Duplicate,
        ReferentRegistrationRejectionReason::Ambiguous => ReferentGuardianRejectionReason::Ambiguous,
        ReferentRegistrationRejectionReason::TooVague => ReferentGuardianRejectionReason::TooVague,
        ReferentRegistrationRejectionReason::AliasCollision => ReferentGuardianRejectionReason::AliasCollision,
        ReferentRegistrationRejectionReason::NonReferent => ReferentGuardianRejectionReason::NonReferent,
        ReferentRegistrationRejectionReason::UnclearJustification => ReferentGuardianRejectionReason::UnclearJustification,
        ReferentRegistrationRejectionReason::JudgeUnavailable => ReferentGuardianRejectionReason::HarnessUnavailable,
        ReferentRegistrationRejectionReason::JudgeMalformed => ReferentGuardianRejectionReason::HarnessMalformed,
        ReferentRegistrationRejectionReason::JudgeTimedOut => ReferentGuardianRejectionReason::HarnessTimedOut,
    }
}

/// A refused request is a malformed harness when the request or the
/// configuration or the response format was at fault, an unavailable one
/// when the provider was.
pub open spec fn request_rejection_is_malformed(reason: SpiritJudgeRequestRejectionReason) -> bool {
    match reason {
        SpiritJudgeRequestRejectionReason::InvalidRequest
        | SpiritJudgeRequestRejectionReason::ConfigurationUnavailable
        | SpiritJudgeRequestRejectionReason::ResponseFormatFailure => true,
        _ => false,
    }
}

/// Carries the judge's admission refusal reason over to the guardian's
/// reasons.
pub struct AdmissionRejectionProjection {
    pub reason: AdmissionRejectionReason,
}

impl AdmissionRejectionProjection {
    pub fn new(reason: AdmissionRejectionReason) -> (r: Self)
        ensures
            r.reason == reason,
    {
        AdmissionRejectionProjection { reason }
    }

    pub fn into_signal(self) -> (r: GuardianRejectionReason)
        ensures
            r == admission_reason(self.reason),
    {
        match self.reason {
            AdmissionRejectionReason::Duplicate => GuardianRejectionReason::Duplicate,
            AdmissionRejectionReason::Contradiction => GuardianRejectionReason::Contradiction,
            AdmissionRejectionReason::Compound => GuardianRejectionReason::Compound,
            AdmissionRejectionReason::NonIntent => GuardianRejectionReason::NonIntent,
            AdmissionRejectionReason::NegativeGuideline => GuardianRejectionReason::NegativeGuideline,
            AdmissionRejectionReason::Matter => GuardianRejectionReason::Matter,
            AdmissionRejectionReason::UnclearPrivacy => GuardianRejectionReason::UnclearPrivacy,
            AdmissionRejectionReason::UnclearDomain => GuardianRejectionReason::UnclearDomain,
            AdmissionRejectionReason::ClarifyTramples => GuardianRejectionReason::ClarifyTramples,
            AdmissionRejectionReason::ClarifyLosesMeaning => GuardianRejectionReason::ClarifyLosesMeaning,
            AdmissionRejectionReason::SupersedeTargetMissing => GuardianRejectionReason::SupersedeTargetMissing,
            AdmissionRejectionReason::RetrievalInsufficient => GuardianRejectionReason::RetrievalInsufficient,
            AdmissionRejectionReason::MissingTestimony => GuardianRejectionReason::MissingTestimony,
            AdmissionRejectionReason::TestimonyFabricated => GuardianRejectionReason::TestimonyFabricated,
            AdmissionRejectionReason::InsufficientWarrant => GuardianRejectionReason::InsufficientWarrant,
            AdmissionRejectionReason::Overstated => GuardianRejectionReason::Overstated,
            AdmissionRejectionReason::ImportanceUnsupported => GuardianRejectionReason::ImportanceUnsupported,
            AdmissionRejectionReason::JudgeUnavailable => GuardianRejectionReason::HarnessUnavailable,
            AdmissionRejectionReason::JudgeMalformed => GuardianRejectionReason::HarnessMalformed,
            AdmissionRejectionReason::JudgeTimedOut => GuardianRejectionReason::HarnessTimedOut,
        }
    }
}

/// Carries the judge's referent refusal reason over to the guardian's.
pub struct ReferentRejectionProjection {
    pub reason: ReferentRegistrationRejectionReason,
}

impl ReferentRejectionProjection {
    pub fn new(reason: ReferentRegistrationRejectionReason) -> (r: Self)
        ensures
            r.reason == reason,
    {
        ReferentRejectionProjection { reason }
    }

    pub fn into_signal(self) -> (r: ReferentGuardianRejectionReason)
        ensures
            r == referent_reason(self.reason),
    {
        match self.reason {
            ReferentRegistrationRejectionReason::Duplicate => ReferentGuardianRejectionReason::Duplicate,
            ReferentRegistrationRejectionReason::Ambiguous => ReferentGuardianRejectionReason::Ambiguous,
            ReferentRegistrationRejectionReason::TooVague => ReferentGuardianRejectionReason::TooVague,
            ReferentRegistrationRejectionReason::AliasCollision => ReferentGuardianRejectionReason::AliasCollision,
            ReferentRegistrationRejectionReason::NonReferent => ReferentGuardianRejectionReason::NonReferent,
            ReferentRegistrationRejectionReason::UnclearJustification => ReferentGuardianRejectionReason::UnclearJustification,
            ReferentRegistrationRejectionReason::JudgeUnavailable => ReferentGuardianRejectionReason::HarnessUnavailable,
            ReferentRegistrationRejectionReason::JudgeMalformed => ReferentGuardianRejectionReason::HarnessMalformed,
            ReferentRegistrationRejectionReason::JudgeTimedOut => ReferentGuardianRejectionReason::HarnessTimedOut,
        }
    }
}

/// Carries the judge's request refusal over to a harness reason.
pub struct RequestRejectionProjection {
    pub reason: SpiritJudgeRequestRejectionReason,
}

impl RequestRejectionProjection {
    pub fn new(reason: SpiritJudgeRequestRejectionReason) -> (r: Self)
        ensures
            r.reason == reason,
    {
        RequestRejectionProjection { reason }
    }

    pub fn to_guardian_reason(&self) -> (r: GuardianRejectionReason)
        ensures
            r == if request_rejection_is_malformed(self.reason) {
                GuardianRejectionReason::HarnessMalformed
            } else {
                GuardianRejectionReason::HarnessUnavailable
            },
    {
        match self.reason {
            SpiritJudgeRequestRejectionReason::InvalidRequest
            | SpiritJudgeRequestRejectionReason::ConfigurationUnavailable
            | SpiritJudgeRequestRejectionReason::ResponseFormatFailure => GuardianRejectionReason::HarnessMalformed,
            SpiritJudgeRequestRejectionReason::ProviderUnavailable
            | SpiritJudgeRequestRejectionReason::ProviderRejected => GuardianRejectionReason::HarnessUnavailable,
        }
    }

    pub fn to_referent_reason(&self) -> (r: ReferentGuardianRejectionReason)
        ensures
            r == if request_rejection_is_malformed(self.reason) {
                ReferentGuardianRejectionReason::HarnessMalformed
            } else {
                ReferentGuardianRejectionReason::HarnessUnavailable
            },
    {
        match self.reason {
            SpiritJudgeRequestRejectionReason::InvalidRequest
            | SpiritJudgeRequestRejectionReason::ConfigurationUnavailable
            | SpiritJudgeRequestRejectionReason::ResponseFormatFailure => ReferentGuardianRejectionReason::HarnessMalformed,
            SpiritJudgeRequestRejectionReason::ProviderUnavailable
            | SpiritJudgeRequestRejectionReason::ProviderRejected => ReferentGuardianRejectionReason::HarnessUnavailable,
        }
    }
}

/// The hashes joined by a comma and a space.
pub open spec fn joined_hashes(hashes: Seq<Seq<char>>) -> Seq<char>
    decreases hashes.len(),
{
    if hashes.len() == 0 {
        Seq::empty()
    } else if hashes.len() == 1 {
        hashes[0]
    } else {
        joined_hashes(hashes.drop_last()) + ", "@ + hashes.last()
    }
}

/// The explanation a diagnostic becomes: its redacted text, followed by
/// the content hashes in brackets when there are any.
pub open spec fn diagnostic_explanation(text: Seq<char>, hashes: Seq<Seq<char>>) -> Seq<char> {
    if hashes.len() == 0 {
        text
    } else {
        text + " ["@ + joined_hashes(hashes) + "]"@
    }
}

/// Turns the judge's diagnostic into a guardian explanation.
pub struct JudgeDiagnosticProjection {
    pub diagnostic: JudgeDiagnostic,
}

impl JudgeDiagnosticProjection {
    pub fn new(diagnostic: JudgeDiagnostic) -> (r: Self)
        ensures
            r.diagnostic == diagnostic,
    {
        JudgeDiagnosticProjection { diagnostic }
    }

    pub fn into_explanation(self) -> (r: Explanation)
        ensures
            r.0@ == diagnostic_explanation(
                self.diagnostic.redacted_text@,
                self.diagnostic.content_hashes@.map_values(|h: String| h@),
            ),
    {
        let hashes = &self.diagnostic.content_hashes;
        let ghost hs = hashes@.map_values(|h: String| h@);
        if hashes.len() == 0 {
            return Explanation(self.diagnostic.redacted_text);
        }
        let mut joined = String::new();
        let mut i: usize = 0;
        assert(joined@ =~= joined_hashes(hs.take(0)));
        while i < hashes.len()
            invariant
                0 < hashes.len(),
                i <= hashes.len(),
                hs == hashes@.map_values(|h: String| h@),
                joined@ == joined_hashes(hs.take(i as int)),
            decreases hashes.len() - i,
        {
            proof {
                reveal_strlit(", ");
                assert(hs.take(i + 1).drop_last() =~= hs.take(i as int));
                assert(hs.take(i + 1).last() == hashes@[i as int]@);
            }
            if i > 0 {
                joined.append(", ");
            }
            joined.append(hashes[i].as_str());
            proof {
                if i == 0 {
                    assert(joined@ =~= hs.take(1)[0]);
                }
            }
            i = i + 1;
        }
        proof {
            assert(hs.take(hashes.len() as int) =~= hs);
            reveal_strlit(" [");
            reveal_strlit("]");
        }
        let mut text = self.diagnostic.redacted_text;
        text.append(" [");
        text.append(joined.as_str());
        text.append("]");
        Explanation(text)
    }
}

impl AgentGuardianError {
    /// The harness reason a failed consultation gives a write: a timeout
    /// reads as timed out, anything else as unavailable.
    pub fn guardian_rejection_reason(&self) -> (r: GuardianRejectionReason)
        ensures
            r == judge_error_reason(*self),
    {
        match self {
            AgentGuardianError::Socket { timed_out, .. } => {
                if *timed_out {
                    GuardianRejectionReason::HarnessTimedOut
                } else {
                    GuardianRejectionReason::HarnessUnavailable
                }
            },
            _ => GuardianRejectionReason::HarnessUnavailable,
        }
    }

    /// The harness reason a failed consultation gives a registration.
    pub fn referent_guardian_rejection_reason(&self) -> (r: ReferentGuardianRejectionReason)
        ensures
            r == judge_error_referent_reason(*self),
    {
        match self {
            AgentGuardianError::Socket { timed_out, .. } => {
                if *timed_out {
                    ReferentGuardianRejectionReason::HarnessTimedOut
                } else {
                    ReferentGuardianRejectionReason::HarnessUnavailable
                }
            },
            _ => ReferentGuardianRejectionReason::HarnessUnavailable,
        }
    }

    /// The description of the failure.
    pub fn message(&self) -> (r: String)
        ensures
            r@ == judge_error_text(*self),
    {
        proof {
            reveal_strlit("spirit judge socket unavailable: ");
            reveal_strlit("spirit judge frame failed: ");
            reveal_strlit("spirit judge replied with the wrong operation: ");
        }
        let (prefix, detail): (&str, &String) = match self {
            AgentGuardianError::Socket { message, .. } => ("spirit judge socket unavailable: ", message),
            AgentGuardianError::Frame(message) => ("spirit judge frame failed: ", message),
            AgentGuardianError::WrongReply(what) => ("spirit judge replied with the wrong operation: ", what),
        };
        let mut out = prefix.to_string();
        out.append(detail.as_str());
        out
    }
}

/// The harness reason a failed consultation gives a write.
pub open spec fn judge_error_reason(error: AgentGuardianError) -> GuardianRejectionReason {
    match error {
        AgentGuardianError::Socket { timed_out: true, .. } => GuardianRejectionReason::HarnessTimedOut,
        _ => GuardianRejectionReason::HarnessUnavailable,
    }
}

/// The harness reason a failed consultation gives a registration.
pub open spec fn judge_error_referent_reason(error: AgentGuardianError) -> ReferentGuardianRejectionReason {
    match error {
        AgentGuardianError::Socket { timed_out: true, .. } => ReferentGuardianRejectionReason::HarnessTimedOut,
        _ => ReferentGuardianRejectionReason::HarnessUnavailable,
    }
}

/// The description of a failed consultation.
pub open spec fn judge_error_text(error: AgentGuardianError) -> Seq<char> {
    match error {
        AgentGuardianError::Socket { message, .. } => "spirit judge socket unavailable: "@ + message@,
        AgentGuardianError::Frame(message) => "spirit judge frame failed: "@ + message@,
        AgentGuardianError::WrongReply(what) => "spirit judge replied with the wrong operation: "@ + what@,
    }
}

/// The verdict a judge's admission answer becomes.
pub open spec fn admission_verdict_view(verdict: GuardianVerdict) -> Option<(GuardianRejectionReason, Seq<char>)> {
    match verdict {
        GuardianVerdict::Accept => None,
        GuardianVerdict::Reject(reject) => Some((reject.guardian_rejection_reason, reject.explanation.0@)),
    }
}

/// The verdict a judge's referent answer becomes.
pub open spec fn referent_verdict_view(verdict: ReferentGuardianVerdict) -> Option<(ReferentGuardianRejectionReason, Seq<char>)> {
    match verdict {
        ReferentGuardianVerdict::Accept => None,
        ReferentGuardianVerdict::RejectReferent(reject) => Some((reject.referent_guardian_rejection_reason, reject.explanation.0@)),
    }
}

/// What a judge's reply makes of a write's verdict, which is its own verdict when it
/// judged the admission, a malformed-harness refusal when it answered about
/// a referent, a refusal otherwise.
pub open spec fn admission_verdict_for(reply: Result<SpiritJudgeReply, AgentGuardianError>, verdict: GuardianVerdict) -> bool {
    match reply {
        Ok(SpiritJudgeReply::AdmissionJudged(response)) => admission_verdict_view(verdict) == match response.verdict {
            AdmissionJudgeVerdict::Accept => None,
            AdmissionJudgeVerdict::Reject(reason) => Some((admission_reason(reason), explanation_of(response.diagnostic))),
        },
        Ok(SpiritJudgeReply::ReferentRegistrationJudged(_)) => admission_verdict_view(verdict) == Some((
            GuardianRejectionReason::HarnessMalformed,
            "spirit judge returned a referent reply for an admission request"@,
        )),
        Ok(SpiritJudgeReply::RequestRejected(rejection)) => admission_verdict_view(verdict) == Some((
            if request_rejection_is_malformed(rejection.reason) {
                GuardianRejectionReason::HarnessMalformed
            } else {
                GuardianRejectionReason::HarnessUnavailable
            },
            explanation_of(rejection.diagnostic),
        )),
        Err(error) => admission_verdict_view(verdict) == Some((judge_error_reason(error), judge_error_text(error))),
    }
}

/// What a judge's reply makes of a referent registration's verdict.
pub open spec fn referent_verdict_for(
    reply: Result<SpiritJudgeReply, AgentGuardianError>,
    verdict: ReferentGuardianVerdict,
) -> bool {
    match reply {
        Ok(SpiritJudgeReply::ReferentRegistrationJudged(response)) => referent_verdict_view(verdict) == match response.verdict {
            ReferentRegistrationJudgeVerdict::Accept => None,
            ReferentRegistrationJudgeVerdict::RejectReferent(reason) => Some((referent_reason(reason), explanation_of(response.diagnostic))),
        },
        Ok(SpiritJudgeReply::AdmissionJudged(_)) => referent_verdict_view(verdict) == Some((
            ReferentGuardianRejectionReason::HarnessMalformed,
            "spirit judge returned an admission reply for a referent request"@,
        )),
        Ok(SpiritJudgeReply::RequestRejected(rejection)) => referent_verdict_view(verdict) == Some((
            if request_rejection_is_malformed(rejection.reason) {
                ReferentGuardianRejectionReason::HarnessMalformed
            } else {
                ReferentGuardianRejectionReason::HarnessUnavailable
            },
            explanation_of(rejection.diagnostic),
        )),
        Err(error) => referent_verdict_view(verdict) == Some((judge_error_referent_reason(error), judge_error_text(error))),
    }
}

/// A diagnostic's explanation text.
pub open spec fn explanation_of(diagnostic: JudgeDiagnostic) -> Seq<char> {
    diagnostic_explanation(diagnostic.redacted_text@, diagnostic.content_hashes@.map_values(|h: String| h@))
}

impl GuardianVerdict {
    /// The verdict of an admission answer: accept, or the refusal with
    /// its reason carried over and the diagnostic as explanation.
    pub fn from_admission_response(response: AdmissionJudgeResponse) -> (r: Self)
        ensures
            admission_verdict_view(r) == match response.verdict {
                AdmissionJudgeVerdict::Accept => None,
                AdmissionJudgeVerdict::Reject(reason) => Some((admission_reason(reason), explanation_of(response.diagnostic))),
            },
    {
        match response.verdict {
            AdmissionJudgeVerdict::Accept => GuardianVerdict::Accept,
            AdmissionJudgeVerdict::Reject(reason) => GuardianVerdict::reject(
                Reject {
                    guardian_rejection_reason: AdmissionRejectionProjection::new(reason).into_signal(),
                    explanation: JudgeDiagnosticProjection::new(response.diagnostic).into_explanation(),
                },
            ),
        }
    }

    /// The verdict when the judge refused the request.
    pub fn from_request_rejection(rejection: SpiritJudgeRequestRejection) -> (r: Self)
        ensures
            admission_verdict_view(r) == Some((
                if request_rejection_is_malformed(rejection.reason) {
                    GuardianRejectionReason::HarnessMalformed
                } else {
                    GuardianRejectionReason::HarnessUnavailable
                },
                explanation_of(rejection.diagnostic),
            )),
    {
        let reason = RequestRejectionProjection::new(rejection.reason).to_guardian_reason();
        GuardianVerdict::reject(
            Reject {
                guardian_rejection_reason: reason,
                explanation: JudgeDiagnosticProjection::new(rejection.diagnostic).into_explanation(),
            },
        )
    }

    /// The verdict when the judge could not be consulted.
    pub fn from_judge_error(error: AgentGuardianError) -> (r: Self)
        ensures
            admission_verdict_view(r) == Some((judge_error_reason(error), judge_error_text(error))),
    {
        let reason = error.guardian_rejection_reason();
        GuardianVerdict::reject(Reject { guardian_rejection_reason: reason, explanation: Explanation(error.message()) })
    }
}

impl ReferentGuardianVerdict {
    /// The verdict of a referent answer.
    pub fn from_referent_response(response: ReferentRegistrationJudgeResponse) -> (r: Self)
        ensures
            referent_verdict_view(r) == match response.verdict {
                ReferentRegistrationJudgeVerdict::Accept => None,
                ReferentRegistrationJudgeVerdict::RejectReferent(reason) => Some((referent_reason(reason), explanation_of(response.diagnostic))),
            },
    {
        match response.verdict {
            ReferentRegistrationJudgeVerdict::Accept => ReferentGuardianVerdict::Accept,
            ReferentRegistrationJudgeVerdict::RejectReferent(reason) => ReferentGuardianVerdict::reject_referent(
                RejectReferent {
                    referent_guardian_rejection_reason: ReferentRejectionProjection::new(reason).into_signal(),
                    explanation: JudgeDiagnosticProjection::new(response.diagnostic).into_explanation(),
                },
            ),
        }
    }

    /// The verdict when the judge refused the request.
    pub fn from_request_rejection(rejection: SpiritJudgeRequestRejection) -> (r: Self)
        ensures
            referent_verdict_view(r) == Some((
                if request_rejection_is_malformed(rejection.reason) {
                    ReferentGuardianRejectionReason::HarnessMalformed
                } else {
                    ReferentGuardianRejectionReason::HarnessUnavailable
                },
                explanation_of(rejection.diagnostic),
            )),
    {
        let reason = RequestRejectionProjection::new(rejection.reason).to_referent_reason();
        ReferentGuardianVerdict::reject_referent(
            RejectReferent {
                referent_guardian_rejection_reason: reason,
                explanation: JudgeDiagnosticProjection::new(rejection.diagnostic).into_explanation(),
            },
        )
    }

    /// The verdict when the judge could not be consulted.
    pub fn from_judge_error(error: AgentGuardianError) -> (r: Self)
        ensures
            referent_verdict_view(r) == Some((judge_error_referent_reason(error), judge_error_text(error))),
    {
        let reason = error.referent_guardian_rejection_reason();
        ReferentGuardianVerdict::reject_referent(
            RejectReferent { referent_guardian_rejection_reason: reason, explanation: Explanation(error.message()) },
        )
    }
}

/// Where the judge listens and how long to wait for it.
#[derive(Debug)]
pub struct AgentGuardianConfiguration {
    socket_path: String,
    timeout_milliseconds: u64,
}

/// The default wait for the judge: three minutes.
pub open spec fn default_timeout_milliseconds() -> u64 {
    180_000
}

impl AgentGuardianConfiguration {
    pub closed spec fn spec_socket_path(&self) -> Seq<char> {
        self.socket_path@
    }

    pub closed spec fn spec_timeout(&self) -> u64 {
        self.timeout_milliseconds
    }

    /// A configuration for the judge at the socket, waiting `timeout`
    /// milliseconds; the provider, model and output limit are the judge's
    /// own business and are not kept.
    pub fn new(
        socket_path: String,
        provider_name: Option<String>,
        model_name: Option<String>,
        timeout_milliseconds: u64,
        maximum_output_tokens: Option<u64>,
    ) -> (r: Self)
        ensures
            r.spec_socket_path() == socket_path@,
            r.spec_timeout() == timeout_milliseconds,
    {
        AgentGuardianConfiguration { socket_path, timeout_milliseconds }
    }

    /// The judge at the socket with the default wait.
    pub fn local_openai_compatible(socket_path: String) -> (r: Self)
        ensures
            r.spec_socket_path() == socket_path@,
            r.spec_timeout() == default_timeout_milliseconds(),
    {
        AgentGuardianConfiguration::new(socket_path, None, None, 180_000, None)
    }

    pub fn socket_path(&self) -> (r: &String)
        ensures
            r@ == self.spec_socket_path(),
    {
        &self.socket_path
    }

    /// The wait for the judge, in milliseconds.
    pub fn timeout(&self) -> (r: u64)
        ensures
            r == self.spec_timeout(),
    {
        self.timeout_milliseconds
    }

    /// The provider is chosen by the judge, not here.
    pub fn provider_name(&self) -> (r: Option<&String>)
        ensures
            r is None,
    {
        None
    }

    /// The model is chosen by the judge, not here.
    pub fn model_name(&self) -> (r: Option<&String>)
        ensures
            r is None,
    {
        None
    }
}

/// The agent guardian, configured.
#[derive(Debug)]
pub struct AgentGuardian {
    pub configuration: AgentGuardianConfiguration,
}

/// A refusal with the records and the marker it was judged against.
#[derive(Debug)]
pub struct AgentGuardianRejection {
    pub reason: GuardianRejectionReason,
    pub records: RecordSet,
    pub explanation: Explanation,
    pub database_marker: DatabaseMarker,
}

/// A referent refusal with the registry and the marker it was judged
/// against.
#[derive(Debug)]
pub struct AgentReferentGuardianRejection {
    pub reason: ReferentGuardianRejectionReason,
    pub registered_referents: Vec<StoredReferent>,
    pub explanation: Explanation,
    pub database_marker: DatabaseMarker,
}

/// The guardian's decision on a write.
#[derive(Debug)]
pub struct AgentGuardianDecision {
    pub verdict: GuardianVerdict,
    pub records: RecordSet,
    pub database_marker: DatabaseMarker,
}

/// The guardian's decision on a referent registration.
#[derive(Debug)]
pub struct AgentReferentGuardianDecision {
    pub verdict: ReferentGuardianVerdict,
    pub registered_referents: Vec<StoredReferent>,
    pub database_marker: DatabaseMarker,
}

impl AgentGuardian {
    pub fn new(configuration: AgentGuardianConfiguration) -> (r: Self)
        ensures
            r.configuration == configuration,
    {
        AgentGuardian { configuration }
    }

    /// The decision on a write, given what the judge answered: its verdict
    /// when it judged the admission; a harness refusal when it refused the
    /// request, answered about a referent instead, or could not be reached.
    pub fn decide(
        &self,
        reply: Result<SpiritJudgeReply, AgentGuardianError>,
        records: RecordSet,
        database_marker: DatabaseMarker,
    ) -> (r: AgentGuardianDecision)
        ensures
            r.records == records,
            r.database_marker == database_marker,
            admission_verdict_for(reply, r.verdict),
    {
        let verdict = match reply {
            Ok(SpiritJudgeReply::AdmissionJudged(response)) => GuardianVerdict::from_admission_response(response),
            Ok(SpiritJudgeReply::RequestRejected(rejection)) => GuardianVerdict::from_request_rejection(rejection),
            Ok(SpiritJudgeReply::ReferentRegistrationJudged(_)) => {
                proof {
                    reveal_strlit("spirit judge returned a referent reply for an admission request");
                }
                GuardianVerdict::reject(
                    Reject {
                        guardian_rejection_reason: GuardianRejectionReason::HarnessMalformed,
                        explanation: Explanation::new("spirit judge returned a referent reply for an admission request"),
                    },
                )
            },
            Err(error) => GuardianVerdict::from_judge_error(error),
        };
        AgentGuardianDecision::new(verdict, records, database_marker)
    }

    /// The decision on a referent registration, given what the judge
    /// answered.
    pub fn decide_referent(
        &self,
        reply: Result<SpiritJudgeReply, AgentGuardianError>,
        registered_referents: Vec<StoredReferent>,
        database_marker: DatabaseMarker,
    ) -> (r: AgentReferentGuardianDecision)
        ensures
            r.registered_referents == registered_referents,
            r.database_marker == database_marker,
            referent_verdict_for(reply, r.verdict),
    {
        let verdict = match reply {
            Ok(SpiritJudgeReply::ReferentRegistrationJudged(response)) => ReferentGuardianVerdict::from_referent_response(response),
            Ok(SpiritJudgeReply::RequestRejected(rejection)) => ReferentGuardianVerdict::from_request_rejection(rejection),
            Ok(SpiritJudgeReply::AdmissionJudged(_)) => {
                proof {
                    reveal_strlit("spirit judge returned an admission reply for a referent request");
                }
                ReferentGuardianVerdict::reject_referent(
                    RejectReferent {
                        referent_guardian_rejection_reason: ReferentGuardianRejectionReason::HarnessMalformed,
                        explanation: Explanation::new("spirit judge returned an admission reply for a referent request"),
                    },
                )
            },
            Err(error) => ReferentGuardianVerdict::from_judge_error(error),
        };
        AgentReferentGuardianDecision::new(verdict, registered_referents, database_marker)
    }
}

impl AgentGuardianRejection {
    pub fn from_reject(rejection: Reject, records: RecordSet, database_marker: DatabaseMarker) -> (r: Self)
        ensures
            r.reason == rejection.guardian_rejection_reason,
            r.explanation == rejection.explanation,
            r.records == records,
            r.database_marker == database_marker,
    {
        AgentGuardianRejection {
            reason: rejection.guardian_rejection_reason,
            records,
            explanation: rejection.explanation,
            database_marker,
        }
    }

    /// The rejection a write receives: reason, records and explanation.
    pub fn into_guardian_rejection(self) -> (r: GuardianRejection)
        ensures
            r.guardian_rejection_reason == self.reason,
            r.record_set == self.records,
            r.explanation == self.explanation,
    {
        GuardianRejection {
            guardian_rejection_reason: self.reason,
            record_set: self.records,
            explanation: self.explanation,
        }
    }
}

impl AgentReferentGuardianRejection {
    pub fn from_reject(
        rejection: RejectReferent,
        registered_referents: Vec<StoredReferent>,
        database_marker: DatabaseMarker,
    ) -> (r: Self)
        ensures
            r.reason == rejection.referent_guardian_rejection_reason,
            r.explanation == rejection.explanation,
            r.registered_referents == registered_referents,
            r.database_marker == database_marker,
    {
        AgentReferentGuardianRejection {
            reason: rejection.referent_guardian_rejection_reason,
            registered_referents,
            explanation: rejection.explanation,
            database_marker,
        }
    }

    pub fn into_guardian_rejection(self) -> (r: ReferentGuardianRejection)
        ensures
            r.referent_guardian_rejection_reason == self.reason,
            r.registered_referents == self.registered_referents,
            r.explanation == self.explanation,
    {
        ReferentGuardianRejection {
            referent_guardian_rejection_reason: self.reason,
            registered_referents: self.registered_referents,
            explanation: self.explanation,
        }
    }
}

impl AgentGuardianDecision {
    pub fn new(verdict: GuardianVerdict, records: RecordSet, database_marker: DatabaseMarker) -> (r: Self)
        ensures
            r.verdict == verdict,
            r.records == records,
            r.database_marker == database_marker,
    {
        AgentGuardianDecision { verdict, records, database_marker }
    }

    /// The journal entry of this decision on an operation.
    pub fn journal_decision(&self, operation: GuardianOperation) -> (r: GuardianDecision)
        ensures
            match r {
                GuardianDecision::Record { operation: op, record_set, verdict, database_marker } => op == operation
                    && observed_view(record_set.0@) == observed_view(self.records.0@) && verdict == self.verdict
                    && database_marker == self.database_marker,
                _ => false,
            },
    {
        GuardianDecision::record(operation, self.records.clone(), self.verdict.clone(), self.database_marker)
    }

    /// The rejection a refused write receives; `None` when accepted.
    pub fn into_guardian_rejection(self) -> (r: Option<GuardianRejection>)
        ensures
            match self.verdict {
                GuardianVerdict::Accept => r is None,
                GuardianVerdict::Reject(reject) => r matches Some(g) && g.guardian_rejection_reason
                    == reject.guardian_rejection_reason && g.explanation == reject.explanation
                    && g.record_set == self.records,
            },
    {
        match self.verdict {
            GuardianVerdict::Accept => None,
            GuardianVerdict::Reject(rejection) => Some(
                AgentGuardianRejection::from_reject(rejection, self.records, self.database_marker).into_guardian_rejection(),
            ),
        }
    }
}

impl AgentReferentGuardianDecision {
    pub fn new(
        verdict: ReferentGuardianVerdict,
        registered_referents: Vec<StoredReferent>,
        database_marker: DatabaseMarker,
    ) -> (r: Self)
        ensures
            r.verdict == verdict,
            r.registered_referents == registered_referents,
            r.database_marker == database_marker,
    {
        AgentReferentGuardianDecision { verdict, registered_referents, database_marker }
    }

    /// The journal entry of this decision on a registration.
    pub fn journal_decision(&self, registration: ReferentRegistration) -> (r: GuardianDecision)
        ensures
            match r {
                GuardianDecision::Referent { registration: reg, registered_referents, verdict, database_marker } =>
                    reg == registration && registry_view(registered_referents@) == registry_view(
                    self.registered_referents@,
                ) && verdict == self.verdict && database_marker == self.database_marker,
                _ => false,
            },
    {
        GuardianDecision::referent(
            registration,
            clone_registry(&self.registered_referents),
            self.verdict.clone(),
            self.database_marker,
        )
    }

    /// The rejection a refused registration receives; `None` when accepted.
    pub fn into_guardian_rejection(self) -> (r: Option<ReferentGuardianRejection>)
        ensures
            match self.verdict {
                ReferentGuardianVerdict::Accept => r is None,
                ReferentGuardianVerdict::RejectReferent(reject) => r matches Some(g)
                    && g.referent_guardian_rejection_reason == reject.referent_guardian_rejection_reason
                    && g.explanation == reject.explanation && g.registered_referents == self.registered_referents,
            },
    {
        match self.verdict {
            ReferentGuardianVerdict::Accept => None,
            ReferentGuardianVerdict::RejectReferent(rejection) => Some(
                AgentReferentGuardianRejection::from_reject(
                    rejection,
                    self.registered_referents,
                    self.database_marker,
                ).into_guardian_rejection(),
            ),
        }
    }
}


/// A copy of a registry, registration by registration.
pub fn clone_registry(registry: &Vec<StoredReferent>) -> (r: Vec<StoredReferent>)
    ensures
        registry_view(r@) == registry_view(registry@),
{
    let ghost view = registry_view(registry@);
    let mut out: Vec<StoredReferent> = Vec::new();
    let mut i: usize = 0;
    while i < registry.len()
        invariant
            i <= registry.len(),
            view == registry_view(registry@),
            registry_view(out@) == view.subrange(0, i as int),
        decreases registry.len() - i,
    {
        let ghost before = registry_view(out@);
        out.push(registry[i].clone());
        assert(registry_view(out@) =~= before.push(view[i as int]));
        assert(view.subrange(0, i + 1) =~= view.subrange(0, i as int).push(view[i as int]));
        i = i + 1;
    }
    assert(view.subrange(0, registry.len() as int) =~= view);
    out
}


/// How one operation fared inside the judge's reply frame.
#[derive(Debug)]
pub enum SubReply {
    /// The operation answered.
    Answered(SpiritJudgeReply),
    /// The operation failed, with the judge's own answer when it gave one.
    Failed(Option<SpiritJudgeReply>),
    /// The operation was invalidated.
    Invalidated,
    /// The operation was skipped.
    Skipped,
}

/// The reply part of a judge frame.
#[derive(Debug)]
pub enum JudgeFrameReply {
    /// The request was accepted; the first operation's outcome.
    Accepted(SubReply),
    /// The request was refused, for the reason given.
    Rejected(String),
}

/// What a frame read back from the judge carries.
#[derive(Debug)]
pub enum JudgeFrameBody {
    Reply(JudgeFrameReply),
    HandshakeRequest,
    HandshakeReply,
    Request,
}

/// A diagnostic with only redacted text.
pub fn redacted_diagnostic(text: &str) -> (r: JudgeDiagnostic)
    ensures
        r.redacted_text@ == text@,
        r.content_hashes@.len() == 0,
{
    JudgeDiagnostic { redacted_text: text.to_owned(), content_hashes: Vec::new() }
}

/// The judge refused the request as invalid, for the reason given.
pub open spec fn invalid_request_reply(reply: SpiritJudgeReply, text: Seq<char>) -> bool {
    &&& reply is RequestRejected
    &&& reply->RequestRejected_0.reason == SpiritJudgeRequestRejectionReason::InvalidRequest
    &&& reply->RequestRejected_0.diagnostic.redacted_text@ == text
    &&& reply->RequestRejected_0.diagnostic.content_hashes@.len() == 0
}

impl SubReply {
    /// The answer that stands for the operation's outcome: its own answer
    /// when it has one, else an invalid-request refusal saying why.
    pub fn representative_reply(self) -> (r: SpiritJudgeReply)
        ensures
            match self {
                SubReply::Answered(reply) => r == reply,
                SubReply::Failed(Some(detail)) => r == detail,
                SubReply::Failed(None) => invalid_request_reply(r, "spirit judge frame operation failed"@),
                _ => invalid_request_reply(r, "spirit judge frame operation produced no reply"@),
            },
    {
        match self {
            SubReply::Answered(reply) => reply,
            SubReply::Failed(Some(detail)) => detail,
            SubReply::Failed(None) => {
                proof {
                    reveal_strlit("spirit judge frame operation failed");
                }
                SpiritJudgeReply::RequestRejected(
                    SpiritJudgeRequestRejection {
                        reason: SpiritJudgeRequestRejectionReason::InvalidRequest,
                        diagnostic: redacted_diagnostic("spirit judge frame operation failed"),
                    },
                )
            },
            SubReply::Invalidated | SubReply::Skipped => {
                proof {
                    reveal_strlit("spirit judge frame operation produced no reply");
                }
                SpiritJudgeReply::RequestRejected(
                    SpiritJudgeRequestRejection {
                        reason: SpiritJudgeRequestRejectionReason::InvalidRequest,
                        diagnostic: redacted_diagnostic("spirit judge frame operation produced no reply"),
                    },
                )
            },
        }
    }
}

/// The judge's answer a reply frame carries; a refused request is a frame
/// failure, any other kind of frame is the wrong reply.
pub fn reply_from_frame(body: JudgeFrameBody) -> (r: Result<SpiritJudgeReply, AgentGuardianError>)
    ensures
        match body {
            JudgeFrameBody::Reply(JudgeFrameReply::Accepted(_)) => r is Ok,
            JudgeFrameBody::Reply(JudgeFrameReply::Rejected(reason)) => r matches Err(
                AgentGuardianError::Frame(text),
            ) && text == reason,
            JudgeFrameBody::HandshakeRequest => r matches Err(AgentGuardianError::WrongReply(what))
                && what@ == "handshake request"@,
            JudgeFrameBody::HandshakeReply => r matches Err(AgentGuardianError::WrongReply(what))
                && what@ == "handshake reply"@,
            JudgeFrameBody::Request => r matches Err(AgentGuardianError::WrongReply(what)) && what@
                == "request"@,
        },
        match body {
            JudgeFrameBody::Reply(JudgeFrameReply::Accepted(SubReply::Answered(reply))) => r == Ok::<
                SpiritJudgeReply,
                AgentGuardianError,
            >(reply),
            JudgeFrameBody::Reply(JudgeFrameReply::Accepted(SubReply::Failed(Some(detail)))) => r == Ok::<
                SpiritJudgeReply,
                AgentGuardianError,
            >(detail),
            JudgeFrameBody::Reply(JudgeFrameReply::Accepted(SubReply::Failed(None))) => r matches Ok(reply)
                && invalid_request_reply(reply, "spirit judge frame operation failed"@),
            JudgeFrameBody::Reply(JudgeFrameReply::Accepted(_)) => r matches Ok(reply) && invalid_request_reply(
                reply,
                "spirit judge frame operation produced no reply"@,
            ),
            _ => true,
        },
{
    match body {
        JudgeFrameBody::Reply(JudgeFrameReply::Accepted(sub_reply)) => Ok(sub_reply.representative_reply()),
        JudgeFrameBody::Reply(JudgeFrameReply::Rejected(reason)) => Err(AgentGuardianError::Frame(reason)),
        JudgeFrameBody::HandshakeRequest => {
            proof {
                reveal_strlit("handshake request");
            }
            Err(AgentGuardianError::WrongReply("handshake request".to_owned()))
        },
        JudgeFrameBody::HandshakeReply => {
            proof {
                reveal_strlit("handshake reply");
            }
            Err(AgentGuardianError::WrongReply("handshake reply".to_owned()))
        },
        JudgeFrameBody::Request => {
            proof {
                reveal_strlit("request");
            }
            Err(AgentGuardianError::WrongReply("request".to_owned()))
        },
    }
}


/// What the judge is asked about a write.
#[derive(Debug)]
pub struct AdmissionJudgePacket {
    pub judgment_scope: JudgmentScope,
    pub operation: GuardianOperation,
    pub record_set: RecordSet,
    pub database_marker: DatabaseMarker,
}

/// What the judge is asked about a referent registration.
#[derive(Debug)]
pub struct ReferentRegistrationJudgePacket {
    pub judgment_scope: JudgmentScope,
    pub registration: ReferentRegistration,
    pub registered_referents: Vec<StoredReferent>,
    pub database_marker: DatabaseMarker,
}

/// A request to the judge.
#[derive(Debug)]
pub enum SpiritJudgeRequest {
    JudgeAdmission(AdmissionJudgePacket),
    JudgeReferentRegistration(ReferentRegistrationJudgePacket),
}

impl AgentGuardian {
    /// The request that puts a write before the judge: the write, the
    /// records it relates to and the marker they were read at, under a
    /// redacted scope when the write would put down private content.
    pub fn admission_request(
        &self,
        operation: &GuardianOperation,
        records: RecordSet,
        database_marker: DatabaseMarker,
    ) -> (r: SpiritJudgeRequest)
        ensures
            r matches SpiritJudgeRequest::JudgeAdmission(packet) && packet.judgment_scope == (if writes_private_entry(
                *operation,
            ) {
                JudgmentScope::PrivateHashesAndRedaction
            } else {
                JudgmentScope::Public
            }) && same_operation(packet.operation, *operation) && packet.record_set == records
                && packet.database_marker == database_marker,
    {
        SpiritJudgeRequest::JudgeAdmission(
            AdmissionJudgePacket {
                judgment_scope: operation.judgment_scope(),
                operation: operation.clone(),
                record_set: records,
                database_marker,
            },
        )
    }

    /// The request that puts a referent registration before the judge,
    /// always under a redacted scope.
    pub fn referent_request(
        &self,
        registration: &ReferentRegistration,
        registered_referents: Vec<StoredReferent>,
        database_marker: DatabaseMarker,
    ) -> (r: SpiritJudgeRequest)
        ensures
            r matches SpiritJudgeRequest::JudgeReferentRegistration(packet) && packet.judgment_scope
                == JudgmentScope::PrivateHashesAndRedaction && packet.registration.referent@
                == registration.referent@ && packet.registration.aliases@ == registration.aliases@
                && packet.registration.justification@ == registration.justification@
                && packet.registered_referents == registered_referents && packet.database_marker
                == database_marker,
    {
        SpiritJudgeRequest::JudgeReferentRegistration(
            ReferentRegistrationJudgePacket {
                judgment_scope: JudgmentScope::PrivateHashesAndRedaction,
                registration: registration.clone(),
                registered_referents,
                database_marker,
            },
        )
    }
}

} // verus!
