//! The engine: Signal admission in front of the Nexus, the mail ledger
//! between them, and the owner-only meta requests (configure, import,
//! sweep) beside the working pipeline.

use vstd::prelude::*;

use crate::error::StoreError;
use crate::guardian_prompt::{override_text, role_override_text, GuardianPromptSource};
use crate::ledger::{
    processed_event, sent_event, MailLedgerEvent, MessageIdentifier, MessageProcessed,
    MessageSent, OriginRoute, SignalAdmission, SignalResponse, ORIGIN_ROUTE_BASE,
};
use crate::nexus::{operation_kind, Input, Nexus, NexusWork, Output, ValidationError};
use crate::query::Entry;
use crate::store::{
    ArchiveDatabaseTarget, DatabaseMarker, RemovalCandidateCollection,
    RemovalCandidatesCollection, Store,
};
use crate::tables::OperationKind;

verus! {

broadcast use vstd::string::group_string_axioms;

/// Whether a criome round-trip gates each write or only observes it.
#[derive(Debug, Clone, Copy, PartialEq, Eq, Structural)]
pub enum AuthorizationMode {
    Gating,
    Observing,
}

/// Where the mirror of the versioned log lives.
#[derive(Debug)]
pub enum MirrorTarget {
    /// No mirror.
    Disabled,
    /// The mirror listening at this address.
    Address(String),
}

/// Where the local criome gate listens.
#[derive(Debug)]
pub enum CriomeGateTarget {
    /// No gate.
    Default,
    /// The socket path criome listens on.
    Socket(String),
}

/// Which role prompt the guardian runs on.
#[derive(Debug)]
pub enum GuardianPromptTarget {
    /// The compiled-in role.
    Default,
    /// An owner-supplied role.
    Prompt(String),
}

/// An owner's configuration request.
#[derive(Debug)]
pub struct ConfigureRequest {
    pub archive_database_target: ArchiveDatabaseTarget,
    pub selected_mirror_target: Option<MirrorTarget>,
    pub selected_criome_gate_target: Option<CriomeGateTarget>,
    pub selected_guardian_prompt_target: Option<GuardianPromptTarget>,
}

/// What a configuration reports: the targets now active and the marker.
#[derive(Debug)]
pub struct ConfigureReceipt {
    pub archive_database_target: ArchiveDatabaseTarget,
    pub selected_mirror_target: Option<MirrorTarget>,
    pub selected_criome_gate_target: Option<CriomeGateTarget>,
    pub selected_guardian_prompt_target: Option<GuardianPromptTarget>,
    pub database_marker: DatabaseMarker,
}

/// Why a meta request was refused.
#[derive(Debug, Clone, Copy, PartialEq, Eq, Structural)]
pub enum ConfigureRejectionReason {
    InternalError,
}

/// A refused meta request, with the live marker.
#[derive(Debug)]
pub struct ConfigureRejection {
    pub configure_rejection_reason: ConfigureRejectionReason,
    pub database_marker: DatabaseMarker,
}

/// A record to import under its own identifier.
#[derive(Debug)]
pub struct ImportedRecord {
    pub record_identifier: String,
    pub entry: Entry,
}

/// What an import reports.
#[derive(Debug)]
pub struct ImportReceipt {
    pub record_count: u64,
    pub database_marker: DatabaseMarker,
}

/// What a sweep reports, with the live marker.
#[derive(Debug)]
pub struct RemovalCandidatesCollectedReceipt {
    pub removal_candidates_collection: RemovalCandidatesCollection,
    pub database_marker: DatabaseMarker,
}

/// The reply to an owner-only meta request.
#[derive(Debug)]
pub enum MetaOutput {
    Configured(ConfigureReceipt),
    Imported(ImportReceipt),
    RemovalCandidatesCollected(RemovalCandidatesCollectedReceipt),
    Rejected(ConfigureRejection),
}

/// A request Signal admitted: the input, its route, and its handoff line.
#[derive(Debug)]
pub struct SignalAccepted {
    input: Input,
    origin_route: OriginRoute,
    sent: MessageSent,
}

/// A request Signal refused, with its route and why.
#[derive(Debug)]
pub struct SignalRejected {
    pub origin_route: OriginRoute,
    pub validation_error: ValidationError,
}

impl SignalRejected {
    /// The reply to a refused request: the refusal, on its route.
    pub fn into_signal_output(self) -> (r: SignalResponse<Output>)
        ensures
            r.origin_route == self.origin_route,
            r.root == Output::Rejected(self.validation_error),
    {
        SignalResponse::new(self.origin_route, Output::Rejected(self.validation_error))
    }
}

/// The short header of an input: the position of its operation kind.
pub open spec fn short_header_of(kind: OperationKind) -> u64 {
    match kind {
        OperationKind::State => 0,
        OperationKind::Record => 1,
        OperationKind::Propose => 2,
        OperationKind::Clarify => 3,
        OperationKind::ResolveClarification => 4,
        OperationKind::Supersede => 5,
        OperationKind::Retire => 6,
        OperationKind::Observe => 7,
        OperationKind::PublicTextSearch => 8,
        OperationKind::Lookup => 9,
        OperationKind::Count => 10,
        OperationKind::ChangeCertainty => 11,
        OperationKind::BumpImportance => 12,
        OperationKind::ChangeRecord => 13,
        OperationKind::RegisterReferent => 14,
        OperationKind::LookupStash => 15,
        OperationKind::Tap => 16,
        OperationKind::Untap => 17,
        OperationKind::SubscribeIntent => 18,
        OperationKind::Version => 19,
        OperationKind::Marker => 20,
        OperationKind::ApplyAuthorizedRecord => 21,
    }
}

fn short_header(kind: OperationKind) -> (r: u64)
    ensures
        r == short_header_of(kind),
{
    match kind {
        OperationKind::State => 0,
        OperationKind::Record => 1,
        OperationKind::Propose => 2,
        OperationKind::Clarify => 3,
        OperationKind::ResolveClarification => 4,
        OperationKind::Supersede => 5,
        OperationKind::Retire => 6,
        OperationKind::Observe => 7,
        OperationKind::PublicTextSearch => 8,
        OperationKind::Lookup => 9,
        OperationKind::Count => 10,
        OperationKind::ChangeCertainty => 11,
        OperationKind::BumpImportance => 12,
        OperationKind::ChangeRecord => 13,
        OperationKind::RegisterReferent => 14,
        OperationKind::LookupStash => 15,
        OperationKind::Tap => 16,
        OperationKind::Untap => 17,
        OperationKind::SubscribeIntent => 18,
        OperationKind::Version => 19,
        OperationKind::Marker => 20,
        OperationKind::ApplyAuthorizedRecord => 21,
    }
}

impl SignalAdmission {
    /// Whether another request can still be given a route and an
    /// identifier.
    pub open spec fn can_admit_spec(&self) -> bool {
        &&& self.next_message_identifier < u64::MAX
        &&& self.next_origin_route < u64::MAX - ORIGIN_ROUTE_BASE
    }

    /// Whether another request can still be given a route and an
    /// identifier.
    pub fn can_admit(&self) -> (r: bool)
        ensures
            r == self.can_admit_spec(),
    {
        self.next_message_identifier < u64::MAX && self.next_origin_route < u64::MAX
            - ORIGIN_ROUTE_BASE
    }

    /// Admit a request: it takes the next origin route and message
    /// identifier, and its handoff line carries its short header.
    pub fn admit_signal(&mut self, input: Input) -> (r: Result<SignalAccepted, SignalRejected>)
        requires
            old(self).can_admit_spec(),
        ensures
            final(self).next_origin_route == old(self).next_origin_route + 1,
            final(self).next_message_identifier == old(self).next_message_identifier + 1,
            r is Ok,
            r->Ok_0.spec_input() == input,
            r->Ok_0.spec_origin_route().0 == ORIGIN_ROUTE_BASE + final(self).next_origin_route,
            r->Ok_0.spec_sent().identifier.0 == final(self).next_message_identifier,
            r->Ok_0.spec_sent().origin_route == r->Ok_0.spec_origin_route(),
            r->Ok_0.spec_sent().short_header == short_header_of(operation_kind(input)),
    {
        let origin_route = self.issue_origin_route();
        let identifier = self.issue_message_identifier();
        let header = short_header(OperationKind::from_input(&input));
        Ok(SignalAccepted { sent: MessageSent::new(identifier, origin_route, header), input, origin_route })
    }

    /// The Nexus work an admitted input becomes.
    pub fn triage(&self, input: Input) -> (r: NexusWork)
        ensures
            r == NexusWork::SignalArrived(input),
    {
        NexusWork::SignalArrived(input)
    }

    /// The reply, on its route.
    pub fn reply(&self, origin_route: OriginRoute, output: Output) -> (r: SignalResponse<Output>)
        ensures
            r.origin_route == origin_route,
            r.root == output,
    {
        SignalResponse::new(origin_route, output)
    }
}

impl SignalAccepted {
    pub closed spec fn spec_input(&self) -> Input {
        self.input
    }

    pub closed spec fn spec_origin_route(&self) -> OriginRoute {
        self.origin_route
    }

    pub closed spec fn spec_sent(&self) -> MessageSent {
        self.sent
    }

    /// The admitted request's message identifier.
    pub fn identifier(&self) -> (r: MessageIdentifier)
        ensures
            r == self.spec_sent().identifier,
    {
        self.sent.identifier
    }

    /// The admitted request's handoff line.
    pub fn message_sent(&self) -> (r: &MessageSent)
        ensures
            *r == self.spec_sent(),
    {
        &self.sent
    }

    /// Run the admitted request through the Nexus: the handoff line goes
    /// into the ledger first, then the Nexus drives the request to its
    /// reply, then the reply line goes into the ledger.
    pub fn process_with(self, nexus: &mut Nexus) -> (r: SignalResponse<Output>)
        requires
            old(nexus).well_formed(),
            old(nexus).spec_guardian() is None,
        ensures
            final(nexus).well_formed(),
            final(nexus).spec_store().same_configuration(&old(nexus).spec_store()),
            !crate::nexus::guarded(*old(nexus)) ==> final(nexus).spec_store().guardian_decisions()
                == old(nexus).spec_store().guardian_decisions(),
            crate::nexus::guardian_kept(*old(nexus), *final(nexus)),
            final(nexus).spec_mail_ledger().events@ == old(nexus).spec_mail_ledger().events@.push(
                sent_event(self.spec_sent()),
            ).push(processed_event(self.spec_sent().identifier, self.spec_origin_route())),
            r.origin_route == self.spec_origin_route(),
            exists|start: Nexus, end: Nexus|
                #[trigger] crate::nexus::cycle_reply(start, end, NexusWork::SignalArrived(self.spec_input()), r.root)
                    && crate::nexus::same_but_ledger(start, *old(nexus)) && crate::nexus::same_but_ledger(
                    end,
                    *final(nexus),
                ),
    {
        let identifier = self.sent.identifier;
        let origin_route = self.origin_route;
        nexus.record_sent(self.sent);
        let ghost start = *nexus;
        let output = nexus.execute_to_reply(NexusWork::SignalArrived(self.input));
        let ghost end = *nexus;
        nexus.record_processed(identifier, origin_route);
        let response = SignalResponse::new(origin_route, output);
        proof {
            assert(crate::nexus::cycle_reply(start, end, NexusWork::SignalArrived(self.spec_input()), response.root));
        }
        response
    }
}

/// An admitted request whose cycle its caller drives: the message it
/// answers and the route its reply goes back on.
#[derive(Debug)]
pub struct PendingReply {
    identifier: MessageIdentifier,
    origin_route: OriginRoute,
}

impl PendingReply {
    pub closed spec fn spec_identifier(&self) -> MessageIdentifier {
        self.identifier
    }

    pub closed spec fn spec_origin_route(&self) -> OriginRoute {
        self.origin_route
    }

    /// The route the reply goes back on.
    pub fn origin_route(&self) -> (r: OriginRoute)
        ensures
            r == self.spec_origin_route(),
    {
        self.origin_route
    }

    /// The message the reply answers.
    pub fn identifier(&self) -> (r: MessageIdentifier)
        ensures
            r == self.spec_identifier(),
    {
        self.identifier
    }
}

/// The engine: admission, the Nexus, and the owner-configured targets.
#[derive(Debug)]
pub struct Engine {
    signal_admission: SignalAdmission,
    nexus: Nexus,
    authorization_mode: AuthorizationMode,
    criome_gate_socket: Option<String>,
    guardian_prompt_source: GuardianPromptSource,
}

impl Engine {
    pub closed spec fn well_formed(&self) -> bool {
        self.nexus.well_formed()
    }

    pub closed spec fn spec_nexus(&self) -> Nexus {
        self.nexus
    }

    pub closed spec fn spec_admission(&self) -> SignalAdmission {
        self.signal_admission
    }

    pub closed spec fn spec_authorization_mode(&self) -> AuthorizationMode {
        self.authorization_mode
    }

    pub closed spec fn spec_criome_gate_socket(&self) -> Option<Seq<char>> {
        match self.criome_gate_socket {
            Some(s) => Some(s@),
            None => None,
        }
    }

    pub closed spec fn spec_guardian_prompt_source(&self) -> GuardianPromptSource {
        self.guardian_prompt_source
    }

    /// An engine over the store: fresh admission counters, a fresh Nexus,
    /// gating authorization, no criome gate, the compiled-in guardian role.
    pub fn new(store: Store) -> (r: Self)
        requires
            store.well_formed(),
        ensures
            r.well_formed(),
            r.spec_nexus().spec_store() == store,
            r.spec_admission().next_message_identifier == 0,
            r.spec_admission().next_origin_route == 0,
            r.spec_authorization_mode() == AuthorizationMode::Gating,
            r.spec_criome_gate_socket() is None,
            r.spec_guardian_prompt_source() == GuardianPromptSource::Compiled,
    {
        Engine {
            signal_admission: SignalAdmission::new(),
            nexus: Nexus::new(store),
            authorization_mode: AuthorizationMode::Gating,
            criome_gate_socket: None,
            guardian_prompt_source: GuardianPromptSource::compiled_in(),
        }
    }

    /// Whether another request can be admitted.
    pub fn can_admit(&self) -> (r: bool)
        ensures
            r == self.spec_admission().can_admit_spec(),
    {
        self.signal_admission.can_admit()
    }

    /// The authorized-apply ingress: a foreign record lands only when its
    /// apply was prepared (digest and identifier check out) and this node's
    /// criome re-judged the carried evidence as `Authorized`. With no
    /// verdict (criome unarmed or unreachable) the apply is refused as
    /// unavailable, fail-closed.
    pub fn apply_authorized_record(
        &mut self,
        prepared: Result<crate::apply_ingress::PreparedAuthorizedApply, crate::nexus::ApplyRefusalReason>,
        decision: Option<crate::apply_ingress::EvaluationDecision>,
    ) -> (r: Output)
        requires
            old(self).well_formed(),
        ensures
            final(self).well_formed(),
            final(self).spec_nexus().spec_store().same_settings(&old(self).spec_nexus().spec_store()),
            final(self).spec_admission() == old(self).spec_admission(),
            match prepared {
                Err(reason) => r == Output::ApplyRefused(reason) && final(self).spec_nexus().spec_store()@
                    == old(self).spec_nexus().spec_store()@,
                Ok(p) => match decision {
                    None => r == Output::ApplyRefused(crate::nexus::ApplyRefusalReason::AuthorizationUnavailable)
                        && final(self).spec_nexus().spec_store()@ == old(self).spec_nexus().spec_store()@,
                    Some(d) => if d == crate::apply_ingress::EvaluationDecision::Authorized {
                        r is RecordApplied ==> final(self).spec_nexus().spec_store()@.records == old(
                            self,
                        ).spec_nexus().spec_store()@.records.push(
                            crate::store::RecordView {
                                identifier: p.record_identifier@,
                                entry: crate::store::canonical_entry(
                                    old(self).spec_nexus().spec_store()@.referents,
                                    p.entry@,
                                )->Some_0,
                            },
                        )
                    } else {
                        r == Output::ApplyRefused(crate::nexus::ApplyRefusalReason::AuthorizationDenied)
                    },
                },
            },
    {
        proof {
            self.nexus.spec_store().lemma_same_settings_reflexive();
        }
        let prepared = match prepared {
            Ok(prepared) => prepared,
            Err(reason) => {
                return crate::apply_ingress::AuthorizedApplyOutcome::Refused(reason).into_output();
            },
        };
        let decision = match decision {
            Some(decision) => decision,
            None => {
                return crate::apply_ingress::AuthorizedApplyOutcome::Refused(
                    crate::nexus::ApplyRefusalReason::AuthorizationUnavailable,
                ).into_output();
            },
        };
        self.nexus.resolve_authorized_apply(prepared, decision).into_output()
    }

    /// Install a guardian agent; writes must pass it from now on.
    pub fn set_guardian(&mut self, guardian: crate::guardian::AgentGuardian)
        requires
            old(self).well_formed(),
        ensures
            final(self).well_formed(),
            final(self).spec_nexus().spec_guardian() == Some(guardian),
            final(self).spec_nexus().spec_guardian_required(),
            final(self).spec_nexus().spec_store() == old(self).spec_nexus().spec_store(),
            final(self).spec_admission() == old(self).spec_admission(),
    {
        self.nexus.set_guardian(guardian);
    }

    /// Require a guardian for writes; with none installed every guarded
    /// write is refused.
    pub fn require_guardian(&mut self)
        requires
            old(self).well_formed(),
        ensures
            final(self).well_formed(),
            final(self).spec_nexus().spec_guardian() == old(self).spec_nexus().spec_guardian(),
            final(self).spec_nexus().spec_guardian_required(),
            final(self).spec_nexus().spec_store() == old(self).spec_nexus().spec_store(),
            final(self).spec_admission() == old(self).spec_admission(),
    {
        self.nexus.require_guardian();
    }

    pub fn set_authorization_mode(&mut self, authorization_mode: AuthorizationMode)
        ensures
            final(self).spec_authorization_mode() == authorization_mode,
            final(self).spec_nexus() == old(self).spec_nexus(),
            final(self).spec_admission() == old(self).spec_admission(),
            final(self).well_formed() == old(self).well_formed(),
    {
        self.authorization_mode = authorization_mode;
    }

    pub fn authorization_mode(&self) -> (r: AuthorizationMode)
        ensures
            r == self.spec_authorization_mode(),
    {
        self.authorization_mode
    }

    /// Run one request: Signal admits it (route, identifier, handoff
    /// line), the Nexus drives it to a reply, and the reply comes back on
    /// the request's route.
    pub fn handle(&mut self, input: Input) -> (r: SignalResponse<Output>)
        requires
            old(self).well_formed(),
            old(self).spec_admission().can_admit_spec(),
            old(self).spec_nexus().spec_guardian() is None,
        ensures
            final(self).well_formed(),
            final(self).spec_admission().next_origin_route == old(self).spec_admission().next_origin_route + 1,
            final(self).spec_admission().next_message_identifier == old(self).spec_admission().next_message_identifier + 1,
            r.origin_route.0 == ORIGIN_ROUTE_BASE + final(self).spec_admission().next_origin_route,
            final(self).spec_nexus().spec_store().same_configuration(&old(self).spec_nexus().spec_store()),
            !crate::nexus::guarded(old(self).spec_nexus()) ==> final(self).spec_nexus().spec_store().guardian_decisions()
                == old(self).spec_nexus().spec_store().guardian_decisions(),
            crate::nexus::guardian_kept(old(self).spec_nexus(), final(self).spec_nexus()),
            final(self).spec_nexus().spec_mail_ledger().events@ == old(self).spec_nexus().spec_mail_ledger().events@.push(
                MailLedgerEvent::Sent(crate::ledger::SentMail {
                    mail_identifier: crate::ledger::MailIdentifier(final(self).spec_admission().next_message_identifier),
                    origin_route: r.origin_route,
                    short_header: crate::ledger::ShortHeader(short_header_of(operation_kind(input))),
                }),
            ).push(
                MailLedgerEvent::Processed(crate::ledger::ProcessedMail {
                    mail_identifier: crate::ledger::MailIdentifier(final(self).spec_admission().next_message_identifier),
                    origin_route: r.origin_route,
                }),
            ),
            exists|start: Nexus, end: Nexus|
                #[trigger] crate::nexus::cycle_reply(start, end, NexusWork::SignalArrived(input), r.root)
                    && crate::nexus::same_but_ledger(start, old(self).spec_nexus())
                    && crate::nexus::same_but_ledger(end, final(self).spec_nexus()),
    {
        let accepted = match self.signal_admission.admit_signal(input) {
            Ok(accepted) => accepted,
            Err(rejected) => {
                return rejected.into_signal_output();
            },
        };
        accepted.process_with(&mut self.nexus)
    }

    /// Admit a request whose cycle the caller drives step by step, as a
    /// guarded write must when it waits on the judge between steps: Signal
    /// gives it a route and an identifier, its handoff line goes into the
    /// ledger, and the work it starts as comes back with the reply it owes.
    pub fn open_request(&mut self, input: Input) -> (r: (NexusWork, PendingReply))
        requires
            old(self).well_formed(),
            old(self).spec_admission().can_admit_spec(),
        ensures
            final(self).well_formed(),
            final(self).spec_admission().next_origin_route == old(self).spec_admission().next_origin_route + 1,
            final(self).spec_admission().next_message_identifier == old(self).spec_admission().next_message_identifier + 1,
            r.0 == NexusWork::SignalArrived(input),
            r.1.spec_origin_route().0 == ORIGIN_ROUTE_BASE + final(self).spec_admission().next_origin_route,
            r.1.spec_identifier().0 == final(self).spec_admission().next_message_identifier,
            final(self).spec_nexus().spec_mail_ledger().events@ == old(self).spec_nexus().spec_mail_ledger().events@.push(
                MailLedgerEvent::Sent(crate::ledger::SentMail {
                    mail_identifier: crate::ledger::MailIdentifier(final(self).spec_admission().next_message_identifier),
                    origin_route: r.1.spec_origin_route(),
                    short_header: crate::ledger::ShortHeader(short_header_of(operation_kind(input))),
                }),
            ),
            crate::nexus::same_but_ledger(old(self).spec_nexus(), final(self).spec_nexus()),
            final(self).spec_authorization_mode() == old(self).spec_authorization_mode(),
            final(self).spec_criome_gate_socket() == old(self).spec_criome_gate_socket(),
            final(self).spec_guardian_prompt_source() == old(self).spec_guardian_prompt_source(),
    {
        let accepted = self.signal_admission.admit_signal(input).unwrap();
        let SignalAccepted { input, origin_route, sent } = accepted;
        let identifier = sent.identifier;
        self.nexus.record_sent(sent);
        (NexusWork::SignalArrived(input), PendingReply { identifier, origin_route })
    }

    /// The Nexus, for a caller that drives a request's cycle itself; the
    /// engine holds whatever the caller leaves in it.
    pub fn nexus_mut(&mut self) -> (r: &mut Nexus)
        ensures
            *r == old(self).spec_nexus(),
            final(self).spec_nexus() == *final(r),
            final(self).well_formed() == final(r).well_formed(),
            final(self).spec_admission() == old(self).spec_admission(),
            final(self).spec_authorization_mode() == old(self).spec_authorization_mode(),
            final(self).spec_criome_gate_socket() == old(self).spec_criome_gate_socket(),
            final(self).spec_guardian_prompt_source() == old(self).spec_guardian_prompt_source(),
    {
        &mut self.nexus
    }

    /// Answer a request opened with `open_request`: its reply line goes
    /// into the ledger and the output comes back on the request's route.
    pub fn close_request(&mut self, pending: PendingReply, output: Output) -> (r: SignalResponse<Output>)
        ensures
            r.origin_route == pending.spec_origin_route(),
            r.root == output,
            final(self).spec_nexus().spec_mail_ledger().events@ == old(self).spec_nexus().spec_mail_ledger().events@.push(
                processed_event(pending.spec_identifier(), pending.spec_origin_route()),
            ),
            final(self).well_formed() == old(self).well_formed(),
            crate::nexus::same_but_ledger(old(self).spec_nexus(), final(self).spec_nexus()),
            final(self).spec_admission() == old(self).spec_admission(),
            final(self).spec_authorization_mode() == old(self).spec_authorization_mode(),
            final(self).spec_criome_gate_socket() == old(self).spec_criome_gate_socket(),
            final(self).spec_guardian_prompt_source() == old(self).spec_guardian_prompt_source(),
    {
        let PendingReply { identifier, origin_route } = pending;
        self.nexus.record_processed(identifier, origin_route);
        SignalResponse::new(origin_route, output)
    }

    /// How many records are live.
    pub fn record_count(&self) -> (r: usize)
        ensures
            r == self.spec_nexus().spec_store()@.records.len(),
    {
        self.nexus.store().len()
    }

    pub fn store(&self) -> (r: &Store)
        ensures
            *r == self.spec_nexus().spec_store(),
    {
        self.nexus.store()
    }

    /// The Nexus behind the engine.
    pub fn nexus(&self) -> (r: &Nexus)
        ensures
            *r == self.spec_nexus(),
            self.well_formed() ==> r.well_formed(),
    {
        &self.nexus
    }

    pub fn sent_message_count(&self) -> (r: usize)
        ensures
            r == crate::ledger::count_sent(self.spec_nexus().spec_mail_ledger().events@),
    {
        self.nexus.mail_ledger().sent_message_count()
    }

    pub fn processed_message_count(&self) -> (r: usize)
        ensures
            r == crate::ledger::count_processed(self.spec_nexus().spec_mail_ledger().events@),
    {
        self.nexus.mail_ledger().processed_message_count()
    }

    pub fn mail_ledger(&self) -> (r: Vec<MailLedgerEvent>)
        ensures
            r@ == self.spec_nexus().spec_mail_ledger().events@,
    {
        self.nexus.mail_ledger().events()
    }

    pub fn database_marker(&self) -> (r: DatabaseMarker)
        ensures
            r.commit_sequence == self.spec_nexus().spec_store()@.commit_sequence,
            r.state_digest == self.spec_nexus().spec_store().spec_state_digest(),
    {
        self.nexus.database_marker()
    }

    /// Apply an owner's configuration: the archive target is stored on the
    /// store (the live records are untouched), a criome socket target arms
    /// criome's socket and any other target clears it, a guardian prompt
    /// target selects the guardian's role (an absent one keeps it), and the
    /// reply echoes every target with the live marker.
    pub fn configure(&mut self, request: ConfigureRequest) -> (r: MetaOutput)
        requires
            old(self).well_formed(),
        ensures
            final(self).well_formed(),
            final(self).spec_nexus().spec_store()@ == old(self).spec_nexus().spec_store()@,
            final(self).spec_nexus().spec_store().spec_archive_target() == request.archive_database_target,
            final(self).spec_criome_gate_socket() == match request.selected_criome_gate_target {
                Some(CriomeGateTarget::Socket(path)) => Some(path@),
                _ => None::<Seq<char>>,
            },
            override_text(final(self).spec_guardian_prompt_source()) == match request.selected_guardian_prompt_target {
                Some(GuardianPromptTarget::Default) => None,
                Some(GuardianPromptTarget::Prompt(role)) => role_override_text(role@),
                None => override_text(old(self).spec_guardian_prompt_source()),
            },
            r is Configured,
            r->Configured_0.archive_database_target == request.archive_database_target,
            r->Configured_0.selected_mirror_target == request.selected_mirror_target,
            r->Configured_0.selected_criome_gate_target == request.selected_criome_gate_target,
            r->Configured_0.selected_guardian_prompt_target == request.selected_guardian_prompt_target,
            r->Configured_0.database_marker.commit_sequence == final(self).spec_nexus().spec_store()@.commit_sequence,
    {
        let ConfigureRequest {
            archive_database_target,
            selected_mirror_target,
            selected_criome_gate_target,
            selected_guardian_prompt_target,
        } = request;
        self.nexus.set_archive_target(archive_database_target.clone());
        match &selected_guardian_prompt_target {
            Some(GuardianPromptTarget::Default) => {
                self.guardian_prompt_source = GuardianPromptSource::compiled_in();
            },
            Some(GuardianPromptTarget::Prompt(role)) => {
                self.guardian_prompt_source = GuardianPromptSource::role_override(role.clone());
            },
            None => {},
        }
        match &selected_criome_gate_target {
            Some(CriomeGateTarget::Socket(socket_path)) => {
                self.criome_gate_socket = Some(socket_path.clone());
            },
            _ => {
                self.criome_gate_socket = None;
            },
        }
        MetaOutput::Configured(
            ConfigureReceipt {
                archive_database_target,
                selected_mirror_target,
                selected_criome_gate_target,
                selected_guardian_prompt_target,
                database_marker: self.nexus.database_marker(),
            },
        )
    }

    /// Import pre-vetted records under their own identifiers, in order. The
    /// first refused record stops the import and the reply is a rejection;
    /// the records imported before it stay.
    pub fn import(&mut self, records: Vec<ImportedRecord>) -> (r: MetaOutput)
        requires
            old(self).well_formed(),
        ensures
            final(self).well_formed(),
            final(self).spec_nexus().spec_store().same_settings(&old(self).spec_nexus().spec_store()),
            match r {
                MetaOutput::Imported(receipt) => receipt.record_count == records.len()
                    && final(self).spec_nexus().spec_store()@.records.len() == old(self).spec_nexus().spec_store()@.records.len() + records.len(),
                MetaOutput::Rejected(rejection) => rejection.configure_rejection_reason == ConfigureRejectionReason::InternalError,
                _ => false,
            },
    {
        let n = records.len();
        let mut record_count: u64 = 0;
        let mut records = records;
        proof {
            self.nexus.spec_store().lemma_same_settings_reflexive();
        }
        while records.len() > 0
            invariant
                self.well_formed(),
                self.spec_nexus().spec_store().same_settings(&old(self).spec_nexus().spec_store()),
                record_count + records.len() == n,
                self.spec_nexus().spec_store()@.records.len() == old(self).spec_nexus().spec_store()@.records.len() + record_count,
            decreases records.len(),
        {
            let imported = records.remove(0);
            let ghost before = self.nexus.spec_store();
            let outcome = self.nexus.import_record(imported.record_identifier, imported.entry);
            proof {
                Store::lemma_same_settings_transitive(&self.nexus.spec_store(), &before, &old(self).spec_nexus().spec_store());
            }
            match outcome {
                Ok(_) => {
                    record_count = record_count + 1;
                },
                Err(_) => {
                    return MetaOutput::Rejected(
                        ConfigureRejection {
                            configure_rejection_reason: ConfigureRejectionReason::InternalError,
                            database_marker: self.nexus.database_marker(),
                        },
                    );
                },
            }
        }
        MetaOutput::Imported(ImportReceipt { record_count, database_marker: self.nexus.database_marker() })
    }

    /// Sweep out every record the query matches into the archive database,
    /// with no guardian; the reply carries what was archived and removed.
    pub fn collect_removal_candidates(&mut self, request: RemovalCandidateCollection) -> (r: MetaOutput)
        requires
            old(self).well_formed(),
        ensures
            final(self).well_formed(),
            final(self).spec_nexus().spec_store().same_settings(&old(self).spec_nexus().spec_store()),
            match r {
                MetaOutput::RemovalCandidatesCollected(receipt) => observed_view_of(receipt) == crate::store::selected(
                    old(self).spec_nexus().spec_store()@.records,
                    request.record_query@,
                ),
                MetaOutput::Rejected(rejection) => old(self).spec_nexus().spec_store()@.commit_sequence
                    + crate::store::selected(old(self).spec_nexus().spec_store()@.records, request.record_query@).len() > u64::MAX,
                _ => false,
            },
    {
        match self.nexus.collect_removal_candidates(request) {
            Ok(removal_candidates_collection) => MetaOutput::RemovalCandidatesCollected(
                RemovalCandidatesCollectedReceipt {
                    removal_candidates_collection,
                    database_marker: self.nexus.database_marker(),
                },
            ),
            Err(_) => MetaOutput::Rejected(
                ConfigureRejection {
                    configure_rejection_reason: ConfigureRejectionReason::InternalError,
                    database_marker: self.nexus.database_marker(),
                },
            ),
        }
    }
}

/// The archived records of a sweep receipt, by content.
pub open spec fn observed_view_of(receipt: RemovalCandidatesCollectedReceipt) -> Seq<crate::store::RecordView> {
    crate::store::observed_view(receipt.removal_candidates_collection.removal_archive_records@)
}

} // verus!
