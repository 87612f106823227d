//! The Nexus: the decision plane between the signal surface and SEMA.
//!
//! It consumes work (a signal that arrived, or the completion of a SEMA
//! write, a SEMA read or a local effect) and decides the next action: reply
//! to the signal, command a SEMA write or read, run a local effect, or
//! continue with new work. `execute_to_reply` drives that cycle until a
//! reply comes out or the continuation budget is spent.

use vstd::prelude::*;

use crate::error::{error_text, StoreError};
use crate::justification::Justification;
use crate::ledger::MailLedger;
use crate::magnitude::Magnitude;
use crate::query::{Entry, EntryView, Query};
use crate::record::{Referent, Referents, SearchText};
use crate::referent::ReferentRegistration;
use crate::sema::{FoundRecord, SemaReadInput, SemaReadOutput, SemaWriteInput, SemaWriteOutput};
use crate::store::{
    canonical_entry, entry_of, has_record, observed_view, ArchiveDatabaseTarget, CertaintyChange,
    CertaintyChangeReceipt, Clarification, ClarificationReceipt, ClarificationResolution,
    ClarificationResolutionReceipt, DatabaseMarker, ImportanceBump, ImportanceBumpReceipt,
    ObservedRecord, RecordChange, RecordChangeReceipt, RecordIdentifier, RecordView,
    ReferentRegistrationReceipt, Retirement, RetirementReceipt, SemaReceipt, Store, Supersession,
    SupersessionReceipt,
};
use crate::tables::{
    classified_entry, observed_operations, ClassificationPolicy, ObserverFilter,
    ObserverTapTable, OperationKind, Proposal, RecordRequest, StashResult, StashTable, Statement,
};
use crate::guardian::{
    admission_verdict_for, admission_verdict_view, referent_verdict_for, referent_verdict_view,
    AgentGuardian, AgentGuardianError, SpiritJudgeReply,
};
use crate::guardian_context::{is_bundle_of, operation_rows};
use crate::guardian_journal::{same_operation, GuardianDecision, GuardianOperation};
use crate::verdict::{
    Explanation, GuardianRejection, GuardianRejectionReason, GuardianVerdict, RecordSet,
    ReferentGuardianRejection, ReferentGuardianRejectionReason, ReferentGuardianVerdict,
};

verus! {

broadcast use vstd::string::group_string_axioms;

/// The version this daemon reports.
pub open spec fn spirit_version_text() -> Seq<char> {
    "0.1.0"@
}

/// The version this daemon reports.
pub fn spirit_version() -> (r: String)
    ensures
        r@ == spirit_version_text(),
{
    "0.1.0".to_string()
}

/// How many steps past the first decision one signal may take before the
/// Nexus gives up with an error reply.
pub const CONTINUATION_LIMIT: u64 = 64;

/// A request arriving on the working signal socket.
#[derive(Debug)]
pub enum Input {
    State(Statement),
    Record(RecordRequest),
    Propose(Proposal),
    Clarify(Clarification),
    ResolveClarification(ClarificationResolution),
    Supersede(Supersession),
    Retire(Retirement),
    Observe(Query),
    PublicTextSearch(SearchText),
    Lookup(RecordIdentifier),
    Count(Query),
    ChangeCertainty(CertaintyChange),
    BumpImportance(ImportanceBump),
    ChangeRecord(RecordChange),
    RegisterReferent(ReferentRegistration),
    LookupStash(u64),
    Tap(ObserverFilter),
    Untap(u64),
    SubscribeIntent(Query),
    Version,
    Marker,
    /// A foreign authorized-record apply; it is refused on this socket.
    ApplyAuthorizedRecord,
}

/// What kind of operation an input asks for.
pub open spec fn operation_kind(input: Input) -> OperationKind {
    match input {
        Input::State(_) => OperationKind::State,
        Input::Record(_) => OperationKind::Record,
        Input::Propose(_) => OperationKind::Propose,
        Input::Clarify(_) => OperationKind::Clarify,
        Input::ResolveClarification(_) => OperationKind::ResolveClarification,
        Input::Supersede(_) => OperationKind::Supersede,
        Input::Retire(_) => OperationKind::Retire,
        Input::Observe(_) => OperationKind::Observe,
        Input::PublicTextSearch(_) => OperationKind::PublicTextSearch,
        Input::Lookup(_) => OperationKind::Lookup,
        Input::Count(_) => OperationKind::Count,
        Input::ChangeCertainty(_) => OperationKind::ChangeCertainty,
        Input::BumpImportance(_) => OperationKind::BumpImportance,
        Input::ChangeRecord(_) => OperationKind::ChangeRecord,
        Input::RegisterReferent(_) => OperationKind::RegisterReferent,
        Input::LookupStash(_) => OperationKind::LookupStash,
        Input::Tap(_) => OperationKind::Tap,
        Input::Untap(_) => OperationKind::Untap,
        Input::SubscribeIntent(_) => OperationKind::SubscribeIntent,
        Input::Version => OperationKind::Version,
        Input::Marker => OperationKind::Marker,
        Input::ApplyAuthorizedRecord => OperationKind::ApplyAuthorizedRecord,
    }
}

impl OperationKind {
    /// The kind of operation an input asks for.
    pub fn from_input(input: &Input) -> (r: OperationKind)
        ensures
            r == operation_kind(*input),
    {
        match input {
            Input::State(_) => OperationKind::State,
            Input::Record(_) => OperationKind::Record,
            Input::Propose(_) => OperationKind::Propose,
            Input::Clarify(_) => OperationKind::Clarify,
            Input::ResolveClarification(_) => OperationKind::ResolveClarification,
            Input::Supersede(_) => OperationKind::Supersede,
            Input::Retire(_) => OperationKind::Retire,
            Input::Observe(_) => OperationKind::Observe,
            Input::PublicTextSearch(_) => OperationKind::PublicTextSearch,
            Input::Lookup(_) => OperationKind::Lookup,
            Input::Count(_) => OperationKind::Count,
            Input::ChangeCertainty(_) => OperationKind::ChangeCertainty,
            Input::BumpImportance(_) => OperationKind::BumpImportance,
            Input::ChangeRecord(_) => OperationKind::ChangeRecord,
            Input::RegisterReferent(_) => OperationKind::RegisterReferent,
            Input::LookupStash(_) => OperationKind::LookupStash,
            Input::Tap(_) => OperationKind::Tap,
            Input::Untap(_) => OperationKind::Untap,
            Input::SubscribeIntent(_) => OperationKind::SubscribeIntent,
            Input::Version => OperationKind::Version,
            Input::Marker => OperationKind::Marker,
            Input::ApplyAuthorizedRecord => OperationKind::ApplyAuthorizedRecord,
        }
    }
}

/// Why an input was refused before any work.
#[derive(Debug, Clone, Copy, PartialEq, Eq, Structural)]
pub enum ValidationError {
    StashHandleNotFound,
}

/// Why an authorized apply was refused.
#[derive(Debug, Clone, Copy, PartialEq, Eq, Structural)]
pub enum ApplyRefusalReason {
    /// No criome verdict can be had.
    AuthorizationUnavailable,
    /// The carried body does not decode, or names another record.
    MalformedRecord,
    /// The carried entry does not hash to the authorized digest.
    RehashMismatch,
    /// Criome did not authorize the record.
    AuthorizationDenied,
}

/// What a landed authorized apply reports.
#[derive(Debug)]
pub struct RecordApplicationReceipt {
    pub record_identifier: RecordIdentifier,
    pub database_marker: DatabaseMarker,
}

/// An observation with its recovery handle.
#[derive(Debug)]
pub struct StashedObservation {
    pub stash_handle: u64,
    pub record_count: u64,
    pub observed_records: Vec<ObservedRecord>,
}

/// An open observer tap and what it has been shown so far.
#[derive(Debug)]
pub struct ObserverSubscription {
    pub subscription_token: u64,
    pub observer_filter: ObserverFilter,
    pub observed_operations: Vec<OperationKind>,
}

/// A closed observer tap and its final observations.
#[derive(Debug)]
pub struct ObserverRetraction {
    pub subscription_token: u64,
    pub observed_operations: Vec<OperationKind>,
}

/// The reply to a signal.
#[derive(Debug)]
pub enum Output {
    RecordAccepted(RecordIdentifier),
    Proposed(RecordIdentifier),
    CertaintyChanged(CertaintyChangeReceipt),
    ImportanceBumped(ImportanceBumpReceipt),
    RecordChanged(RecordChangeReceipt),
    ReferentRegistered(ReferentRegistrationReceipt),
    RecordRemoved(crate::store::RemoveReceipt),
    RecordsObserved(Vec<ObservedRecord>),
    RecordFound(FoundRecord),
    RecordsCounted(u64),
    Clarified(ClarificationReceipt),
    ClarificationResolved(ClarificationResolutionReceipt),
    Superseded(SupersessionReceipt),
    Retired(RetirementReceipt),
    GuardianRejected(GuardianRejection),
    ReferentGuardianRejected(ReferentGuardianRejection),
    RecordsStashed(StashedObservation),
    SubscriptionStarted(u64),
    ObservationTapped(ObserverSubscription),
    ObservationUntapped(ObserverRetraction),
    VersionReported(String),
    MarkerReported(DatabaseMarker),
    Rejected(ValidationError),
    RecordApplied(RecordApplicationReceipt),
    ApplyRefused(ApplyRefusalReason),
    Error(String),
}

/// Records to archive under a fresh stash handle, with their marker.
#[derive(Debug)]
pub struct StashRequest {
    pub records: Vec<ObservedRecord>,
    pub database_marker: DatabaseMarker,
}

/// A local effect the Nexus runs itself.
#[derive(Debug)]
pub enum EffectCommand {
    ClassifyState(Statement),
    RecordWithImpliedReferents(RecordRequest),
    GuardRecord(RecordRequest),
    ProposeWithImpliedReferents(Proposal),
    Propose(Proposal),
    Clarify(Clarification),
    ResolveClarification(ClarificationResolution),
    SupersedeWithImpliedReferents(Supersession),
    Supersede(Supersession),
    Retire(Retirement),
    ChangeRecordWithImpliedReferents(RecordChange),
    GuardChangeRecord(RecordChange),
    GuardReferentRegistration(ReferentRegistration),
    Stash(StashRequest),
    OpenIntentSubscription(Query),
    OpenObserverTap(ObserverFilter),
    CloseObserverTap(u64),
}

/// What a local effect produced.
#[derive(Debug)]
pub enum EffectResult {
    StateClassified(RecordRequest),
    RecordReferentsSettled(RecordRequest),
    ProposeReferentsSettled(Proposal),
    SupersedeReferentsSettled(Supersession),
    ChangeRecordReferentsSettled(RecordChange),
    Recorded(SemaReceipt),
    Proposed(SemaReceipt),
    Clarified(ClarificationReceipt),
    ClarificationResolved(ClarificationResolutionReceipt),
    Superseded(SupersessionReceipt),
    Retired(RetirementReceipt),
    RecordChanged(RecordChangeReceipt),
    OperationFailed(String),
    GuardianRejected(GuardianRejection),
    ReferentRegistered(ReferentRegistrationReceipt),
    ReferentGuardianRejected(ReferentGuardianRejection),
    Stashed(StashResult),
    IntentSubscriptionOpened(u64),
    ObserverTapOpened(ObserverSubscription),
    ObserverTapClosed(ObserverRetraction),
}

/// A fact the Nexus consumes.
#[derive(Debug)]
pub enum NexusWork {
    SignalArrived(Input),
    SemaWriteCompleted(SemaWriteOutput),
    SemaReadCompleted(SemaReadOutput),
    EffectCompleted(EffectResult),
}

/// What the Nexus decides to do next.
#[derive(Debug)]
pub enum NexusAction {
    ReplyToSignal(Output),
    CommandSemaWrite(SemaWriteInput),
    CommandSemaRead(SemaReadInput),
    CommandEffect(EffectCommand),
    Continue(NexusWork),
}

/// Where each input that needs neither the stash table nor the version
/// text is routed.
pub open spec fn arrival_route(input: Input, marker: DatabaseMarker) -> Option<NexusAction> {
    match input {
        Input::State(statement) => Some(NexusAction::CommandEffect(EffectCommand::ClassifyState(statement))),
        Input::Record(record) => Some(NexusAction::CommandEffect(
            EffectCommand::RecordWithImpliedReferents(record),
        )),
        Input::Propose(proposal) => Some(NexusAction::CommandEffect(
            EffectCommand::ProposeWithImpliedReferents(proposal),
        )),
        Input::Clarify(clarification) => Some(NexusAction::CommandEffect(
            EffectCommand::Clarify(clarification),
        )),
        Input::ResolveClarification(resolution) => Some(NexusAction::CommandEffect(
            EffectCommand::ResolveClarification(resolution),
        )),
        Input::Supersede(supersession) => Some(NexusAction::CommandEffect(
            EffectCommand::SupersedeWithImpliedReferents(supersession),
        )),
        Input::Retire(retirement) => Some(NexusAction::CommandEffect(EffectCommand::Retire(retirement))),
        Input::Observe(query) => Some(NexusAction::CommandSemaRead(SemaReadInput::Observe(query))),
        Input::PublicTextSearch(search) => Some(NexusAction::CommandSemaRead(
            SemaReadInput::PublicTextSearch(search),
        )),
        Input::Lookup(identifier) => Some(NexusAction::CommandSemaRead(SemaReadInput::Lookup(identifier))),
        Input::Count(query) => Some(NexusAction::CommandSemaRead(SemaReadInput::Count(query))),
        Input::ChangeCertainty(change) => Some(NexusAction::CommandSemaWrite(
            SemaWriteInput::ChangeCertainty(change),
        )),
        Input::BumpImportance(change) => Some(NexusAction::CommandSemaWrite(
            SemaWriteInput::BumpImportance(change),
        )),
        Input::ChangeRecord(change) => Some(NexusAction::CommandEffect(
            EffectCommand::ChangeRecordWithImpliedReferents(change),
        )),
        Input::RegisterReferent(registration) => Some(NexusAction::CommandEffect(
            EffectCommand::GuardReferentRegistration(registration),
        )),
        Input::Tap(filter) => Some(NexusAction::CommandEffect(EffectCommand::OpenObserverTap(filter))),
        Input::Untap(token) => Some(NexusAction::CommandEffect(EffectCommand::CloseObserverTap(token))),
        Input::SubscribeIntent(query) => Some(NexusAction::CommandEffect(
            EffectCommand::OpenIntentSubscription(query),
        )),
        Input::Marker => Some(NexusAction::ReplyToSignal(Output::MarkerReported(marker))),
        Input::ApplyAuthorizedRecord => Some(NexusAction::ReplyToSignal(
            Output::ApplyRefused(ApplyRefusalReason::AuthorizationUnavailable),
        )),
        Input::LookupStash(_) => None,
        Input::Version => None,
    }
}

/// The reply a SEMA write's outcome becomes.
pub open spec fn write_completion_route(output: SemaWriteOutput) -> NexusAction {
    NexusAction::ReplyToSignal(
        match output {
            SemaWriteOutput::Recorded(receipt) => Output::RecordAccepted(receipt.record_identifier),
            SemaWriteOutput::CertaintyChanged(receipt) => Output::CertaintyChanged(receipt),
            SemaWriteOutput::ImportanceBumped(receipt) => Output::ImportanceBumped(receipt),
            SemaWriteOutput::RecordChanged(receipt) => Output::RecordChanged(receipt),
            SemaWriteOutput::ReferentRegistered(receipt) => Output::ReferentRegistered(receipt),
            SemaWriteOutput::Removed(receipt) => Output::RecordRemoved(receipt),
            SemaWriteOutput::Missed(text) => Output::Error(text),
        },
    )
}

/// What a SEMA read's answer becomes: a full observation is stashed first,
/// everything else is replied directly.
pub open spec fn read_completion_route(output: SemaReadOutput, marker: DatabaseMarker) -> NexusAction {
    match output {
        SemaReadOutput::Observed(records) => NexusAction::CommandEffect(
            EffectCommand::Stash(StashRequest { records, database_marker: marker }),
        ),
        SemaReadOutput::PublicTextSearchResults(records) => NexusAction::ReplyToSignal(
            Output::RecordsObserved(records),
        ),
        SemaReadOutput::Found(record) => NexusAction::ReplyToSignal(Output::RecordFound(record)),
        SemaReadOutput::Counted(count) => NexusAction::ReplyToSignal(Output::RecordsCounted(count)),
        SemaReadOutput::Missed(text) => NexusAction::ReplyToSignal(Output::Error(text)),
    }
}

/// What an effect's result becomes: settled referents lead on to the
/// write, a classified statement to its record, everything else is
/// replied.
pub open spec fn effect_completion_route(result: EffectResult) -> NexusAction {
    match result {
        EffectResult::StateClassified(request) => NexusAction::CommandEffect(
            EffectCommand::RecordWithImpliedReferents(request),
        ),
        EffectResult::RecordReferentsSettled(request) => NexusAction::CommandEffect(
            EffectCommand::GuardRecord(request),
        ),
        EffectResult::ProposeReferentsSettled(proposal) => NexusAction::CommandEffect(
            EffectCommand::Propose(proposal),
        ),
        EffectResult::SupersedeReferentsSettled(supersession) => NexusAction::CommandEffect(
            EffectCommand::Supersede(supersession),
        ),
        EffectResult::ChangeRecordReferentsSettled(change) => NexusAction::CommandEffect(
            EffectCommand::GuardChangeRecord(change),
        ),
        EffectResult::Recorded(receipt) => NexusAction::ReplyToSignal(
            Output::RecordAccepted(receipt.record_identifier),
        ),
        EffectResult::Proposed(receipt) => NexusAction::ReplyToSignal(
            Output::Proposed(receipt.record_identifier),
        ),
        EffectResult::Clarified(receipt) => NexusAction::ReplyToSignal(Output::Clarified(receipt)),
        EffectResult::ClarificationResolved(receipt) => NexusAction::ReplyToSignal(
            Output::ClarificationResolved(receipt),
        ),
        EffectResult::Superseded(receipt) => NexusAction::ReplyToSignal(Output::Superseded(receipt)),
        EffectResult::Retired(receipt) => NexusAction::ReplyToSignal(Output::Retired(receipt)),
        EffectResult::RecordChanged(receipt) => NexusAction::ReplyToSignal(
            Output::RecordChanged(receipt),
        ),
        EffectResult::OperationFailed(text) => NexusAction::ReplyToSignal(Output::Error(text)),
        EffectResult::GuardianRejected(rejection) => NexusAction::ReplyToSignal(
            Output::GuardianRejected(rejection),
        ),
        EffectResult::ReferentRegistered(receipt) => NexusAction::ReplyToSignal(
            Output::ReferentRegistered(receipt),
        ),
        EffectResult::ReferentGuardianRejected(rejection) => NexusAction::ReplyToSignal(
            Output::ReferentGuardianRejected(rejection),
        ),
        EffectResult::Stashed(stashed) => NexusAction::ReplyToSignal(
            Output::RecordsStashed(
                StashedObservation {
                    stash_handle: stashed.stash_handle,
                    record_count: stashed.record_count,
                    observed_records: stashed.records,
                },
            ),
        ),
        EffectResult::IntentSubscriptionOpened(token) => NexusAction::ReplyToSignal(
            Output::SubscriptionStarted(token),
        ),
        EffectResult::ObserverTapOpened(subscription) => NexusAction::ReplyToSignal(
            Output::ObservationTapped(subscription),
        ),
        EffectResult::ObserverTapClosed(retraction) => NexusAction::ReplyToSignal(
            Output::ObservationUntapped(retraction),
        ),
    }
}

/// The Nexus: the store it writes through, the mail ledger, its tables and
/// its classification policy.
#[derive(Debug)]
pub struct Nexus {
    store: Store,
    mail_ledger: MailLedger,
    stash_table: StashTable,
    observer_tap_table: ObserverTapTable,
    classification_policy: ClassificationPolicy,
    last_subscription_token: u64,
    guardian: Option<AgentGuardian>,
    guardian_required: bool,
}

/// The action a signal's arrival is answered with, before the tables
/// changed.
pub open spec fn arrival_action(before: Nexus, input: Input, action: NexusAction) -> bool {
    match input {
        Input::LookupStash(handle) => {
            let archived = before.spec_stash_table().archived();
            if archived.contains_key(handle) {
                &&& action is ReplyToSignal
                &&& action->ReplyToSignal_0 is RecordsObserved
                &&& observed_view(action->ReplyToSignal_0->RecordsObserved_0@) == archived[handle].0
            } else {
                action == NexusAction::ReplyToSignal(
                    Output::Rejected(ValidationError::StashHandleNotFound),
                )
            }
        },
        Input::Version => action is ReplyToSignal && action->ReplyToSignal_0 is VersionReported
            && action->ReplyToSignal_0->VersionReported_0@ == spirit_version_text(),
        _ => Some(action) == arrival_route(
            input,
            DatabaseMarker {
                commit_sequence: before.spec_store()@.commit_sequence as u64,
                state_digest: before.spec_store().spec_state_digest(),
            },
        ),
    }
}

impl Nexus {
    /// The store is well formed, the tables too, and the policy is the
    /// default one.
    pub closed spec fn well_formed(&self) -> bool {
        &&& self.store.well_formed()
        &&& self.stash_table.well_formed()
        &&& self.observer_tap_table.well_formed()
        &&& self.classification_policy.is_default()
    }

    pub closed spec fn spec_store(&self) -> Store {
        self.store
    }

    pub closed spec fn spec_stash_table(&self) -> StashTable {
        self.stash_table
    }

    pub closed spec fn spec_observer_tap_table(&self) -> ObserverTapTable {
        self.observer_tap_table
    }

    pub closed spec fn spec_last_subscription_token(&self) -> u64 {
        self.last_subscription_token
    }

    /// The installed guardian agent, if any.
    pub closed spec fn spec_guardian(&self) -> Option<AgentGuardian> {
        self.guardian
    }

    /// Whether writes must pass a guardian.
    pub closed spec fn spec_guardian_required(&self) -> bool {
        self.guardian_required
    }

    /// A Nexus over the store, with a fresh mail ledger and empty tables.
    pub fn new(store: Store) -> (r: Self)
        requires
            store.well_formed(),
        ensures
            r.well_formed(),
            r.spec_store() == store,
            r.spec_stash_table().archived() == Map::<u64, (Seq<RecordView>, DatabaseMarker)>::empty(),
            r.spec_stash_table().last_handle() == 0,
            r.spec_observer_tap_table().log() == Seq::<OperationKind>::empty(),
            r.spec_observer_tap_table().taps() == Map::<u64, ObserverFilter>::empty(),
            r.spec_observer_tap_table().last_token() == 0,
            r.spec_last_subscription_token() == 0,
            r.spec_guardian() is None,
            !r.spec_guardian_required(),
    {
        Nexus {
            store,
            mail_ledger: MailLedger::new(),
            stash_table: StashTable::new(),
            observer_tap_table: ObserverTapTable::new(),
            classification_policy: ClassificationPolicy::default_policy(),
            last_subscription_token: 0,
            guardian: None,
            guardian_required: false,
        }
    }

    pub closed spec fn spec_mail_ledger(&self) -> MailLedger {
        self.mail_ledger
    }

    pub fn mail_ledger(&self) -> (r: &MailLedger)
        ensures
            *r == self.spec_mail_ledger(),
    {
        &self.mail_ledger
    }

    pub fn store(&self) -> (r: &Store)
        ensures
            *r == self.spec_store(),
    {
        &self.store
    }

    /// Recompute the store's state digest from the committed rows'
    /// archived bytes (see `Store::refresh_state_digest`); the rest of the
    /// Nexus is untouched.
    pub fn refresh_state_digest(
        &mut self,
        records: &Vec<crate::digest::ArchivedRow>,
        referents: &Vec<crate::digest::ArchivedRow>,
    ) -> (r: bool)
        ensures
            r == crate::store::rows_name_state(old(self).spec_store()@, records@, referents@),
            final(self).spec_store()@ == old(self).spec_store()@,
            final(self).well_formed() == old(self).well_formed(),
            final(self).spec_store().spec_state_digest() == if r {
                crate::digest::state_digest_value(old(self).spec_store()@.commit_sequence as u64, records@, referents@) as u64
            } else {
                old(self).spec_store().spec_state_digest()
            },
            final(self).spec_store().pending_writes() == old(self).spec_store().pending_writes(),
            tables_kept(*old(self), *final(self)),
    {
        self.store.refresh_state_digest(records, referents)
    }

    pub fn stash_table(&self) -> (r: &StashTable)
        ensures
            *r == self.spec_stash_table(),
    {
        &self.stash_table
    }

    pub fn observer_tap_table(&self) -> (r: &ObserverTapTable)
        ensures
            *r == self.spec_observer_tap_table(),
    {
        &self.observer_tap_table
    }

    pub fn classification_policy(&self) -> (r: &ClassificationPolicy)
        ensures
            self.well_formed() ==> r.is_default(),
    {
        &self.classification_policy
    }

    /// The store's commit marker.
    pub fn database_marker(&self) -> (r: DatabaseMarker)
        ensures
            r.commit_sequence == self.spec_store()@.commit_sequence,
            r.state_digest == self.spec_store().spec_state_digest(),
    {
        self.store.database_marker()
    }

    /// Record where the separate archive database lives; the live records
    /// are not touched.
    pub fn set_archive_target(&mut self, archive_target: ArchiveDatabaseTarget)
        requires
            old(self).well_formed(),
        ensures
            final(self).well_formed(),
            same_content(final(self).spec_store(), old(self).spec_store()),
            final(self).spec_store().spec_archive_target() == archive_target,
            final(self).spec_stash_table() == old(self).spec_stash_table(),
            final(self).spec_observer_tap_table() == old(self).spec_observer_tap_table(),
    {
        self.store.set_archive_target(archive_target);
    }

    pub fn archive_target(&self) -> (r: &ArchiveDatabaseTarget)
        ensures
            *r == self.spec_store().spec_archive_target(),
    {
        self.store.archive_target()
    }

    /// Decide what a signal that arrived leads to. Every input is first
    /// logged for the observer taps. A stash lookup is answered from the
    /// stash table, the version and marker directly; everything else is
    /// routed to a SEMA command or a local effect.
    pub fn decide_signal_arrival(&mut self, input: Input) -> (action: NexusAction)
        requires
            old(self).well_formed(),
        ensures
            final(self).well_formed(),
            final(self).spec_store() == old(self).spec_store(),
            final(self).spec_mail_ledger() == old(self).spec_mail_ledger(),
            final(self).spec_stash_table() == old(self).spec_stash_table(),
            final(self).spec_observer_tap_table().log() == old(self).spec_observer_tap_table().log().push(
                operation_kind(input),
            ),
            final(self).spec_observer_tap_table().taps() == old(self).spec_observer_tap_table().taps(),
            final(self).spec_observer_tap_table().last_token() == old(self).spec_observer_tap_table().last_token(),
            final(self).spec_last_subscription_token() == old(self).spec_last_subscription_token(),
            guardian_kept(*old(self), *final(self)),
            arrival_action(*old(self), input, action),
    {
        let kind = OperationKind::from_input(&input);
        self.observer_tap_table.observe_operation(kind);
        match input {
            Input::State(statement) => NexusAction::CommandEffect(EffectCommand::ClassifyState(statement)),
            Input::Record(record) => NexusAction::CommandEffect(
                EffectCommand::RecordWithImpliedReferents(record),
            ),
            Input::Propose(proposal) => NexusAction::CommandEffect(
                EffectCommand::ProposeWithImpliedReferents(proposal),
            ),
            Input::Clarify(clarification) => NexusAction::CommandEffect(
                EffectCommand::Clarify(clarification),
            ),
            Input::ResolveClarification(resolution) => NexusAction::CommandEffect(
                EffectCommand::ResolveClarification(resolution),
            ),
            Input::Supersede(supersession) => NexusAction::CommandEffect(
                EffectCommand::SupersedeWithImpliedReferents(supersession),
            ),
            Input::Retire(retirement) => NexusAction::CommandEffect(EffectCommand::Retire(retirement)),
            Input::Observe(query) => NexusAction::CommandSemaRead(SemaReadInput::Observe(query)),
            Input::PublicTextSearch(search) => NexusAction::CommandSemaRead(
                SemaReadInput::PublicTextSearch(search),
            ),
            Input::Lookup(identifier) => NexusAction::CommandSemaRead(
                SemaReadInput::Lookup(identifier),
            ),
            Input::Count(query) => NexusAction::CommandSemaRead(SemaReadInput::Count(query)),
            Input::ChangeCertainty(change) => NexusAction::CommandSemaWrite(
                SemaWriteInput::ChangeCertainty(change),
            ),
            Input::BumpImportance(change) => NexusAction::CommandSemaWrite(
                SemaWriteInput::BumpImportance(change),
            ),
            Input::ChangeRecord(change) => NexusAction::CommandEffect(
                EffectCommand::ChangeRecordWithImpliedReferents(change),
            ),
            Input::RegisterReferent(registration) => NexusAction::CommandEffect(
                EffectCommand::GuardReferentRegistration(registration),
            ),
            Input::LookupStash(handle) => match self.stash_table.lookup(&handle) {
                Some((records, _database_marker)) => NexusAction::ReplyToSignal(
                    Output::RecordsObserved(records),
                ),
                None => NexusAction::ReplyToSignal(
                    Output::Rejected(ValidationError::StashHandleNotFound),
                ),
            },
            Input::Tap(filter) => NexusAction::CommandEffect(EffectCommand::OpenObserverTap(filter)),
            Input::Untap(token) => NexusAction::CommandEffect(EffectCommand::CloseObserverTap(token)),
            Input::SubscribeIntent(query) => NexusAction::CommandEffect(
                EffectCommand::OpenIntentSubscription(query),
            ),
            Input::Version => {
                let version = spirit_version();
                NexusAction::ReplyToSignal(Output::VersionReported(version))
            },
            Input::Marker => NexusAction::ReplyToSignal(Output::MarkerReported(self.database_marker())),
            Input::ApplyAuthorizedRecord => NexusAction::ReplyToSignal(
                Output::ApplyRefused(ApplyRefusalReason::AuthorizationUnavailable),
            ),
        }
    }

    /// Decide what a SEMA write's outcome becomes: always a reply.
    pub fn decide_sema_write_completion(&self, output: SemaWriteOutput) -> (action: NexusAction)
        ensures
            action == write_completion_route(output),
    {
        let reply = match output {
            SemaWriteOutput::Recorded(receipt) => Output::RecordAccepted(receipt.record_identifier),
            SemaWriteOutput::CertaintyChanged(receipt) => Output::CertaintyChanged(receipt),
            SemaWriteOutput::ImportanceBumped(receipt) => Output::ImportanceBumped(receipt),
            SemaWriteOutput::RecordChanged(receipt) => Output::RecordChanged(receipt),
            SemaWriteOutput::ReferentRegistered(receipt) => Output::ReferentRegistered(receipt),
            SemaWriteOutput::Removed(receipt) => Output::RecordRemoved(receipt),
            SemaWriteOutput::Missed(text) => Output::Error(text),
        };
        NexusAction::ReplyToSignal(reply)
    }

    /// Decide what a SEMA read's answer becomes: an observation goes on to
    /// be stashed under the current marker, so the reply can carry a
    /// recovery handle; anything else is replied.
    pub fn decide_sema_read_completion(&self, output: SemaReadOutput) -> (action: NexusAction)
        ensures
            action == read_completion_route(
                output,
                DatabaseMarker {
                    commit_sequence: self.spec_store()@.commit_sequence as u64,
                    state_digest: self.spec_store().spec_state_digest(),
                },
            ),
    {
        match output {
            SemaReadOutput::Observed(records) => NexusAction::CommandEffect(
                EffectCommand::Stash(
                    StashRequest { records, database_marker: self.database_marker() },
                ),
            ),
            SemaReadOutput::PublicTextSearchResults(records) => NexusAction::ReplyToSignal(
                Output::RecordsObserved(records),
            ),
            SemaReadOutput::Found(record) => NexusAction::ReplyToSignal(Output::RecordFound(record)),
            SemaReadOutput::Counted(count) => NexusAction::ReplyToSignal(
                Output::RecordsCounted(count),
            ),
            SemaReadOutput::Missed(text) => NexusAction::ReplyToSignal(Output::Error(text)),
        }
    }

    /// Decide what an effect's result becomes.
    pub fn decide_effect_completion(&self, result: EffectResult) -> (action: NexusAction)
        ensures
            action == effect_completion_route(result),
    {
        match result {
            EffectResult::StateClassified(request) => NexusAction::CommandEffect(
                EffectCommand::RecordWithImpliedReferents(request),
            ),
            EffectResult::RecordReferentsSettled(request) => NexusAction::CommandEffect(
                EffectCommand::GuardRecord(request),
            ),
            EffectResult::ProposeReferentsSettled(proposal) => NexusAction::CommandEffect(
                EffectCommand::Propose(proposal),
            ),
            EffectResult::SupersedeReferentsSettled(supersession) => NexusAction::CommandEffect(
                EffectCommand::Supersede(supersession),
            ),
            EffectResult::ChangeRecordReferentsSettled(change) => NexusAction::CommandEffect(
                EffectCommand::GuardChangeRecord(change),
            ),
            EffectResult::Recorded(receipt) => NexusAction::ReplyToSignal(
                Output::RecordAccepted(receipt.record_identifier),
            ),
            EffectResult::Proposed(receipt) => NexusAction::ReplyToSignal(
                Output::Proposed(receipt.record_identifier),
            ),
            EffectResult::Clarified(receipt) => NexusAction::ReplyToSignal(
                Output::Clarified(receipt),
            ),
            EffectResult::ClarificationResolved(receipt) => NexusAction::ReplyToSignal(
                Output::ClarificationResolved(receipt),
            ),
            EffectResult::Superseded(receipt) => NexusAction::ReplyToSignal(
                Output::Superseded(receipt),
            ),
            EffectResult::Retired(receipt) => NexusAction::ReplyToSignal(Output::Retired(receipt)),
            EffectResult::RecordChanged(receipt) => NexusAction::ReplyToSignal(
                Output::RecordChanged(receipt),
            ),
            EffectResult::OperationFailed(text) => NexusAction::ReplyToSignal(Output::Error(text)),
            EffectResult::GuardianRejected(rejection) => NexusAction::ReplyToSignal(
                Output::GuardianRejected(rejection),
            ),
            EffectResult::ReferentRegistered(receipt) => NexusAction::ReplyToSignal(
                Output::ReferentRegistered(receipt),
            ),
            EffectResult::ReferentGuardianRejected(rejection) => NexusAction::ReplyToSignal(
                Output::ReferentGuardianRejected(rejection),
            ),
            EffectResult::Stashed(stashed) => {
                let StashResult { stash_handle, record_count, records, .. } = stashed;
                NexusAction::ReplyToSignal(
                    Output::RecordsStashed(
                        StashedObservation { stash_handle, record_count, observed_records: records },
                    ),
                )
            },
            EffectResult::IntentSubscriptionOpened(token) => NexusAction::ReplyToSignal(
                Output::SubscriptionStarted(token),
            ),
            EffectResult::ObserverTapOpened(subscription) => NexusAction::ReplyToSignal(
                Output::ObservationTapped(subscription),
            ),
            EffectResult::ObserverTapClosed(retraction) => NexusAction::ReplyToSignal(
                Output::ObservationUntapped(retraction),
            ),
        }
    }
}

/// The two stores hold the same records, registrations and commit
/// sequence.
pub open spec fn same_content(a: Store, b: Store) -> bool {
    a@ == b@
}

/// The frame of an effect that leaves the tables alone.
pub open spec fn tables_kept(before: Nexus, after: Nexus) -> bool {
    &&& after.spec_mail_ledger() == before.spec_mail_ledger()
    &&& after.spec_stash_table() == before.spec_stash_table()
    &&& after.spec_observer_tap_table() == before.spec_observer_tap_table()
    &&& after.spec_last_subscription_token() == before.spec_last_subscription_token()
    &&& after.spec_guardian() == before.spec_guardian()
    &&& after.spec_guardian_required() == before.spec_guardian_required()
}

/// Every referent of the entry was settled (registered, or already
/// answered to) in order, or a registration failed.
pub open spec fn settled_or_failed<T>(r: EffectResult, settled: EffectResult, before: Nexus, after: Nexus) -> bool {
    &&& (r == settled || r is OperationFailed || (guarded(before) && r is ReferentGuardianRejected
        && r->ReferentGuardianRejected_0.referent_guardian_rejection_reason
        == ReferentGuardianRejectionReason::HarnessUnavailable))
    &&& after.spec_store()@.records == before.spec_store()@.records
    &&& tables_kept(before, after)
}

/// A guarded write with no guardian agent installed: refused for an
/// unavailable guardian (or failed), the tables untouched.
pub open spec fn refused_unavailable(r: EffectResult, before: Nexus, after: Nexus) -> bool {
    &&& after.spec_store()@ == before.spec_store()@
    &&& (r is OperationFailed || (r is GuardianRejected && r->GuardianRejected_0.guardian_rejection_reason
        == GuardianRejectionReason::HarnessUnavailable))
}

/// The text an effect fails with when the store refuses.
fn failed(error: StoreError) -> (r: EffectResult)
    ensures
        r is OperationFailed && r->OperationFailed_0@ == error_text(error),
{
    EffectResult::OperationFailed(error.message())
}

/// The text an effect fails with when its target is missing.
fn failed_with(text: &str) -> (r: EffectResult)
    ensures
        r is OperationFailed && r->OperationFailed_0@ == text@,
{
    EffectResult::OperationFailed(text.to_string())
}

/// What one local effect leaves behind, by command: the result it answers
/// and how the store and the tables moved.
pub open spec fn effect_outcome(command: EffectCommand, before: Nexus, after: Nexus, r: EffectResult) -> bool {
    match command {
        EffectCommand::ClassifyState(statement) => r is StateClassified
            && r->StateClassified_0.entry@ == classified_entry(statement.0@)
            && after == before,
        EffectCommand::RecordWithImpliedReferents(request) => (implied_referents_settled(
            before.spec_store()@.referents,
            request.entry.referents@,
        ) ==> r == EffectResult::RecordReferentsSettled(request)) && (!guarded(before) && implied_referents_registrable(
            before.spec_store()@.commit_sequence,
            request.entry.referents@,
        ) ==> r == EffectResult::RecordReferentsSettled(request)) && settled_or_failed::<()>(
            r,
            EffectResult::RecordReferentsSettled(request),
            before,
            after,
        ),
        EffectCommand::ProposeWithImpliedReferents(proposal) => (implied_referents_settled(
            before.spec_store()@.referents,
            proposal.entry.referents@,
        ) ==> r == EffectResult::ProposeReferentsSettled(proposal)) && (!guarded(before) && implied_referents_registrable(
            before.spec_store()@.commit_sequence,
            proposal.entry.referents@,
        ) ==> r == EffectResult::ProposeReferentsSettled(proposal)) && settled_or_failed::<()>(
            r,
            EffectResult::ProposeReferentsSettled(proposal),
            before,
            after,
        ),
        EffectCommand::SupersedeWithImpliedReferents(supersession) => (replacement_referents_settled(
            before.spec_store()@.referents,
            supersession.replacements@,
        ) ==> r == EffectResult::SupersedeReferentsSettled(supersession)) && (!guarded(before)
            && replacement_referents_registrable(before.spec_store()@.commit_sequence, supersession.replacements@)
            ==> r == EffectResult::SupersedeReferentsSettled(supersession)) && settled_or_failed::<()>(
            r,
            EffectResult::SupersedeReferentsSettled(supersession),
            before,
            after,
        ),
        EffectCommand::ChangeRecordWithImpliedReferents(change) => (implied_referents_settled(
            before.spec_store()@.referents,
            change.entry.referents@,
        ) ==> r == EffectResult::ChangeRecordReferentsSettled(change)) && (!guarded(before) && implied_referents_registrable(
            before.spec_store()@.commit_sequence,
            change.entry.referents@,
        ) ==> r == EffectResult::ChangeRecordReferentsSettled(change)) && settled_or_failed::<()>(
            r,
            EffectResult::ChangeRecordReferentsSettled(change),
            before,
            after,
        ),
        EffectCommand::GuardRecord(request) => judged_effect_outcome(command, None, before, after, r) && tables_kept(before, after) && if guarded(before) {
            refused_unavailable(r, before, after)
        } else { match r {
            EffectResult::Recorded(receipt) => {
                &&& canonical_entry(before.spec_store()@.referents, request.entry@) is Some
                &&& !has_record(before.spec_store()@.records, receipt.record_identifier.0@)
                &&& after.spec_store()@.records == before.spec_store()@.records.push(
                    RecordView {
                        identifier: receipt.record_identifier.0@,
                        entry: canonical_entry(before.spec_store()@.referents, request.entry@)->Some_0,
                    },
                )
            },
            EffectResult::OperationFailed(_) => same_content(after.spec_store(), before.spec_store()),
            _ => false,
        } },
        EffectCommand::Propose(proposal) => judged_effect_outcome(command, None, before, after, r) && tables_kept(before, after) && match r {
            EffectResult::Proposed(receipt) => {
                let canonical = canonical_entry(before.spec_store()@.referents, proposal.entry@)->Some_0;
                &&& canonical_entry(before.spec_store()@.referents, proposal.entry@) is Some
                &&& crate::store::first_duplicate(before.spec_store()@.records, canonical) is None
                &&& after.spec_store()@.records == before.spec_store()@.records.push(
                    RecordView { identifier: receipt.record_identifier.0@, entry: canonical },
                )
            },
            EffectResult::GuardianRejected(rejection) => {
                let canonical = canonical_entry(before.spec_store()@.referents, proposal.entry@)->Some_0;
                &&& crate::store::first_duplicate(before.spec_store()@.records, canonical) is Some
                &&& rejection.guardian_rejection_reason == crate::verdict::GuardianRejectionReason::Duplicate
            },
            EffectResult::OperationFailed(_) => same_content(after.spec_store(), before.spec_store()),
            _ => false,
        },
        EffectCommand::Clarify(clarification) => judged_effect_outcome(command, None, before, after, r) && (!guarded(before) && has_record(
            before.spec_store()@.records,
            clarification.record_identifier.0@,
        ) && before.spec_store()@.commit_sequence < u64::MAX ==> r is Clarified) && tables_kept(before, after)
            && if guarded(before) {
            refused_unavailable(r, before, after)
        } else { match r {
            EffectResult::Clarified(receipt) => {
                let id = clarification.record_identifier.0@;
                &&& receipt.0 == clarification.record_identifier
                &&& has_record(before.spec_store()@.records, id)
                &&& entry_of(after.spec_store()@.records, id) == Some(
                    crate::store::with_description(
                        entry_of(before.spec_store()@.records, id)->Some_0,
                        clarification.description@,
                    ),
                )
            },
            EffectResult::OperationFailed(text) => same_content(after.spec_store(), before.spec_store())
                && (!has_record(before.spec_store()@.records, clarification.record_identifier.0@)
                ==> text@ == "record not found"@),
            _ => false,
        } },
        EffectCommand::ResolveClarification(resolution) => judged_effect_outcome(command, None, before, after, r) && (!guarded(before) && has_record(
            before.spec_store()@.records,
            resolution.clarification_record_identifier.0@,
        ) && crate::store::targets_present(before.spec_store()@.records, resolution.target_clarifications@)
            && before.spec_store()@.commit_sequence + resolution.target_clarifications.len() + 1 <= u64::MAX
            ==> r is ClarificationResolved) && tables_kept(before, after) && if guarded(before) {
            refused_unavailable(r, before, after)
        } else { match r {
            EffectResult::ClarificationResolved(receipt) => {
                &&& receipt.clarification_record_identifier == resolution.clarification_record_identifier
                &&& has_record(before.spec_store()@.records, resolution.clarification_record_identifier.0@)
                &&& entry_of(after.spec_store()@.records, resolution.clarification_record_identifier.0@) is None
            },
            EffectResult::OperationFailed(text) => (!has_record(
                before.spec_store()@.records,
                resolution.clarification_record_identifier.0@,
            ) || !crate::store::targets_present(before.spec_store()@.records, resolution.target_clarifications@))
                ==> (text@ == "clarification resolution target not found"@ && after.spec_store()@
                == before.spec_store()@),
            _ => false,
        } },
        EffectCommand::Supersede(supersession) => judged_effect_outcome(command, None, before, after, r) && tables_kept(before, after) && if guarded(before) {
            refused_unavailable(r, before, after)
        } else { match r {
            EffectResult::Superseded(receipt) => {
                &&& receipt.retired_identifiers@ == supersession.retired_identifiers@
                &&& forall|k: int| 0 <= k < supersession.retired_identifiers.len() ==> has_record(
                    before.spec_store()@.records,
                    #[trigger] supersession.retired_identifiers@[k].0@,
                ) && entry_of(after.spec_store()@.records, supersession.retired_identifiers@[k].0@) is None
            },
            EffectResult::OperationFailed(text) => !(forall|k: int| 0 <= k < supersession.retired_identifiers.len()
                ==> has_record(before.spec_store()@.records, #[trigger] supersession.retired_identifiers@[k].0@))
                ==> (text@ == "supersede target not found"@ && same_content(after.spec_store(), before.spec_store())),
            _ => false,
        } },
        EffectCommand::Retire(retirement) => judged_effect_outcome(command, None, before, after, r) && (!guarded(before) && has_record(
            before.spec_store()@.records,
            retirement.record_identifier.0@,
        ) && before.spec_store()@.commit_sequence < u64::MAX ==> r is Retired) && tables_kept(before, after)
            && if guarded(before) {
            refused_unavailable(r, before, after)
        } else { match r {
            EffectResult::Retired(receipt) => {
                &&& receipt.0 == retirement.record_identifier
                &&& has_record(before.spec_store()@.records, retirement.record_identifier.0@)
                &&& entry_of(after.spec_store()@.records, retirement.record_identifier.0@) is None
            },
            EffectResult::OperationFailed(text) => same_content(after.spec_store(), before.spec_store())
                && (!has_record(before.spec_store()@.records, retirement.record_identifier.0@)
                ==> text@ == "record not found"@),
            _ => false,
        } },
        EffectCommand::GuardChangeRecord(change) => judged_effect_outcome(command, None, before, after, r) && (!guarded(before) && has_record(
            before.spec_store()@.records,
            change.record_identifier.0@,
        ) && canonical_entry(before.spec_store()@.referents, change.entry@) is Some
            && before.spec_store()@.commit_sequence < u64::MAX ==> r is RecordChanged) && tables_kept(before, after)
            && if guarded(before) {
            refused_unavailable(r, before, after)
        } else { match r {
            EffectResult::RecordChanged(receipt) => {
                &&& receipt.0 == change.record_identifier
                &&& has_record(before.spec_store()@.records, change.record_identifier.0@)
                &&& entry_of(after.spec_store()@.records, change.record_identifier.0@) == canonical_entry(
                    before.spec_store()@.referents,
                    change.entry@,
                )
            },
            EffectResult::OperationFailed(text) => same_content(after.spec_store(), before.spec_store())
                && (!has_record(before.spec_store()@.records, change.record_identifier.0@)
                ==> text@ == "record not found"@),
            _ => false,
        } },
        EffectCommand::GuardReferentRegistration(registration) => judged_effect_outcome(command, None, before, after, r) && (crate::store::settled_position(
            before.spec_store()@.referents,
            registration.referent@,
            registration.aliases@,
        ) is Some ==> r is ReferentRegistered && after.spec_store()@ == before.spec_store()@) && (!guarded(before)
            && r is OperationFailed ==> exists|e: StoreError|
            r->OperationFailed_0@ == #[trigger] error_text(e) && crate::store::registration_failure(
                before.spec_store()@,
                registration.referent@,
                registration.aliases@,
                e,
            )) && tables_kept(before, after) && match r {
            EffectResult::ReferentRegistered(_) => after.spec_store()@.records == before.spec_store()@.records,
            EffectResult::ReferentGuardianRejected(refusal) => guarded(before)
                && refusal.referent_guardian_rejection_reason == ReferentGuardianRejectionReason::HarnessUnavailable
                && after.spec_store()@ == before.spec_store()@,
            EffectResult::OperationFailed(_) => same_content(after.spec_store(), before.spec_store()),
            _ => false,
        },
        EffectCommand::Stash(request) => {
            &&& after.spec_store() == before.spec_store()
            &&& after.spec_observer_tap_table() == before.spec_observer_tap_table()
            &&& after.spec_last_subscription_token() == before.spec_last_subscription_token()
            &&& if before.spec_stash_table().last_handle() < u64::MAX {
                &&& r is Stashed
                &&& r->Stashed_0.stash_handle == before.spec_stash_table().last_handle() + 1
                &&& r->Stashed_0.record_count == request.records.len()
                &&& r->Stashed_0.database_marker == request.database_marker
                &&& observed_view(r->Stashed_0.records@) == observed_view(request.records@)
                &&& after.spec_stash_table().archived() == before.spec_stash_table().archived().insert(
                    r->Stashed_0.stash_handle,
                    (observed_view(request.records@), request.database_marker),
                )
            } else {
                r is OperationFailed && after.spec_stash_table() == before.spec_stash_table()
            }
        },
        EffectCommand::OpenIntentSubscription(_) => {
            &&& after.spec_store() == before.spec_store()
            &&& after.spec_stash_table() == before.spec_stash_table()
            &&& after.spec_observer_tap_table() == before.spec_observer_tap_table()
            &&& if before.spec_last_subscription_token() < u64::MAX {
                r == EffectResult::IntentSubscriptionOpened((before.spec_last_subscription_token() + 1) as u64)
                    && after.spec_last_subscription_token() == before.spec_last_subscription_token() + 1
            } else {
                r is OperationFailed && after.spec_last_subscription_token() == before.spec_last_subscription_token()
            }
        },
        EffectCommand::OpenObserverTap(filter) => {
            let taps = before.spec_observer_tap_table();
            &&& after.spec_store() == before.spec_store()
            &&& after.spec_stash_table() == before.spec_stash_table()
            &&& after.spec_last_subscription_token() == before.spec_last_subscription_token()
            &&& if taps.last_token() < u64::MAX {
                &&& r is ObserverTapOpened
                &&& r->ObserverTapOpened_0.subscription_token == taps.last_token() + 1
                &&& r->ObserverTapOpened_0.observer_filter == filter
                &&& r->ObserverTapOpened_0.observed_operations@ == observed_operations(taps.log(), filter)
                &&& after.spec_observer_tap_table().taps() == taps.taps().insert(
                    r->ObserverTapOpened_0.subscription_token,
                    filter,
                )
            } else {
                r is OperationFailed && after.spec_observer_tap_table() == taps
            }
        },
        EffectCommand::CloseObserverTap(token) => {
            let taps = before.spec_observer_tap_table();
            &&& after.spec_store() == before.spec_store()
            &&& after.spec_stash_table() == before.spec_stash_table()
            &&& after.spec_last_subscription_token() == before.spec_last_subscription_token()
            &&& r is ObserverTapClosed
            &&& r->ObserverTapClosed_0.subscription_token == token
            &&& r->ObserverTapClosed_0.observed_operations@ == if taps.taps().contains_key(token) {
                observed_operations(taps.log(), taps.taps()[token])
            } else {
                Seq::<OperationKind>::empty()
            }
            &&& after.spec_observer_tap_table().taps() == taps.taps().remove(token)
        },
    }
}


/// Every name in `names` already resolves, as a registration without
/// aliases, to a registered referent: settling them changes nothing.
pub open spec fn implied_referents_settled(registry: Seq<crate::referent::StoredReferentView>, names: Seq<Seq<char>>) -> bool {
    forall|k: int|
        0 <= k < names.len() ==> #[trigger] crate::store::settled_position(registry, names[k], Seq::empty()) is Some
}

/// Every name is kebab-case and the commit sequence has room for one
/// registration per name: settling the names cannot fail unguarded.
pub open spec fn implied_referents_registrable(commit_sequence: nat, names: Seq<Seq<char>>) -> bool {
    &&& forall|k: int| 0 <= k < names.len() ==> crate::referent::kebab_case(#[trigger] names[k])
    &&& commit_sequence + names.len() <= u64::MAX
}

/// How many referent names the replacements carry between them.
pub open spec fn replacement_name_count(replacements: Seq<Entry>) -> nat
    decreases replacements.len(),
{
    if replacements.len() == 0 {
        0
    } else {
        replacement_name_count(replacements.drop_last()) + replacements.last().referents@.len()
    }
}

/// Every name of every replacement is kebab-case and the commit sequence
/// has room for one registration per name.
pub open spec fn replacement_referents_registrable(commit_sequence: nat, replacements: Seq<Entry>) -> bool {
    &&& forall|j: int, k: int|
        0 <= j < replacements.len() && 0 <= k < replacements[j].referents@.len() ==> crate::referent::kebab_case(
            #[trigger] replacements[j].referents@[k],
        )
    &&& commit_sequence + replacement_name_count(replacements) <= u64::MAX
}

/// The names of the first `k` replacements, then those of the next.
pub proof fn lemma_replacement_name_count_prefix(replacements: Seq<Entry>, k: int)
    requires
        0 <= k <= replacements.len(),
    ensures
        k < replacements.len() ==> replacement_name_count(replacements.take(k + 1)) == replacement_name_count(
            replacements.take(k),
        ) + replacements[k].referents@.len(),
        replacement_name_count(replacements.take(k)) <= replacement_name_count(replacements),
    decreases replacements.len() - k,
{
    if k < replacements.len() {
        assert(replacements.take(k + 1).drop_last() =~= replacements.take(k));
        lemma_replacement_name_count_prefix(replacements, k + 1);
    } else {
        assert(replacements.take(k) =~= replacements);
    }
}

/// A name no referent answers to conflicts with no referent's names when
/// it comes without aliases.
pub proof fn lemma_unsettled_name_is_free(registry: Seq<crate::referent::StoredReferentView>, name: Seq<char>)
    requires
        crate::store::settled_position(registry, name, Seq::empty()) is None,
    ensures
        !crate::referent::name_conflict(
            registry,
            crate::referent::StoredReferentView { referent: name, aliases: Seq::empty() },
        ),
{
    let candidate = crate::referent::StoredReferentView { referent: name, aliases: Seq::empty() };
    if crate::referent::name_conflict(registry, candidate) {
        let i = choose|i: int|
            0 <= i < registry.len() && registry[i].referent != candidate.referent
                && crate::referent::shares_a_name(#[trigger] registry[i], candidate);
        assert(crate::referent::covers_registration(registry[i], name, Seq::empty()));
        assert(false);
    }
}

/// Every referent that some replacement names already resolves.
pub open spec fn replacement_referents_settled(registry: Seq<crate::referent::StoredReferentView>, replacements: Seq<Entry>) -> bool {
    forall|j: int| 0 <= j < replacements.len() ==> implied_referents_settled(registry, #[trigger] replacements[j].referents@)
}
/// What one local effect did: its outcome, with the settings, guardian,
/// ledger and operation log kept.
pub open spec fn effect_step(before: Nexus, after: Nexus, command: EffectCommand, r: EffectResult) -> bool {
    &&& (after.well_formed())
    &&& (after.spec_store().same_configuration(&before.spec_store()))
    &&& (!guarded(before) ==> after.spec_store().guardian_decisions() == before.spec_store().guardian_decisions())
    &&& (guardian_kept(before, after))
    &&& (after.spec_mail_ledger() == before.spec_mail_ledger())
    &&& (after.spec_observer_tap_table().log() == before.spec_observer_tap_table().log())
    &&& (effect_outcome(command, before, after, r))
}

impl Nexus {
    /// Settle every referent an entry names, in order, as a registration
    /// without aliases, each put before the guardian; the first refused
    /// registration stops the rest.
    fn register_implied_referents(&mut self, referents: &Referents, justification: &Justification) -> (r:
        Result<Result<(), ReferentGuardianRejection>, StoreError>)
        requires
            old(self).well_formed(),
            old(self).spec_guardian() is None,
        ensures
            final(self).well_formed(),
            final(self).spec_store().same_configuration(&old(self).spec_store()),
            !guarded(*old(self)) ==> final(self).spec_store().guardian_decisions() == old(self).spec_store().guardian_decisions(),
            final(self).spec_store()@.records == old(self).spec_store()@.records,
            tables_kept(*old(self), *final(self)),
            r matches Ok(Err(refusal)) ==> guarded(*old(self)) && refusal.referent_guardian_rejection_reason
                == ReferentGuardianRejectionReason::HarnessUnavailable,
            implied_referents_settled(old(self).spec_store()@.referents, referents@) ==> (r == Ok::<
                Result<(), ReferentGuardianRejection>,
                StoreError,
            >(Ok(())) && final(self).spec_store()@ == old(self).spec_store()@),
            !guarded(*old(self)) && implied_referents_registrable(old(self).spec_store()@.commit_sequence, referents@)
                ==> r == Ok::<Result<(), ReferentGuardianRejection>, StoreError>(Ok(())),
            !guarded(*old(self)) ==> final(self).spec_store()@.commit_sequence <= old(self).spec_store()@.commit_sequence
                + referents@.len(),
    {
        let mut i: usize = 0;
        proof {
            self.store.lemma_same_settings_reflexive();
            Store::lemma_same_settings_configuration(&self.store, &self.store);
        }
        while i < referents.0.len()
            invariant
                i <= referents.0.len(),
                self.well_formed(),
                self.spec_guardian() is None,
                self.spec_store().same_configuration(&old(self).spec_store()),
                !guarded(*old(self)) ==> self.spec_store().guardian_decisions() == old(self).spec_store().guardian_decisions(),
                self.spec_store()@.records == old(self).spec_store()@.records,
                tables_kept(*old(self), *self),
                implied_referents_settled(old(self).spec_store()@.referents, referents@) ==> self.spec_store()@
                    == old(self).spec_store()@,
                !guarded(*old(self)) ==> self.spec_store()@.commit_sequence <= old(self).spec_store()@.commit_sequence + i,
                referents@.len() == referents.0.len(),
            decreases referents.0.len() - i,
        {
            proof {
                if implied_referents_settled(old(self).spec_store()@.referents, referents@) {
                    assert(referents@[i as int] == referents.0@[i as int]@);
                    assert(crate::store::settled_position(old(self).spec_store()@.referents, referents@[i as int], Seq::empty()) is Some);
                }
            }
            let registration = ReferentRegistration {
                referent: referents.0[i].clone(),
                aliases: Referents(Vec::new()),
                justification: justification.clone(),
            };
            let ghost before = self.store;
            let registered = self.guard_referent_registration(registration, None);
            proof {
                Store::lemma_same_configuration_transitive(&self.store, &before, &old(self).spec_store());
            }
            match registered {
                Ok(Ok(_)) => {},
                Ok(Err(refusal)) => {
                    return Ok(Err(refusal));
                },
                Err(error) => {
                    proof {
                        if !guarded(*old(self)) && implied_referents_registrable(
                            old(self).spec_store()@.commit_sequence,
                            referents@,
                        ) {
                            assert(referents@[i as int] == referents.0@[i as int]@);
                            assert(crate::referent::kebab_case(referents@[i as int]));
                            lemma_unsettled_name_is_free(before@.referents, referents@[i as int]);
                            assert(false);
                        }
                    }
                    return Err(error);
                },
            }
            i = i + 1;
        }
        Ok(Ok(()))
    }

    /// Settle the referents of every replacement, in order.
    fn register_replacement_referents(&mut self, supersession: &Supersession) -> (r: Result<
        Result<(), ReferentGuardianRejection>,
        StoreError,
    >)
        requires
            old(self).well_formed(),
            old(self).spec_guardian() is None,
        ensures
            final(self).well_formed(),
            final(self).spec_store().same_configuration(&old(self).spec_store()),
            !guarded(*old(self)) ==> final(self).spec_store().guardian_decisions() == old(self).spec_store().guardian_decisions(),
            final(self).spec_store()@.records == old(self).spec_store()@.records,
            tables_kept(*old(self), *final(self)),
            r matches Ok(Err(refusal)) ==> guarded(*old(self)) && refusal.referent_guardian_rejection_reason
                == ReferentGuardianRejectionReason::HarnessUnavailable,
            replacement_referents_settled(old(self).spec_store()@.referents, supersession.replacements@) ==> (r
                == Ok::<Result<(), ReferentGuardianRejection>, StoreError>(Ok(())) && final(self).spec_store()@
                == old(self).spec_store()@),
            !guarded(*old(self)) && replacement_referents_registrable(
                old(self).spec_store()@.commit_sequence,
                supersession.replacements@,
            ) ==> r == Ok::<Result<(), ReferentGuardianRejection>, StoreError>(Ok(())),
    {
        let mut k: usize = 0;
        proof {
            self.store.lemma_same_settings_reflexive();
            Store::lemma_same_settings_configuration(&self.store, &self.store);
        }
        while k < supersession.replacements.len()
            invariant
                k <= supersession.replacements.len(),
                self.well_formed(),
                self.spec_guardian() is None,
                self.spec_store().same_configuration(&old(self).spec_store()),
                !guarded(*old(self)) ==> self.spec_store().guardian_decisions() == old(self).spec_store().guardian_decisions(),
                self.spec_store()@.records == old(self).spec_store()@.records,
                tables_kept(*old(self), *self),
                replacement_referents_settled(old(self).spec_store()@.referents, supersession.replacements@)
                    ==> self.spec_store()@ == old(self).spec_store()@,
                !guarded(*old(self)) ==> self.spec_store()@.commit_sequence <= old(self).spec_store()@.commit_sequence
                    + replacement_name_count(supersession.replacements@.take(k as int)),
            decreases supersession.replacements.len() - k,
        {
            proof {
                lemma_replacement_name_count_prefix(supersession.replacements@, k as int);
            }
            let ghost before = *self;
            let settled = self.register_implied_referents(
                &supersession.replacements[k].referents,
                &supersession.justification,
            );
            proof {
                Store::lemma_same_configuration_transitive(&self.spec_store(), &before.spec_store(), &old(self).spec_store());
            }
            match settled {
                Ok(Ok(())) => {},
                Ok(Err(refusal)) => {
                    return Ok(Err(refusal));
                },
                Err(error) => {
                    proof {
                        let reps = supersession.replacements@;
                        if !guarded(*old(self)) && replacement_referents_registrable(
                            old(self).spec_store()@.commit_sequence,
                            reps,
                        ) {
                            lemma_replacement_name_count_prefix(reps, k as int);
                            lemma_replacement_name_count_prefix(reps, k + 1);
                            assert forall|q: int| 0 <= q < reps[k as int].referents@.len() implies crate::referent::kebab_case(
                                #[trigger] reps[k as int].referents@[q],
                            ) by {}
                            assert(implied_referents_registrable(before.spec_store()@.commit_sequence, reps[k as int].referents@));
                            assert(false);
                        }
                    }
                    return Err(error);
                },
            }
            k = k + 1;
        }
        Ok(Ok(()))
    }

    /// Run one local effect against the store and the tables.
    pub fn apply_effect(&mut self, command: EffectCommand) -> (r: EffectResult)
        requires
            old(self).well_formed(),
            old(self).spec_guardian() is None,
        ensures
            effect_step(*old(self), *final(self), command, r),
    {
        match command {
            EffectCommand::ClassifyState(_)
            | EffectCommand::Stash(_)
            | EffectCommand::OpenIntentSubscription(_)
            | EffectCommand::OpenObserverTap(_)
            | EffectCommand::CloseObserverTap(_) => self.apply_table_effect(command),
            EffectCommand::RecordWithImpliedReferents(_)
            | EffectCommand::ProposeWithImpliedReferents(_)
            | EffectCommand::SupersedeWithImpliedReferents(_)
            | EffectCommand::ChangeRecordWithImpliedReferents(_)
            | EffectCommand::GuardReferentRegistration(_) => self.apply_referent_settlement(command),
            EffectCommand::GuardRecord(_) | EffectCommand::Propose(_) => self.apply_new_write(command),
            _ => self.apply_record_edit(command),
        }
    }

    /// Run an effect on the classification policy or the tables; no
    /// guardian is consulted for these.
    pub fn apply_table_effect(&mut self, command: EffectCommand) -> (r: EffectResult)
        requires
            old(self).well_formed(),
            command is ClassifyState || command is Stash || command is OpenIntentSubscription || command is OpenObserverTap || command is CloseObserverTap,
        ensures
            final(self).well_formed(),
            final(self).spec_store().same_configuration(&old(self).spec_store()),
            !guarded(*old(self)) ==> final(self).spec_store().guardian_decisions() == old(self).spec_store().guardian_decisions(),
            guardian_kept(*old(self), *final(self)),
            final(self).spec_mail_ledger() == old(self).spec_mail_ledger(),
            final(self).spec_observer_tap_table().log() == old(self).spec_observer_tap_table().log(),
            effect_outcome(command, *old(self), *final(self), r),
    {
        proof {
            self.store.lemma_same_settings_reflexive();
            Store::lemma_same_settings_configuration(&self.store, &self.store);
        }
        match command {
            EffectCommand::ClassifyState(statement) => {
                EffectResult::StateClassified(self.classification_policy.classify(statement))
            },
            EffectCommand::Stash(request) => {
                if !self.stash_table.can_mint() {
                    return failed_with("stash handles exhausted");
                }
                let StashRequest { records, database_marker } = request;
                EffectResult::Stashed(self.stash_table.put(records, database_marker))
            },
            EffectCommand::OpenIntentSubscription(_query) => {
                if self.last_subscription_token == u64::MAX {
                    return failed_with("subscription tokens exhausted");
                }
                self.last_subscription_token = self.last_subscription_token + 1;
                EffectResult::IntentSubscriptionOpened(self.last_subscription_token)
            },
            EffectCommand::OpenObserverTap(filter) => {
                if !self.observer_tap_table.can_mint() {
                    return failed_with("observer tap tokens exhausted");
                }
                let (token, observer_filter, observed_operations) = self.observer_tap_table.open(filter);
                EffectResult::ObserverTapOpened(
                    ObserverSubscription { subscription_token: token, observer_filter, observed_operations },
                )
            },
            EffectCommand::CloseObserverTap(token) => {
                let observed_operations = match self.observer_tap_table.close(token) {
                    Some(observed) => observed,
                    None => Vec::new(),
                };
                EffectResult::ObserverTapClosed(ObserverRetraction { subscription_token: token, observed_operations })
            },
            _ => {
                proof { assert(false); }
                EffectResult::OperationFailed(String::new())
            },
        }
    }

    /// Settle the referents a write implies, or register one referent.
    fn apply_referent_settlement(&mut self, command: EffectCommand) -> (r: EffectResult)
        requires
            old(self).well_formed(),
            old(self).spec_guardian() is None,
            command is RecordWithImpliedReferents || command is ProposeWithImpliedReferents || command is SupersedeWithImpliedReferents || command is ChangeRecordWithImpliedReferents || command is GuardReferentRegistration,
        ensures
            final(self).well_formed(),
            final(self).spec_store().same_configuration(&old(self).spec_store()),
            !guarded(*old(self)) ==> final(self).spec_store().guardian_decisions() == old(self).spec_store().guardian_decisions(),
            guardian_kept(*old(self), *final(self)),
            final(self).spec_mail_ledger() == old(self).spec_mail_ledger(),
            final(self).spec_observer_tap_table().log() == old(self).spec_observer_tap_table().log(),
            effect_outcome(command, *old(self), *final(self), r),
    {
        proof {
            self.store.lemma_same_settings_reflexive();
            Store::lemma_same_settings_configuration(&self.store, &self.store);
        }
        match command {
            EffectCommand::RecordWithImpliedReferents(request) => {
                match self.register_implied_referents(&request.entry.referents, &request.justification) {
                    Ok(Ok(())) => EffectResult::RecordReferentsSettled(request),
                    Ok(Err(refusal)) => EffectResult::ReferentGuardianRejected(refusal),
                    Err(error) => failed(error),
                }
            },
            EffectCommand::ProposeWithImpliedReferents(proposal) => {
                match self.register_implied_referents(&proposal.entry.referents, &proposal.justification) {
                    Ok(Ok(())) => EffectResult::ProposeReferentsSettled(proposal),
                    Ok(Err(refusal)) => EffectResult::ReferentGuardianRejected(refusal),
                    Err(error) => failed(error),
                }
            },
            EffectCommand::SupersedeWithImpliedReferents(supersession) => {
                match self.register_replacement_referents(&supersession) {
                    Ok(Ok(())) => EffectResult::SupersedeReferentsSettled(supersession),
                    Ok(Err(refusal)) => EffectResult::ReferentGuardianRejected(refusal),
                    Err(error) => failed(error),
                }
            },
            EffectCommand::ChangeRecordWithImpliedReferents(change) => {
                match self.register_implied_referents(&change.entry.referents, &change.justification) {
                    Ok(Ok(())) => EffectResult::ChangeRecordReferentsSettled(change),
                    Ok(Err(refusal)) => EffectResult::ReferentGuardianRejected(refusal),
                    Err(error) => failed(error),
                }
            },
            EffectCommand::GuardReferentRegistration(registration) => match self.guard_referent_registration(
                registration,
                None,
            ) {
                Ok(Ok(receipt)) => EffectResult::ReferentRegistered(receipt),
                Ok(Err(refusal)) => EffectResult::ReferentGuardianRejected(refusal),
                Err(error) => failed(error),
            },
            _ => {
                proof { assert(false); }
                EffectResult::OperationFailed(String::new())
            },
        }
    }

    /// File a new record or a proposal.
    #[verifier::spinoff_prover]
    fn apply_new_write(&mut self, command: EffectCommand) -> (r: EffectResult)
        requires
            old(self).well_formed(),
            old(self).spec_guardian() is None,
            command is GuardRecord || command is Propose,
        ensures
            final(self).well_formed(),
            final(self).spec_store().same_configuration(&old(self).spec_store()),
            !guarded(*old(self)) ==> final(self).spec_store().guardian_decisions() == old(self).spec_store().guardian_decisions(),
            guardian_kept(*old(self), *final(self)),
            final(self).spec_mail_ledger() == old(self).spec_mail_ledger(),
            final(self).spec_observer_tap_table().log() == old(self).spec_observer_tap_table().log(),
            effect_outcome(command, *old(self), *final(self), r),
    {
        proof {
            self.store.lemma_same_settings_reflexive();
            Store::lemma_same_settings_configuration(&self.store, &self.store);
        }
        match command {
            EffectCommand::GuardRecord(request) => match self.guard_record(request, None) {
                Ok(Ok(receipt)) => EffectResult::Recorded(receipt),
                Ok(Err(refusal)) => EffectResult::GuardianRejected(refusal),
                Err(error) => failed(error),
            },
            EffectCommand::Propose(proposal) => match self.guard_propose(proposal, None) {
                Ok(Ok(receipt)) => EffectResult::Proposed(receipt),
                Ok(Err(rejection)) => EffectResult::GuardianRejected(rejection),
                Err(error) => failed(error),
            },
            _ => {
                proof { assert(false); }
                EffectResult::OperationFailed(String::new())
            },
        }
    }

    /// Edit, resolve, supersede or retire existing records.
    #[verifier::spinoff_prover]
    fn apply_record_edit(&mut self, command: EffectCommand) -> (r: EffectResult)
        requires
            old(self).well_formed(),
            old(self).spec_guardian() is None,
            command is Clarify || command is ResolveClarification || command is Supersede || command is Retire || command is GuardChangeRecord,
        ensures
            final(self).well_formed(),
            final(self).spec_store().same_configuration(&old(self).spec_store()),
            !guarded(*old(self)) ==> final(self).spec_store().guardian_decisions() == old(self).spec_store().guardian_decisions(),
            guardian_kept(*old(self), *final(self)),
            final(self).spec_mail_ledger() == old(self).spec_mail_ledger(),
            final(self).spec_observer_tap_table().log() == old(self).spec_observer_tap_table().log(),
            effect_outcome(command, *old(self), *final(self), r),
    {
        proof {
            self.store.lemma_same_settings_reflexive();
            Store::lemma_same_settings_configuration(&self.store, &self.store);
        }
        match command {
            EffectCommand::Clarify(clarification) => {
                let ghost before = self.store@.records;
                let ghost id = clarification.record_identifier.0@;
                let ghost description = clarification.description@;
                proof { self.store.lemma_distinct_rows(); }
                match self.guard_clarify(clarification, None) {
                    Ok(Err(refusal)) => EffectResult::GuardianRejected(refusal),
                    Ok(Ok(Some(receipt))) => {
                        proof {
                            let i = crate::store::record_position(before, id);
                            crate::store::lemma_entry_of_with_entry(
                                before,
                                i,
                                crate::store::with_description(before[i].entry, description),
                                id,
                            );
                        }
                        EffectResult::Clarified(receipt)
                    },
                    Ok(Ok(None)) => {
                    proof { reveal_strlit("record not found"); }
                    failed_with("record not found")
                },
                    Err(error) => failed(error),
                }
            },
            EffectCommand::ResolveClarification(resolution) => match self.guard_resolve_clarification(
                resolution,
                None,
            ) {
                Ok(Err(refusal)) => EffectResult::GuardianRejected(refusal),
                Ok(Ok(Some(receipt))) => EffectResult::ClarificationResolved(receipt),
                Ok(Ok(None)) => {
                    proof { reveal_strlit("clarification resolution target not found"); }
                    failed_with("clarification resolution target not found")
                },
                Err(error) => failed(error),
            },
            EffectCommand::Supersede(supersession) => match self.guard_supersede(supersession, None) {
                Ok(Err(refusal)) => EffectResult::GuardianRejected(refusal),
                Ok(Ok(Some(receipt))) => {
                    proof {
                        let retired = crate::store::identifier_texts(receipt.retired_identifiers@);
                        assert forall|k: int| 0 <= k < receipt.retired_identifiers.len() implies retired.contains(
                            #[trigger] receipt.retired_identifiers@[k].0@,
                        ) by {
                            assert(retired[k] == receipt.retired_identifiers@[k].0@);
                        }
                    }
                    EffectResult::Superseded(receipt)
                },
                Ok(Ok(None)) => {
                    proof { reveal_strlit("supersede target not found"); }
                    failed_with("supersede target not found")
                },
                Err(error) => failed(error),
            },
            EffectCommand::Retire(retirement) => {
                let ghost before = self.store@.records;
                let ghost id = retirement.record_identifier.0@;
                proof { self.store.lemma_distinct_rows(); }
                match self.guard_retire(retirement, None) {
                    Ok(Err(refusal)) => EffectResult::GuardianRejected(refusal),
                    Ok(Ok(Some(receipt))) => {
                        proof {
                            crate::store::lemma_entry_of_without(before, crate::store::record_position(before, id), id);
                        }
                        EffectResult::Retired(receipt)
                    },
                    Ok(Ok(None)) => {
                    proof { reveal_strlit("record not found"); }
                    failed_with("record not found")
                },
                    Err(error) => failed(error),
                }
            },
            EffectCommand::GuardChangeRecord(change) => {
                let ghost before = self.store@.records;
                let ghost registry = self.store@.referents;
                let ghost id = change.record_identifier.0@;
                let ghost wanted = change.entry@;
                proof { self.store.lemma_distinct_rows(); }
                match self.guard_change_record(change, None) {
                    Ok(Err(refusal)) => EffectResult::GuardianRejected(refusal),
                    Ok(Ok(Some(receipt))) => {
                        proof {
                            let i = crate::store::record_position(before, id);
                            crate::store::lemma_entry_of_with_entry(
                                before,
                                i,
                                canonical_entry(registry, wanted)->Some_0,
                                id,
                            );
                        }
                        EffectResult::RecordChanged(receipt)
                    },
                    Ok(Ok(None)) => {
                    proof { reveal_strlit("record not found"); }
                    failed_with("record not found")
                },
                    Err(error) => failed(error),
                }
            },
            _ => {
                proof { assert(false); }
                EffectResult::OperationFailed(String::new())
            },
        }
    }
}

/// The error text when one signal's chain of decisions outruns the
/// continuation budget.
pub open spec fn budget_exhausted_text(completed: nat, limit: nat) -> Seq<char> {
    "nexus continuation budget exhausted after "@ + crate::store::decimal_text(completed) + " steps (limit "@
        + crate::store::decimal_text(limit) + ")"@
}

/// A notification that the intent corpus changed.
#[derive(Debug)]
pub enum IntentEvent {
    IntentRecorded { entry: Entry, record_identifier: RecordIdentifier },
    IntentClarified { record_identifier: RecordIdentifier, entry: Entry },
    IntentSuperseded {
        retired_identifiers: Vec<RecordIdentifier>,
        replacements: Vec<Entry>,
        record_identifiers: Vec<RecordIdentifier>,
    },
    IntentRetired(RecordIdentifier),
}

/// The live entries of the identifiers, in order, skipping any that are
/// gone.
pub open spec fn live_entries(records: Seq<RecordView>, ids: Seq<RecordIdentifier>) -> Seq<
    crate::query::EntryView,
>
    decreases ids.len(),
{
    if ids.len() == 0 {
        Seq::empty()
    } else {
        let rest = live_entries(records, ids.drop_last());
        match entry_of(records, ids.last().0@) {
            Some(e) => rest.push(e),
            None => rest,
        }
    }
}

/// What deciding one piece of work did: the action chosen and how the
/// Nexus moved.
pub open spec fn decide_outcome(before: Nexus, after: Nexus, work: NexusWork, action: NexusAction) -> bool {
    &&& (after.well_formed())
    &&& (after.spec_store() == before.spec_store())
    &&& (after.spec_mail_ledger() == before.spec_mail_ledger())
    &&& (after.spec_stash_table() == before.spec_stash_table())
    &&& (after.spec_observer_tap_table().taps() == before.spec_observer_tap_table().taps())
    &&& (after.spec_observer_tap_table().last_token() == before.spec_observer_tap_table().last_token())
    &&& (after.spec_last_subscription_token() == before.spec_last_subscription_token())
    &&& (guardian_kept(before, after))
    &&& (match work {
        NexusWork::SignalArrived(input) => after.spec_observer_tap_table().log()
            == before.spec_observer_tap_table().log().push(operation_kind(input))
            && arrival_action(before, input, action),
        NexusWork::SemaWriteCompleted(output) => action == write_completion_route(output)
            && after == before,
        NexusWork::SemaReadCompleted(output) => action == read_completion_route(
            output,
            DatabaseMarker {
                commit_sequence: before.spec_store()@.commit_sequence as u64,
                state_digest: before.spec_store().spec_state_digest(),
            },
        ) && after == before,
        NexusWork::EffectCompleted(result) => action == effect_completion_route(result)
            && after == before,
    })
}

/// The two Nexus states differ at most in their mail ledgers.
pub open spec fn same_but_ledger(a: Nexus, b: Nexus) -> bool {
    &&& a.spec_store() == b.spec_store()
    &&& a.spec_stash_table() == b.spec_stash_table()
    &&& a.spec_observer_tap_table() == b.spec_observer_tap_table()
    &&& a.spec_last_subscription_token() == b.spec_last_subscription_token()
    &&& guardian_kept(a, b)
}

/// Where one carried-out step of a signal's cycle leads: to the reply, or
/// to the next piece of work.
pub enum Turn {
    Reply(Output),
    Next(NexusWork),
}

/// What carrying out a decided action did: a reply ends the cycle with the
/// Nexus as it was; a SEMA write moves only the store, by the write's
/// outcome, and its output is the next work; a read and a continuation
/// move nothing; an effect moves the Nexus by the effect's outcome.
pub open spec fn carried(before: Nexus, after: Nexus, action: NexusAction, turn: Turn) -> bool {
    match action {
        NexusAction::ReplyToSignal(output) => after == before && turn == Turn::Reply(output),
        NexusAction::CommandSemaWrite(command) => exists|output: SemaWriteOutput|
            #[trigger] crate::sema::write_outcome(before.spec_store(), after.spec_store(), command, output)
                && tables_kept(before, after) && turn == Turn::Next(NexusWork::SemaWriteCompleted(output)),
        NexusAction::CommandSemaRead(command) => after == before && exists|output: SemaReadOutput|
            #[trigger] crate::sema::read_outcome(before.spec_store(), command, output) && turn == Turn::Next(
                NexusWork::SemaReadCompleted(output),
            ),
        NexusAction::CommandEffect(command) => exists|result: EffectResult|
            #[trigger] effect_step(before, after, command, result) && turn == Turn::Next(
                NexusWork::EffectCompleted(result),
            ),
        NexusAction::Continue(next) => after == before && turn == Turn::Next(next),
    }
}

/// One step of a signal's cycle: the work is decided, and the action
/// carried out.
pub open spec fn cycle_step(before: Nexus, after: Nexus, work: NexusWork, turn: Turn) -> bool {
    exists|decided: Nexus, action: NexusAction|
        #[trigger] decide_outcome(before, decided, work, action) && carried(decided, after, action, turn)
}

/// The cycle stopped at the continuation budget: the work was decided to
/// an action other than a reply, which was not carried out, and the reply
/// is the budget error.
pub open spec fn budget_stop(before: Nexus, after: Nexus, work: NexusWork, r: Output) -> bool {
    &&& exists|action: NexusAction| #[trigger] decide_outcome(before, after, work, action) && !(action is ReplyToSignal)
    &&& r is Error && r->Error_0@ == budget_exhausted_text(CONTINUATION_LIMIT as nat, CONTINUATION_LIMIT as nat)
}

/// A whole cycle: `states[i]` is the Nexus before `works[i]`; every work but
/// the last leads to the next, and the last leads to the reply `r`, or
/// stops at the continuation budget after `CONTINUATION_LIMIT` carried-out
/// steps.
pub open spec fn cycle_run(states: Seq<Nexus>, works: Seq<NexusWork>, r: Output) -> bool {
    let n = works.len() as int;
    &&& n >= 1
    &&& states.len() == n + 1
    &&& forall|i: int|
        0 <= i < n - 1 ==> #[trigger] cycle_step(states[i], states[i + 1], works[i], Turn::Next(works[i + 1]))
    &&& (cycle_step(states[n - 1], states[n], works[n - 1], Turn::Reply(r)) || (n - 1 == CONTINUATION_LIMIT
        && budget_stop(states[n - 1], states[n], works[n - 1], r)))
}

/// The reply `r` is what the cycle of `work` produces from `before`,
/// ending at `after`.
pub open spec fn cycle_reply(before: Nexus, after: Nexus, work: NexusWork, r: Output) -> bool {
    exists|states: Seq<Nexus>, works: Seq<NexusWork>|
        #[trigger] cycle_run(states, works, r) && states[0] == before && states.last() == after && works[0] == work
}

impl Nexus {
    /// One step of the decision plane: consume a fact, decide an action.
    pub fn step_decide(&mut self, work: NexusWork) -> (action: NexusAction)
        requires
            old(self).well_formed(),
        ensures
            decide_outcome(*old(self), *final(self), work, action),
    {
        match work {
            NexusWork::SignalArrived(input) => self.decide_signal_arrival(input),
            NexusWork::SemaWriteCompleted(output) => self.decide_sema_write_completion(output),
            NexusWork::SemaReadCompleted(output) => self.decide_sema_read_completion(output),
            NexusWork::EffectCompleted(result) => self.decide_effect_completion(result),
        }
    }

    /// Append a handoff line to the mail ledger.
    pub fn record_sent(&mut self, sent: crate::ledger::MessageSent)
        ensures
            final(self).spec_mail_ledger().events@ == old(self).spec_mail_ledger().events@.push(
                crate::ledger::sent_event(sent),
            ),
            final(self).well_formed() == old(self).well_formed(),
            final(self).spec_store() == old(self).spec_store(),
            final(self).spec_stash_table() == old(self).spec_stash_table(),
            final(self).spec_observer_tap_table() == old(self).spec_observer_tap_table(),
            guardian_kept(*old(self), *final(self)),
            final(self).spec_last_subscription_token() == old(self).spec_last_subscription_token(),
    {
        self.mail_ledger.events.push(sent.into_mail_ledger_event());
    }

    /// Append a reply line to the mail ledger.
    pub fn record_processed(&mut self, identifier: crate::ledger::MessageIdentifier, origin_route: crate::ledger::OriginRoute)
        ensures
            final(self).spec_mail_ledger().events@ == old(self).spec_mail_ledger().events@.push(
                crate::ledger::processed_event(identifier, origin_route),
            ),
            final(self).well_formed() == old(self).well_formed(),
            final(self).spec_store() == old(self).spec_store(),
            final(self).spec_stash_table() == old(self).spec_stash_table(),
            final(self).spec_observer_tap_table() == old(self).spec_observer_tap_table(),
            guardian_kept(*old(self), *final(self)),
            final(self).spec_last_subscription_token() == old(self).spec_last_subscription_token(),
    {
        let processed = crate::ledger::MessageProcessed::new(identifier, origin_route, ());
        self.mail_ledger.events.push(processed.processed_mail_event());
    }

    /// Import a record under its own identifier (the owner-only path; no
    /// guardian).
    pub fn import_record(&mut self, record_identifier: String, entry: Entry) -> (r: Result<String, StoreError>)
        requires
            old(self).well_formed(),
        ensures
            final(self).well_formed(),
            final(self).spec_store().same_settings(&old(self).spec_store()),
            tables_kept(*old(self), *final(self)),
            match r {
                Ok(identifier) => identifier == record_identifier && final(self).spec_store()@.records
                    == old(self).spec_store()@.records.push(
                    RecordView {
                        identifier: record_identifier@,
                        entry: canonical_entry(old(self).spec_store()@.referents, entry@)->Some_0,
                    },
                ),
                Err(_) => same_content(final(self).spec_store(), old(self).spec_store()),
            },
    {
        self.store.import_record(record_identifier, entry)
    }

    /// Sweep out every record the query matches (the owner-only path; no
    /// guardian).
    pub fn collect_removal_candidates(&mut self, collection: crate::store::RemovalCandidateCollection) -> (r:
        Result<crate::store::RemovalCandidatesCollection, StoreError>)
        requires
            old(self).well_formed(),
        ensures
            final(self).well_formed(),
            final(self).spec_store().same_settings(&old(self).spec_store()),
            tables_kept(*old(self), *final(self)),
            match r {
                Ok(c) => observed_view(c.removal_archive_records@) == crate::store::selected(
                    old(self).spec_store()@.records,
                    collection.record_query@,
                ),
                Err(_) => old(self).spec_store()@.commit_sequence + crate::store::selected(
                    old(self).spec_store()@.records,
                    collection.record_query@,
                ).len() > u64::MAX,
            },
    {
        self.store.collect_removal_candidates(collection)
    }

    /// The error reply for an outrun budget.
    pub fn budget_exhausted_reply(&self, completed: u64, limit: u64) -> (r: Output)
        ensures
            r is Error && r->Error_0@ == budget_exhausted_text(completed as nat, limit as nat),
    {
        let mut text = "nexus continuation budget exhausted after ".to_string();
        text.append(crate::store::decimal_of(completed).as_str());
        text.append(" steps (limit ");
        text.append(crate::store::decimal_of(limit).as_str());
        text.append(")");
        proof {
            reveal_strlit("nexus continuation budget exhausted after ");
            reveal_strlit(" steps (limit ");
            reveal_strlit(")");
        }
        Output::Error(text)
    }

    /// Drive one signal to its reply: decide, carry out the SEMA command or
    /// effect, feed its completion back, until a reply comes out. After
    /// `CONTINUATION_LIMIT` carried-out steps the reply is the budget
    /// error instead.
    pub fn execute_to_reply(&mut self, work: NexusWork) -> (r: Output)
        requires
            old(self).well_formed(),
            old(self).spec_guardian() is None,
        ensures
            final(self).well_formed(),
            final(self).spec_store().same_configuration(&old(self).spec_store()),
            !guarded(*old(self)) ==> final(self).spec_store().guardian_decisions() == old(self).spec_store().guardian_decisions(),
            guardian_kept(*old(self), *final(self)),
            final(self).spec_mail_ledger() == old(self).spec_mail_ledger(),
            cycle_reply(*old(self), *final(self), work, r),
    {
        let ghost first = work;
        let mut next_work = work;
        let mut spent: u64 = 0;
        let ghost mut states: Seq<Nexus> = seq![*self];
        let ghost mut works: Seq<NexusWork> = seq![work];
        proof {
            self.store.lemma_same_settings_reflexive();
            Store::lemma_same_settings_configuration(&self.store, &self.store);
        }
        loop
            invariant
                spent <= CONTINUATION_LIMIT,
                self.well_formed(),
                self.spec_guardian() is None,
                guardian_kept(*old(self), *self),
                self.spec_store().same_configuration(&old(self).spec_store()),
                !guarded(*old(self)) ==> self.spec_store().guardian_decisions() == old(self).spec_store().guardian_decisions(),
                self.spec_mail_ledger() == old(self).spec_mail_ledger(),
                states.len() == spent + 1,
                works.len() == spent + 1,
                states[0] == *old(self),
                works[0] == first,
                states.last() == *self,
                works.last() == next_work,
                first == work,
                forall|i: int|
                    0 <= i < spent ==> #[trigger] cycle_step(states[i], states[i + 1], works[i], Turn::Next(works[i + 1])),
            decreases CONTINUATION_LIMIT - spent,
        {
            let ghost before = *self;
            let ghost current = next_work;
            let action = self.step_decide(next_work);
            let ghost decided = *self;
            let ghost chosen = action;
            let next = match action {
                NexusAction::ReplyToSignal(output) => {
                    proof {
                        assert(carried(decided, *self, chosen, Turn::Reply(output)));
                        assert(cycle_step(before, *self, current, Turn::Reply(output)));
                        let full = states.push(*self);
                        assert(cycle_run(full, works, output));
                        assert(full[0] == *old(self));
                        assert(full.last() == *self);
                        assert(cycle_reply(*old(self), *self, first, output));
                    }
                    return output;
                },
                NexusAction::CommandSemaWrite(command) => {
                    if spent == CONTINUATION_LIMIT {
                        let reply = self.budget_exhausted_reply(spent, CONTINUATION_LIMIT);
                        proof {
                            assert(budget_stop(before, *self, current, reply));
                            let full = states.push(*self);
                            assert(cycle_run(full, works, reply));
                            assert(full[0] == *old(self));
                            assert(full.last() == *self);
                            assert(cycle_reply(*old(self), *self, first, reply));
                        }
                        return reply;
                    }
                    let ghost mid = self.store;
                    let output = self.store.apply_write(command);
                    proof {
                        Store::lemma_same_settings_configuration(&self.store, &mid);
                        Store::lemma_same_configuration_transitive(&self.store, &mid, &old(self).spec_store());
                        assert(crate::sema::write_outcome(decided.spec_store(), self.spec_store(), command, output));
                        assert(carried(decided, *self, chosen, Turn::Next(NexusWork::SemaWriteCompleted(output))));
                    }
                    NexusWork::SemaWriteCompleted(output)
                },
                NexusAction::CommandSemaRead(command) => {
                    if spent == CONTINUATION_LIMIT {
                        let reply = self.budget_exhausted_reply(spent, CONTINUATION_LIMIT);
                        proof {
                            assert(budget_stop(before, *self, current, reply));
                            let full = states.push(*self);
                            assert(cycle_run(full, works, reply));
                            assert(full[0] == *old(self));
                            assert(full.last() == *self);
                            assert(cycle_reply(*old(self), *self, first, reply));
                        }
                        return reply;
                    }
                    let output = self.store.observe_read(command);
                    proof {
                        assert(crate::sema::read_outcome(decided.spec_store(), command, output));
                        assert(carried(decided, *self, chosen, Turn::Next(NexusWork::SemaReadCompleted(output))));
                    }
                    NexusWork::SemaReadCompleted(output)
                },
                NexusAction::CommandEffect(command) => {
                    if spent == CONTINUATION_LIMIT {
                        let reply = self.budget_exhausted_reply(spent, CONTINUATION_LIMIT);
                        proof {
                            assert(budget_stop(before, *self, current, reply));
                            let full = states.push(*self);
                            assert(cycle_run(full, works, reply));
                            assert(full[0] == *old(self));
                            assert(full.last() == *self);
                            assert(cycle_reply(*old(self), *self, first, reply));
                        }
                        return reply;
                    }
                    let ghost mid = self.store;
                    let result = self.apply_effect(command);
                    proof {
                        Store::lemma_same_configuration_transitive(&self.store, &mid, &old(self).spec_store());
                        assert(effect_step(decided, *self, command, result));
                        assert(carried(decided, *self, chosen, Turn::Next(NexusWork::EffectCompleted(result))));
                    }
                    NexusWork::EffectCompleted(result)
                },
                NexusAction::Continue(next) => {
                    if spent == CONTINUATION_LIMIT {
                        let reply = self.budget_exhausted_reply(spent, CONTINUATION_LIMIT);
                        proof {
                            assert(budget_stop(before, *self, current, reply));
                            let full = states.push(*self);
                            assert(cycle_run(full, works, reply));
                            assert(full[0] == *old(self));
                            assert(full.last() == *self);
                            assert(cycle_reply(*old(self), *self, first, reply));
                        }
                        return reply;
                    }
                    proof {
                        assert(carried(decided, *self, chosen, Turn::Next(next)));
                    }
                    next
                },
            };
            proof {
                assert(cycle_step(before, *self, current, Turn::Next(next)));
                let old_states = states;
                let old_works = works;
                states = states.push(*self);
                works = works.push(next);
                assert forall|i: int| 0 <= i < spent + 1 implies #[trigger] cycle_step(
                    states[i],
                    states[i + 1],
                    works[i],
                    Turn::Next(works[i + 1]),
                ) by {
                    if i < spent {
                        assert(states[i] == old_states[i]);
                        assert(states[i + 1] == old_states[i + 1]);
                        assert(works[i] == old_works[i]);
                        assert(works[i + 1] == old_works[i + 1]);
                    }
                }
            }
            spent = spent + 1;
            next_work = next;
        }
    }

    /// The event announcing a recorded intent; `None` when the record is
    /// already gone.
    pub fn intent_recorded_event(&self, record_identifier: &RecordIdentifier) -> (r: Option<IntentEvent>)
        requires
            self.well_formed(),
        ensures
            match entry_of(self.spec_store()@.records, record_identifier.0@) {
                Some(e) => r is Some && r->Some_0 is IntentRecorded && r->Some_0->IntentRecorded_entry@ == e
                    && r->Some_0->IntentRecorded_record_identifier == *record_identifier,
                None => r is None,
            },
    {
        match self.store.entry_by_identifier(record_identifier.0.as_str()) {
            Some(entry) => Some(IntentEvent::IntentRecorded { entry, record_identifier: record_identifier.clone() }),
            None => None,
        }
    }

    /// The event announcing a clarified intent; `None` when the record is
    /// already gone.
    pub fn intent_clarified_event(&self, receipt: &ClarificationReceipt) -> (r: Option<IntentEvent>)
        requires
            self.well_formed(),
        ensures
            match entry_of(self.spec_store()@.records, receipt.0.0@) {
                Some(e) => r is Some && r->Some_0 is IntentClarified && r->Some_0->IntentClarified_entry@ == e
                    && r->Some_0->IntentClarified_record_identifier == receipt.0,
                None => r is None,
            },
    {
        match self.store.entry_by_identifier(receipt.0.0.as_str()) {
            Some(entry) => Some(IntentEvent::IntentClarified { record_identifier: receipt.0.clone(), entry }),
            None => None,
        }
    }

    /// The event announcing a supersession: the retired identifiers, the
    /// live replacement entries (a replacement already gone is skipped, not
    /// the whole event), and the replacement identifiers.
    pub fn intent_superseded_event(&self, receipt: &SupersessionReceipt) -> (r: IntentEvent)
        requires
            self.well_formed(),
        ensures
            r is IntentSuperseded,
            r->IntentSuperseded_retired_identifiers@ == receipt.retired_identifiers@,
            r->IntentSuperseded_record_identifiers@ == receipt.record_identifiers@,
            r->IntentSuperseded_replacements@.map_values(|e: Entry| e@) == live_entries(
                self.spec_store()@.records,
                receipt.record_identifiers@,
            ),
    {
        let mut replacements: Vec<Entry> = Vec::new();
        let mut i: usize = 0;
        assert(receipt.record_identifiers@.take(0) =~= Seq::<RecordIdentifier>::empty());
        while i < receipt.record_identifiers.len()
            invariant
                i <= receipt.record_identifiers.len(),
                self.well_formed(),
                replacements@.map_values(|e: Entry| e@) == live_entries(
                    self.spec_store()@.records,
                    receipt.record_identifiers@.take(i as int),
                ),
            decreases receipt.record_identifiers.len() - i,
        {
            let ghost before = replacements@.map_values(|e: Entry| e@);
            assert(receipt.record_identifiers@.take(i + 1).drop_last() =~= receipt.record_identifiers@.take(i as int));
            match self.store.entry_by_identifier(receipt.record_identifiers[i].0.as_str()) {
                Some(entry) => {
                    replacements.push(entry);
                    assert(replacements@.map_values(|e: Entry| e@) =~= before.push(replacements@.last()@));
                },
                None => {},
            }
            i = i + 1;
        }
        assert(receipt.record_identifiers@.take(receipt.record_identifiers.len() as int) =~= receipt.record_identifiers@);
        IntentEvent::IntentSuperseded {
            retired_identifiers: crate::store::clone_identifier_list(&receipt.retired_identifiers),
            replacements,
            record_identifiers: crate::store::clone_identifier_list(&receipt.record_identifiers),
        }
    }

    /// The event announcing a retirement.
    pub fn intent_retired_event(&self, receipt: &RetirementReceipt) -> (r: IntentEvent)
        ensures
            r == IntentEvent::IntentRetired(receipt.0),
    {
        IntentEvent::IntentRetired(receipt.0.clone())
    }
}

/// Why a guarded write is refused when no guardian agent is installed.
pub open spec fn harness_unavailable_text() -> Seq<char> {
    "guardian is required but no guardian agent is configured"@
}

/// The installed guardian and the requirement are unchanged.
pub open spec fn guardian_kept(before: Nexus, after: Nexus) -> bool {
    &&& after.spec_guardian() == before.spec_guardian()
    &&& after.spec_guardian_required() == before.spec_guardian_required()
}

/// Writes must pass a guardian, or one is installed.
pub open spec fn guarded(nexus: Nexus) -> bool {
    nexus.spec_guardian() is Some || nexus.spec_guardian_required()
}

/// The store's marker, as a value.
pub open spec fn marker_of(store: Store) -> DatabaseMarker {
    DatabaseMarker { commit_sequence: store@.commit_sequence as u64, state_digest: store.spec_state_digest() }
}

/// The journal gained exactly one decision on the write `operation`,
/// judged against the bundle of `rows` at `marker`.
pub open spec fn journaled_write(
    before: Seq<GuardianDecision>,
    after: Seq<GuardianDecision>,
    operation: GuardianOperation,
    rows: Seq<RecordView>,
    marker: DatabaseMarker,
) -> bool {
    &&& after.len() == before.len() + 1
    &&& after.drop_last() == before
    &&& match after.last() {
        GuardianDecision::Record { operation: op, record_set, verdict: _, database_marker } => op
            == operation && database_marker == marker && is_bundle_of(observed_view(record_set.0@), rows),
        _ => false,
    }
}

/// What putting a write before the guardian journaled: nothing when
/// unguarded; else one decision on the write against the bundle of the
/// records it relates to, whose verdict is a refusal for an unavailable
/// guardian when no agent is installed, and otherwise what the judge's
/// reply makes of it.
pub open spec fn guard_journaled(
    before: Nexus,
    after: Seq<GuardianDecision>,
    operation: GuardianOperation,
    judge_reply: Option<Result<SpiritJudgeReply, AgentGuardianError>>,
) -> bool {
    let decisions = before.spec_store().guardian_decisions();
    let rows = operation_rows(before.spec_store()@.records, before.spec_store()@.referents, operation);
    if !guarded(before) {
        after == decisions
    } else {
        &&& rows is Some
        &&& journaled_write(decisions, after, operation, rows->Some_0, marker_of(before.spec_store()))
        &&& if before.spec_guardian() is None {
            admission_verdict_view(last_write_verdict(after)) == Some((
                GuardianRejectionReason::HarnessUnavailable,
                harness_unavailable_text(),
            ))
        } else {
            admission_verdict_for(judge_reply->Some_0, last_write_verdict(after))
        }
    }
}

/// What putting a write before the guardian answered: `refusal` is what
/// the journaled verdict refuses (nothing when unguarded).
pub open spec fn guard_outcome(
    before: Nexus,
    after: Seq<GuardianDecision>,
    operation: GuardianOperation,
    judge_reply: Option<Result<SpiritJudgeReply, AgentGuardianError>>,
    refusal: Option<GuardianRejection>,
) -> bool {
    &&& guard_journaled(before, after, operation, judge_reply)
    &&& if !guarded(before) {
        refusal is None
    } else {
        refusal_for(
            last_write_verdict(after),
            operation_rows(before.spec_store()@.records, before.spec_store()@.referents, operation)->Some_0,
            refusal,
        )
    }
}

/// Why putting a write before the guardian failed; nothing was journaled.
pub open spec fn guard_failure(
    before: Nexus,
    after: Seq<GuardianDecision>,
    operation: GuardianOperation,
    e: StoreError,
) -> bool {
    let decisions = before.spec_store().guardian_decisions();
    let rows = operation_rows(before.spec_store()@.records, before.spec_store()@.referents, operation);
    &&& guarded(before)
    &&& after == decisions
    &&& ((rows is None && e is UnregisteredReferent) || (e is Database && decisions.len() >= u64::MAX))
}

/// The verdict of the last journaled decision on a write.
pub open spec fn last_write_verdict(decisions: Seq<GuardianDecision>) -> GuardianVerdict {
    match decisions.last() {
        GuardianDecision::Record { verdict, .. } => verdict,
        _ => GuardianVerdict::Accept,
    }
}

/// The refusal a write receives for a verdict, which is none when accepted, else the
/// verdict's reason and explanation with the records it was judged against.
pub open spec fn refusal_for(verdict: GuardianVerdict, rows: Seq<RecordView>, refusal: Option<GuardianRejection>) -> bool {
    match verdict {
        GuardianVerdict::Accept => refusal is None,
        GuardianVerdict::Reject(reject) => refusal matches Some(g) && g.guardian_rejection_reason
            == reject.guardian_rejection_reason && g.explanation == reject.explanation && is_bundle_of(
            observed_view(g.record_set.0@),
            rows,
        ),
    }
}

/// The journal gained exactly one decision on the registration, judged
/// against the registry `registry` at `marker`.
pub open spec fn journaled_registration(
    before: Seq<GuardianDecision>,
    after: Seq<GuardianDecision>,
    referent: Seq<char>,
    aliases: Seq<Seq<char>>,
    registry: Seq<crate::referent::StoredReferentView>,
    marker: DatabaseMarker,
) -> bool {
    &&& after.len() == before.len() + 1
    &&& after.drop_last() == before
    &&& match after.last() {
        GuardianDecision::Referent { registration, registered_referents, verdict: _, database_marker } => {
            &&& registration.referent@ == referent
            &&& registration.aliases@ == aliases
            &&& database_marker == marker
            &&& crate::referent::registry_view(registered_referents@) == registry
        },
        _ => false,
    }
}

/// The verdict of the last journaled decision on a registration.
pub open spec fn last_registration_verdict(decisions: Seq<GuardianDecision>) -> ReferentGuardianVerdict {
    match decisions.last() {
        GuardianDecision::Referent { verdict, .. } => verdict,
        _ => ReferentGuardianVerdict::Accept,
    }
}

/// The refusal a registration receives for a verdict.
pub open spec fn registration_refusal_for(
    verdict: ReferentGuardianVerdict,
    registry: Seq<crate::referent::StoredReferentView>,
    refusal: Option<ReferentGuardianRejection>,
) -> bool {
    match verdict {
        ReferentGuardianVerdict::Accept => refusal is None,
        ReferentGuardianVerdict::RejectReferent(reject) => refusal matches Some(g)
            && g.referent_guardian_rejection_reason == reject.referent_guardian_rejection_reason
            && g.explanation == reject.explanation && crate::referent::registry_view(
            g.registered_referents@,
        ) == registry,
    }
}

/// The refusal a write receives for a verdict over the records it was
/// judged against.
fn refusal_of(verdict: &GuardianVerdict, records: &RecordSet) -> (r: Option<GuardianRejection>)
    ensures
        match *verdict {
            GuardianVerdict::Accept => r is None,
            GuardianVerdict::Reject(reject) => r matches Some(g) && g.guardian_rejection_reason
                == reject.guardian_rejection_reason && g.explanation == reject.explanation
                && observed_view(g.record_set.0@) == observed_view(records.0@),
        },
{
    match verdict {
        GuardianVerdict::Accept => None,
        GuardianVerdict::Reject(reject) => Some(
            GuardianRejection {
                guardian_rejection_reason: reject.guardian_rejection_reason,
                record_set: records.clone(),
                explanation: reject.explanation.clone(),
            },
        ),
    }
}

/// What `guard_record` did: its result and how the Nexus moved.
pub open spec fn guard_record_outcome(before: Nexus, after: Nexus, request: RecordRequest, judge_reply: Option<Result<SpiritJudgeReply, AgentGuardianError>>, r: Result<Result<SemaReceipt, GuardianRejection>, StoreError>) -> bool {
    &&& (after.well_formed())
    &&& (after.spec_store().same_configuration(&before.spec_store()))
    &&& (after.spec_store()@.referents == before.spec_store()@.referents)
    &&& (tables_kept(before, after))
    &&& (refused_as_duplicate_or(
        before,
        after,
        GuardianOperation::Record(request),
        request.entry@,
        judge_reply,
        r,
    ))
    &&& (match r {
        Ok(Ok(receipt)) => guard_outcome(
            before,
            after.spec_store().guardian_decisions(),
            GuardianOperation::Record(request),
            judge_reply,
            None,
        ) && crate::store::record_outcome(
            before.spec_store()@,
            after.spec_store()@,
            request.entry@,
            Ok(receipt),
        ),
        Err(e) => (guard_failure(
            before,
            after.spec_store().guardian_decisions(),
            GuardianOperation::Record(request),
            e,
        ) && after.spec_store()@ == before.spec_store()@) || (guard_outcome(
            before,
            after.spec_store().guardian_decisions(),
            GuardianOperation::Record(request),
            judge_reply,
            None,
        ) && crate::store::record_outcome(
            before.spec_store()@,
            after.spec_store()@,
            request.entry@,
            Err(e),
        )) || duplicate_handling_failed(
            before,
            after,
            GuardianOperation::Record(request),
            judge_reply,
        ),
        _ => true,
    })
}

/// What `guard_propose` did: its result and how the Nexus moved.
pub open spec fn guard_propose_outcome(before: Nexus, after: Nexus, proposal: Proposal, judge_reply: Option<Result<SpiritJudgeReply, AgentGuardianError>>, r: Result<Result<SemaReceipt, GuardianRejection>, StoreError>) -> bool {
    &&& (after.well_formed())
    &&& (after.spec_store().same_configuration(&before.spec_store()))
    &&& (after.spec_store()@.referents == before.spec_store()@.referents)
    &&& (tables_kept(before, after))
    &&& (before.spec_guardian() is None ==> {
        &&& after.spec_store().guardian_decisions() == before.spec_store().guardian_decisions()
        &&& crate::store::deduplicated_outcome(
            before.spec_store()@,
            after.spec_store()@,
            proposal.entry@,
            r,
        )
    })
    &&& (before.spec_guardian() is Some ==> refused_as_duplicate_or(
        before,
        after,
        GuardianOperation::Propose(proposal),
        proposal.entry@,
        judge_reply,
        r,
    ) && match r {
        Ok(Ok(receipt)) => guard_outcome(
            before,
            after.spec_store().guardian_decisions(),
            GuardianOperation::Propose(proposal),
            judge_reply,
            None,
        ) && crate::store::record_outcome(
            before.spec_store()@,
            after.spec_store()@,
            proposal.entry@,
            Ok(receipt),
        ),
        Err(e) => (guard_failure(
            before,
            after.spec_store().guardian_decisions(),
            GuardianOperation::Propose(proposal),
            e,
        ) && after.spec_store()@ == before.spec_store()@) || (guard_outcome(
            before,
            after.spec_store().guardian_decisions(),
            GuardianOperation::Propose(proposal),
            judge_reply,
            None,
        ) && crate::store::record_outcome(
            before.spec_store()@,
            after.spec_store()@,
            proposal.entry@,
            Err(e),
        )) || duplicate_handling_failed(
            before,
            after,
            GuardianOperation::Propose(proposal),
            judge_reply,
        ),
        _ => true,
    })
}

/// What `guard_clarify` did: its result and how the Nexus moved.
pub open spec fn guard_clarify_outcome(before: Nexus, after: Nexus, clarification: Clarification, judge_reply: Option<Result<SpiritJudgeReply, AgentGuardianError>>, r: Result<Result<Option<ClarificationReceipt>, GuardianRejection>, StoreError>) -> bool {
    &&& (after.well_formed())
    &&& (after.spec_store().same_configuration(&before.spec_store()))
    &&& (after.spec_store()@.referents == before.spec_store()@.referents)
    &&& (tables_kept(before, after))
    &&& (match r {
        Ok(Ok(x)) => guard_outcome(
            before,
            after.spec_store().guardian_decisions(),
            GuardianOperation::Clarify(clarification),
            judge_reply,
            None,
        ) && crate::store::clarify_outcome(before.spec_store()@, after.spec_store()@, clarification, Ok(x)),
        Ok(Err(refusal)) => guarded(before) && guard_outcome(
            before,
            after.spec_store().guardian_decisions(),
            GuardianOperation::Clarify(clarification),
            judge_reply,
            Some(refusal),
        ) && after.spec_store()@ == before.spec_store()@,
        Err(e) => (guard_failure(
            before,
            after.spec_store().guardian_decisions(),
            GuardianOperation::Clarify(clarification),
            e,
        ) && after.spec_store()@ == before.spec_store()@) || (guard_outcome(
            before,
            after.spec_store().guardian_decisions(),
            GuardianOperation::Clarify(clarification),
            judge_reply,
            None,
        ) && crate::store::clarify_outcome(before.spec_store()@, after.spec_store()@, clarification, Err(e))),
    })
}

/// What `guard_resolve_clarification` did: its result and how the Nexus moved.
pub open spec fn guard_resolve_clarification_outcome(before: Nexus, after: Nexus, resolution: ClarificationResolution, judge_reply: Option<Result<SpiritJudgeReply, AgentGuardianError>>, r: Result<Result<Option<ClarificationResolutionReceipt>, GuardianRejection>, StoreError>) -> bool {
    &&& (after.well_formed())
    &&& (after.spec_store().same_configuration(&before.spec_store()))
    &&& (after.spec_store()@.referents == before.spec_store()@.referents)
    &&& (tables_kept(before, after))
    &&& (match r {
        Ok(Ok(x)) => guard_outcome(
            before,
            after.spec_store().guardian_decisions(),
            GuardianOperation::ResolveClarification(resolution),
            judge_reply,
            None,
        ) && crate::store::resolution_outcome(before.spec_store()@, after.spec_store()@, resolution, Ok(x)),
        Ok(Err(refusal)) => guarded(before) && guard_outcome(
            before,
            after.spec_store().guardian_decisions(),
            GuardianOperation::ResolveClarification(resolution),
            judge_reply,
            Some(refusal),
        ) && after.spec_store()@ == before.spec_store()@,
        Err(e) => (guard_failure(
            before,
            after.spec_store().guardian_decisions(),
            GuardianOperation::ResolveClarification(resolution),
            e,
        ) && after.spec_store()@ == before.spec_store()@) || (guard_outcome(
            before,
            after.spec_store().guardian_decisions(),
            GuardianOperation::ResolveClarification(resolution),
            judge_reply,
            None,
        ) && crate::store::resolution_outcome(before.spec_store()@, after.spec_store()@, resolution, Err(e))),
    })
}

/// What `guard_supersede` did: its result and how the Nexus moved.
pub open spec fn guard_supersede_outcome(before: Nexus, after: Nexus, supersession: Supersession, judge_reply: Option<Result<SpiritJudgeReply, AgentGuardianError>>, r: Result<Result<Option<SupersessionReceipt>, GuardianRejection>, StoreError>) -> bool {
    &&& (after.well_formed())
    &&& (after.spec_store().same_configuration(&before.spec_store()))
    &&& (after.spec_store()@.referents == before.spec_store()@.referents)
    &&& (tables_kept(before, after))
    &&& (match r {
        Ok(Ok(x)) => guard_outcome(
            before,
            after.spec_store().guardian_decisions(),
            GuardianOperation::Supersede(supersession),
            judge_reply,
            None,
        ) && crate::store::supersede_outcome(before.spec_store()@, after.spec_store()@, supersession, Ok(x)),
        Ok(Err(refusal)) => guarded(before) && guard_outcome(
            before,
            after.spec_store().guardian_decisions(),
            GuardianOperation::Supersede(supersession),
            judge_reply,
            Some(refusal),
        ) && after.spec_store()@ == before.spec_store()@,
        Err(e) => (guard_failure(
            before,
            after.spec_store().guardian_decisions(),
            GuardianOperation::Supersede(supersession),
            e,
        ) && after.spec_store()@ == before.spec_store()@) || (guard_outcome(
            before,
            after.spec_store().guardian_decisions(),
            GuardianOperation::Supersede(supersession),
            judge_reply,
            None,
        ) && crate::store::supersede_outcome(before.spec_store()@, after.spec_store()@, supersession, Err(e))),
    })
}

/// What `guard_retire` did: its result and how the Nexus moved.
pub open spec fn guard_retire_outcome(before: Nexus, after: Nexus, retirement: Retirement, judge_reply: Option<Result<SpiritJudgeReply, AgentGuardianError>>, r: Result<Result<Option<RetirementReceipt>, GuardianRejection>, StoreError>) -> bool {
    &&& (after.well_formed())
    &&& (after.spec_store().same_configuration(&before.spec_store()))
    &&& (after.spec_store()@.referents == before.spec_store()@.referents)
    &&& (tables_kept(before, after))
    &&& (match r {
        Ok(Ok(x)) => guard_outcome(
            before,
            after.spec_store().guardian_decisions(),
            GuardianOperation::Retire(retirement),
            judge_reply,
            None,
        ) && crate::store::retire_outcome(before.spec_store()@, after.spec_store()@, retirement, Ok(x)),
        Ok(Err(refusal)) => guarded(before) && guard_outcome(
            before,
            after.spec_store().guardian_decisions(),
            GuardianOperation::Retire(retirement),
            judge_reply,
            Some(refusal),
        ) && after.spec_store()@ == before.spec_store()@,
        Err(e) => (guard_failure(
            before,
            after.spec_store().guardian_decisions(),
            GuardianOperation::Retire(retirement),
            e,
        ) && after.spec_store()@ == before.spec_store()@) || (guard_outcome(
            before,
            after.spec_store().guardian_decisions(),
            GuardianOperation::Retire(retirement),
            judge_reply,
            None,
        ) && crate::store::retire_outcome(before.spec_store()@, after.spec_store()@, retirement, Err(e))),
    })
}

/// What `guard_change_record` did: its result and how the Nexus moved.
pub open spec fn guard_change_record_outcome(before: Nexus, after: Nexus, change: RecordChange, judge_reply: Option<Result<SpiritJudgeReply, AgentGuardianError>>, r: Result<Result<Option<RecordChangeReceipt>, GuardianRejection>, StoreError>) -> bool {
    &&& (after.well_formed())
    &&& (after.spec_store().same_configuration(&before.spec_store()))
    &&& (after.spec_store()@.referents == before.spec_store()@.referents)
    &&& (tables_kept(before, after))
    &&& (match r {
        Ok(Ok(x)) => guard_outcome(
            before,
            after.spec_store().guardian_decisions(),
            GuardianOperation::ChangeRecord(change),
            judge_reply,
            None,
        ) && crate::store::change_outcome(before.spec_store()@, after.spec_store()@, change, Ok(x)),
        Ok(Err(refusal)) => guarded(before) && guard_outcome(
            before,
            after.spec_store().guardian_decisions(),
            GuardianOperation::ChangeRecord(change),
            judge_reply,
            Some(refusal),
        ) && after.spec_store()@ == before.spec_store()@,
        Err(e) => (guard_failure(
            before,
            after.spec_store().guardian_decisions(),
            GuardianOperation::ChangeRecord(change),
            e,
        ) && after.spec_store()@ == before.spec_store()@) || (guard_outcome(
            before,
            after.spec_store().guardian_decisions(),
            GuardianOperation::ChangeRecord(change),
            judge_reply,
            None,
        ) && crate::store::change_outcome(before.spec_store()@, after.spec_store()@, change, Err(e))),
    })
}

/// What `guard_referent_registration` did: its result and how the Nexus moved.
pub open spec fn guard_referent_registration_outcome(start: Nexus, finish: Nexus, registration: ReferentRegistration, judge_reply: Option<Result<SpiritJudgeReply, AgentGuardianError>>, r: Result<Result<ReferentRegistrationReceipt, ReferentGuardianRejection>, StoreError>) -> bool {
    &&& (finish.well_formed())
    &&& (finish.spec_store()@.records == start.spec_store()@.records)
    &&& (finish.spec_store().same_configuration(&start.spec_store()))
    &&& (tables_kept(start, finish))
    &&& (({
        let before = start.spec_store().guardian_decisions();
        let after = finish.spec_store().guardian_decisions();
        let registry = start.spec_store()@.referents;
        let settled = crate::store::settled_position(registry, registration.referent@, registration.aliases@);
        let registered_after = crate::store::registry_after(
            registry,
            registration.referent@,
            registration.aliases@,
        );
        if settled is Some {
            &&& r matches Ok(Ok(receipt)) && receipt.0@ == registry[settled->Some_0].referent
            &&& finish.spec_store()@ == start.spec_store()@
            &&& after == before
        } else if !guarded(start) {
            &&& after == before
            &&& match r {
                Ok(Ok(receipt)) => receipt.0@ == registration.referent@
                    && finish.spec_store()@.referents == registered_after
                    && finish.spec_store()@.commit_sequence == start.spec_store()@.commit_sequence + 1,
                Ok(Err(_)) => false,
                Err(e) => finish.spec_store()@ == start.spec_store()@
                    && crate::store::registration_failure(
                    start.spec_store()@,
                    registration.referent@,
                    registration.aliases@,
                    e,
                ),
            }
        } else {
            match r {
                Ok(outcome) => {
                    &&& journaled_registration(
                        before,
                        after,
                        registration.referent@,
                        registration.aliases@,
                        registry,
                        marker_of(start.spec_store()),
                    )
                    &&& if start.spec_guardian() is None {
                        referent_verdict_view(last_registration_verdict(after)) == Some((
                            ReferentGuardianRejectionReason::HarnessUnavailable,
                            harness_unavailable_text(),
                        ))
                    } else {
                        referent_verdict_for(judge_reply->Some_0, last_registration_verdict(after))
                    }
                    &&& match outcome {
                        Ok(receipt) => last_registration_verdict(after) is Accept
                            && receipt.0@ == registration.referent@
                            && finish.spec_store()@.referents == registered_after,
                        Err(refusal) => registration_refusal_for(
                            last_registration_verdict(after),
                            registry,
                            Some(refusal),
                        ) && finish.spec_store()@ == start.spec_store()@,
                    }
                },
                Err(e) => finish.spec_store()@ == start.spec_store()@ && ((e is Database
                    && after == before && before.len() >= u64::MAX) || (journaled_registration(
                    before,
                    after,
                    registration.referent@,
                    registration.aliases@,
                    registry,
                    marker_of(start.spec_store()),
                ) && last_registration_verdict(after) is Accept && crate::store::registration_failure(
                    start.spec_store()@,
                    registration.referent@,
                    registration.aliases@,
                    e,
                ))),
            }
        }
    }))
}

impl Nexus {
    /// Install a guardian agent; from now on writes must pass it.
    pub fn set_guardian(&mut self, guardian: AgentGuardian)
        requires
            old(self).well_formed(),
        ensures
            final(self).well_formed(),
            final(self).spec_guardian() == Some(guardian),
            final(self).spec_guardian_required(),
            final(self).spec_store() == old(self).spec_store(),
            final(self).spec_mail_ledger() == old(self).spec_mail_ledger(),
            final(self).spec_stash_table() == old(self).spec_stash_table(),
            final(self).spec_observer_tap_table() == old(self).spec_observer_tap_table(),
            final(self).spec_last_subscription_token() == old(self).spec_last_subscription_token(),
    {
        self.guardian = Some(guardian);
        self.guardian_required = true;
    }

    /// Require a guardian for writes, whether or not one is installed.
    pub fn require_guardian(&mut self)
        requires
            old(self).well_formed(),
        ensures
            final(self).well_formed(),
            final(self).spec_guardian() == old(self).spec_guardian(),
            final(self).spec_guardian_required(),
            final(self).spec_store() == old(self).spec_store(),
            final(self).spec_mail_ledger() == old(self).spec_mail_ledger(),
            final(self).spec_stash_table() == old(self).spec_stash_table(),
            final(self).spec_observer_tap_table() == old(self).spec_observer_tap_table(),
            final(self).spec_last_subscription_token() == old(self).spec_last_subscription_token(),
    {
        self.guardian_required = true;
    }

    /// The installed guardian agent, if any.
    pub fn guardian(&self) -> (r: Option<&AgentGuardian>)
        ensures
            match r {
                Some(g) => self.spec_guardian() == Some(*g),
                None => self.spec_guardian() is None,
            },
    {
        match &self.guardian {
            Some(guardian) => Some(guardian),
            None => None,
        }
    }

    /// Whether a guardian agent is installed.
    pub fn has_guardian(&self) -> (r: bool)
        ensures
            r == self.spec_guardian() is Some,
    {
        self.guardian.is_some()
    }

    /// Whether writes must pass a guardian.
    pub fn guardian_required(&self) -> (r: bool)
        ensures
            r == self.spec_guardian_required(),
    {
        self.guardian_required
    }

    /// Put a write before the guardian. With no guardian installed and none
    /// required, the write passes. Otherwise the records it relates to are
    /// gathered and a decision is journaled: with no agent installed, a
    /// refusal for an unavailable guardian; with one, the verdict its judge
    /// answered (`judge_reply`, which the caller obtains from the installed
    /// agent). The refusal, if any, is returned.
    pub fn guard_model(
        &mut self,
        operation: GuardianOperation,
        judge_reply: Option<Result<SpiritJudgeReply, AgentGuardianError>>,
    ) -> (r: Result<Option<GuardianRejection>, StoreError>)
        requires
            old(self).well_formed(),
            old(self).spec_guardian() is Some ==> judge_reply is Some,
        ensures
            final(self).well_formed(),
            final(self).spec_store()@ == old(self).spec_store()@,
            final(self).spec_store().same_configuration(&old(self).spec_store()),
            final(self).spec_store().pending_writes() == old(self).spec_store().pending_writes(),
            tables_kept(*old(self), *final(self)),
            match r {
                Ok(refusal) => guard_outcome(
                    *old(self),
                    final(self).spec_store().guardian_decisions(),
                    operation,
                    judge_reply,
                    refusal,
                ),
                Err(e) => guard_failure(*old(self), final(self).spec_store().guardian_decisions(), operation, e),
            },
    {
        proof {
            self.store.lemma_same_settings_reflexive();
            Store::lemma_same_settings_configuration(&self.store, &self.store);
        }
        if self.guardian.is_none() && !self.guardian_required {
            return Ok(None);
        }
        let records = self.store.guardian_records_for_operation(&operation)?;
        let database_marker = self.store.database_marker();
        let ghost rows = operation_rows(self.store@.records, self.store@.referents, operation);
        let (verdict, judged) = match &self.guardian {
            None => {
                proof {
                    reveal_strlit("guardian is required but no guardian agent is configured");
                }
                let verdict = GuardianVerdict::from_harness_rejection(
                    GuardianRejectionReason::HarnessUnavailable,
                    Explanation::new("guardian is required but no guardian agent is configured"),
                );
                (verdict, records)
            },
            Some(guardian) => {
                let reply = match judge_reply {
                    Some(reply) => reply,
                    None => {
                        proof {
                            assert(false);
                        }
                        return Ok(None);
                    },
                };
                let decision = guardian.decide(reply, records, database_marker);
                (decision.verdict, decision.records)
            },
        };
        let refusal = refusal_of(&verdict, &judged);
        let ghost before = self.store.guardian_decisions();
        let ghost op = operation;
        let ghost judged_view = observed_view(judged.0@);
        let ghost decided = verdict;
        self.store.record_guardian_decision(GuardianDecision::record(operation, judged, verdict, database_marker))?;
        proof {
            let after = self.store.guardian_decisions();
            assert(after.drop_last() =~= before);
            assert(last_write_verdict(after) == decided);
        }
        Ok(refusal)
    }

    /// Put a referent registration before the guardian. A registration
    /// some registration already settles is answered with its receipt.
    /// With no guardian installed and none required, the referent is
    /// registered. Otherwise a decision is journaled against the registry:
    /// with no agent installed, a refusal for an unavailable guardian; with
    /// one, the verdict its judge answered (`judge_reply`); an accepted
    /// registration is then registered.
    pub fn guard_referent_registration(
        &mut self,
        registration: ReferentRegistration,
        judge_reply: Option<Result<SpiritJudgeReply, AgentGuardianError>>,
    ) -> (r: Result<Result<ReferentRegistrationReceipt, ReferentGuardianRejection>, StoreError>)
        requires
            old(self).well_formed(),
            old(self).spec_guardian() is Some && crate::store::settled_position(
                old(self).spec_store()@.referents,
                registration.referent@,
                registration.aliases@,
            ) is None ==> judge_reply is Some,
        ensures
            guard_referent_registration_outcome(*old(self), *final(self), registration, judge_reply, r),
    {
        proof {
            self.store.lemma_same_settings_reflexive();
            Store::lemma_same_settings_configuration(&self.store, &self.store);
        }
        if let Some(receipt) = self.store.settled_referent_registration_receipt(&registration) {
            return Ok(Ok(receipt));
        }
        if self.guardian.is_none() && !self.guardian_required {
            let ghost start = self.store;
            let outcome = self.store.register_referent(registration);
            proof {
                Store::lemma_same_settings_configuration(&self.store, &start);
            }
            return match outcome {
                Ok(receipt) => Ok(Ok(receipt)),
                Err(e) => Err(e),
            };
        }
        let database_marker = self.store.database_marker();
        let journaled = registration.clone();
        let (verdict, judged) = match &self.guardian {
            None => {
                proof {
                    reveal_strlit("guardian is required but no guardian agent is configured");
                }
                let verdict = ReferentGuardianVerdict::from_harness_rejection(
                    ReferentGuardianRejectionReason::HarnessUnavailable,
                    Explanation::new("guardian is required but no guardian agent is configured"),
                );
                (verdict, self.store.registered_referents())
            },
            Some(guardian) => {
                let reply = match judge_reply {
                    Some(reply) => reply,
                    None => {
                        proof {
                            assert(false);
                        }
                        return Ok(Ok(ReferentRegistrationReceipt(registration.referent)));
                    },
                };
                let decision = guardian.decide_referent(reply, self.store.registered_referents(), database_marker);
                (decision.verdict, decision.registered_referents)
            },
        };
        let refusal = match &verdict {
            ReferentGuardianVerdict::Accept => None,
            ReferentGuardianVerdict::RejectReferent(reject) => Some(
                ReferentGuardianRejection {
                    referent_guardian_rejection_reason: reject.referent_guardian_rejection_reason,
                    registered_referents: self.store.registered_referents(),
                    explanation: reject.explanation.clone(),
                },
            ),
        };
        let ghost before = self.store.guardian_decisions();
        let ghost decided = verdict;
        self.store.record_guardian_decision(
            GuardianDecision::referent(journaled, judged, verdict, database_marker),
        )?;
        proof {
            let after = self.store.guardian_decisions();
            assert(after.drop_last() =~= before);
            assert(last_registration_verdict(after) == decided);
        }
        match refusal {
            Some(refusal) => Ok(Err(refusal)),
            None => {
                let ghost mid = self.store;
                let outcome = self.store.register_referent(registration);
                proof {
                    Store::lemma_same_settings_configuration(&self.store, &mid);
                    Store::lemma_same_configuration_transitive(&self.store, &mid, &old(self).store);
                }
                match outcome {
                    Ok(receipt) => Ok(Ok(receipt)),
                    Err(e) => Err(e),
                }
            },
        }
    }

    /// A guardian's duplicate refusal of a new entry, made concrete against
    /// the store (the duplicate's importance is raised); any other refusal
    /// stands as it is.
    pub fn duplicate_rejection_if_needed(&mut self, entry: &Entry, rejection: GuardianRejection) -> (r: Result<
        GuardianRejection,
        StoreError,
    >)
        requires
            old(self).well_formed(),
        ensures
            final(self).well_formed(),
            final(self).spec_store().same_settings(&old(self).spec_store()),
            final(self).spec_store()@.referents == old(self).spec_store()@.referents,
            tables_kept(*old(self), *final(self)),
            rejection.guardian_rejection_reason != GuardianRejectionReason::Duplicate ==> (r == Ok::<
                GuardianRejection,
                StoreError,
            >(rejection) && final(self).spec_store()@ == old(self).spec_store()@),
            rejection.guardian_rejection_reason == GuardianRejectionReason::Duplicate ==> match r {
                Ok(refusal) => {
                    let canonical = canonical_entry(old(self).spec_store()@.referents, entry@);
                    &&& canonical is Some
                    &&& match crate::store::first_duplicate(old(self).spec_store()@.records, canonical->Some_0) {
                        None => refusal == rejection && final(self).spec_store()@ == old(self).spec_store()@,
                        Some(k) => {
                            let bumped = crate::store::with_bumped_importance(
                                old(self).spec_store()@.records[k].entry,
                            );
                            &&& final(self).spec_store()@.records == crate::store::with_entry(
                                old(self).spec_store()@.records,
                                k,
                                bumped,
                            )
                            &&& refusal.guardian_rejection_reason == GuardianRejectionReason::Duplicate
                            &&& refusal.record_set.0@.len() == 1
                            &&& refusal.record_set.0@[0]@ == RecordView {
                                identifier: old(self).spec_store()@.records[k].identifier,
                                entry: bumped,
                            }
                            &&& refusal.explanation.0@ == "guardian judged the write as a duplicate"@
                        },
                    }
                },
                Err(e) => final(self).spec_store()@ == old(self).spec_store()@ && (e is UnregisteredReferent
                    || e is Database),
            },
    {
        if rejection.guardian_rejection_reason == GuardianRejectionReason::Duplicate {
            self.store.apply_duplicate_guardian_rejection(entry, rejection)
        } else {
            proof {
                self.store.lemma_same_settings_reflexive();
            }
            Ok(rejection)
        }
    }
}


impl Nexus {
    /// Record an entry once it passes the guardian. A guardian's duplicate
    /// refusal is made concrete against the store.
    pub fn guard_record(
        &mut self,
        request: RecordRequest,
        judge_reply: Option<Result<SpiritJudgeReply, AgentGuardianError>>,
    ) -> (r: Result<Result<SemaReceipt, GuardianRejection>, StoreError>)
        requires
            old(self).well_formed(),
            old(self).spec_guardian() is Some ==> judge_reply is Some,
        ensures
            guard_record_outcome(*old(self), *final(self), request, judge_reply, r),
    {
        let entry = request.entry.clone();
        let operation = GuardianOperation::record(request);
        let ghost start = self.store;
        match self.guard_model(operation, judge_reply)? {
            Some(refusal) => {
                let ghost guarded_store = self.store;
                let stood = self.duplicate_rejection_if_needed(&entry, refusal);
                proof {
                    Store::lemma_same_settings_configuration(&self.store, &guarded_store);
                    Store::lemma_same_configuration_transitive(&self.store, &guarded_store, &start);
                }
                return match stood {
                    Ok(stood) => Ok(Err(stood)),
                    Err(e) => Err(e),
                };
            },
            None => {},
        }
        let ghost mid = self.store;
        let outcome = self.store.record_entry(entry);
        proof {
            Store::lemma_same_settings_configuration(&self.store, &mid);
            Store::lemma_same_configuration_transitive(&self.store, &mid, &start);
        }
        match outcome {
            Ok(receipt) => Ok(Ok(receipt)),
            Err(e) => Err(e),
        }
    }

    /// Propose an entry. With no guardian agent installed a proposal
    /// refuses duplicates on its own; otherwise it must pass the guardian,
    /// whose duplicate refusal is made concrete against the store.
    pub fn guard_propose(
        &mut self,
        proposal: Proposal,
        judge_reply: Option<Result<SpiritJudgeReply, AgentGuardianError>>,
    ) -> (r: Result<Result<SemaReceipt, GuardianRejection>, StoreError>)
        requires
            old(self).well_formed(),
            old(self).spec_guardian() is Some ==> judge_reply is Some,
        ensures
            guard_propose_outcome(*old(self), *final(self), proposal, judge_reply, r),
    {
        let ghost start = self.store;
        if self.guardian.is_none() {
            let outcome = self.store.guard_propose(proposal.entry);
            proof {
                Store::lemma_same_settings_configuration(&self.store, &start);
            }
            return outcome;
        }
        let entry = proposal.entry.clone();
        let operation = GuardianOperation::propose(proposal);
        match self.guard_model(operation, judge_reply)? {
            Some(refusal) => {
                let ghost guarded_store = self.store;
                let stood = self.duplicate_rejection_if_needed(&entry, refusal);
                proof {
                    Store::lemma_same_settings_configuration(&self.store, &guarded_store);
                    Store::lemma_same_configuration_transitive(&self.store, &guarded_store, &start);
                }
                return match stood {
                    Ok(stood) => Ok(Err(stood)),
                    Err(e) => Err(e),
                };
            },
            None => {},
        }
        let ghost mid = self.store;
        let outcome = self.store.propose(entry);
        proof {
            Store::lemma_same_settings_configuration(&self.store, &mid);
            Store::lemma_same_configuration_transitive(&self.store, &mid, &start);
        }
        match outcome {
            Ok(receipt) => Ok(Ok(receipt)),
            Err(e) => Err(e),
        }
    }

    /// Clarify a record once the clarification passes the guardian.
    pub fn guard_clarify(
        &mut self,
        clarification: Clarification,
        judge_reply: Option<Result<SpiritJudgeReply, AgentGuardianError>>,
    ) -> (r: Result<Result<Option<ClarificationReceipt>, GuardianRejection>, StoreError>)
        requires
            old(self).well_formed(),
            old(self).spec_guardian() is Some ==> judge_reply is Some,
        ensures
            guard_clarify_outcome(*old(self), *final(self), clarification, judge_reply, r),
    {
        let copy = clarification.clone();
        let operation = GuardianOperation::clarify(clarification);
        let ghost start = self.store;
        match self.guard_model(operation, judge_reply)? {
            Some(refusal) => {
                return Ok(Err(refusal));
            },
            None => {},
        }
        let ghost mid = self.store;
        let outcome = self.store.clarify(copy);
        proof {
            Store::lemma_same_settings_configuration(&self.store, &mid);
            Store::lemma_same_configuration_transitive(&self.store, &mid, &start);
        }
        match outcome {
            Ok(x) => Ok(Ok(x)),
            Err(e) => Err(e),
        }
    }

    /// Resolve a clarification once the resolution passes the guardian.
    pub fn guard_resolve_clarification(
        &mut self,
        resolution: ClarificationResolution,
        judge_reply: Option<Result<SpiritJudgeReply, AgentGuardianError>>,
    ) -> (r: Result<Result<Option<ClarificationResolutionReceipt>, GuardianRejection>, StoreError>)
        requires
            old(self).well_formed(),
            old(self).spec_guardian() is Some ==> judge_reply is Some,
        ensures
            guard_resolve_clarification_outcome(*old(self), *final(self), resolution, judge_reply, r),
    {
        let copy = resolution.clone();
        let operation = GuardianOperation::resolve_clarification(resolution);
        let ghost start = self.store;
        match self.guard_model(operation, judge_reply)? {
            Some(refusal) => {
                return Ok(Err(refusal));
            },
            None => {},
        }
        let ghost mid = self.store;
        let outcome = self.store.resolve_clarification(copy);
        proof {
            Store::lemma_same_settings_configuration(&self.store, &mid);
            Store::lemma_same_configuration_transitive(&self.store, &mid, &start);
        }
        match outcome {
            Ok(x) => Ok(Ok(x)),
            Err(e) => Err(e),
        }
    }

    /// Supersede records once the supersession passes the guardian.
    pub fn guard_supersede(
        &mut self,
        supersession: Supersession,
        judge_reply: Option<Result<SpiritJudgeReply, AgentGuardianError>>,
    ) -> (r: Result<Result<Option<SupersessionReceipt>, GuardianRejection>, StoreError>)
        requires
            old(self).well_formed(),
            old(self).spec_guardian() is Some ==> judge_reply is Some,
        ensures
            guard_supersede_outcome(*old(self), *final(self), supersession, judge_reply, r),
    {
        let copy = supersession.clone();
        let operation = GuardianOperation::supersede(supersession);
        let ghost start = self.store;
        match self.guard_model(operation, judge_reply)? {
            Some(refusal) => {
                return Ok(Err(refusal));
            },
            None => {},
        }
        let ghost mid = self.store;
        let outcome = self.store.supersede(copy);
        proof {
            Store::lemma_same_settings_configuration(&self.store, &mid);
            Store::lemma_same_configuration_transitive(&self.store, &mid, &start);
        }
        match outcome {
            Ok(x) => Ok(Ok(x)),
            Err(e) => Err(e),
        }
    }

    /// Retire a record once the retirement passes the guardian.
    pub fn guard_retire(
        &mut self,
        retirement: Retirement,
        judge_reply: Option<Result<SpiritJudgeReply, AgentGuardianError>>,
    ) -> (r: Result<Result<Option<RetirementReceipt>, GuardianRejection>, StoreError>)
        requires
            old(self).well_formed(),
            old(self).spec_guardian() is Some ==> judge_reply is Some,
        ensures
            guard_retire_outcome(*old(self), *final(self), retirement, judge_reply, r),
    {
        let copy = retirement.clone();
        let operation = GuardianOperation::retire(retirement);
        let ghost start = self.store;
        match self.guard_model(operation, judge_reply)? {
            Some(refusal) => {
                return Ok(Err(refusal));
            },
            None => {},
        }
        let ghost mid = self.store;
        let outcome = self.store.retire(copy);
        proof {
            Store::lemma_same_settings_configuration(&self.store, &mid);
            Store::lemma_same_configuration_transitive(&self.store, &mid, &start);
        }
        match outcome {
            Ok(x) => Ok(Ok(x)),
            Err(e) => Err(e),
        }
    }

    /// Change a record in place once the change passes the guardian.
    pub fn guard_change_record(
        &mut self,
        change: RecordChange,
        judge_reply: Option<Result<SpiritJudgeReply, AgentGuardianError>>,
    ) -> (r: Result<Result<Option<RecordChangeReceipt>, GuardianRejection>, StoreError>)
        requires
            old(self).well_formed(),
            old(self).spec_guardian() is Some ==> judge_reply is Some,
        ensures
            guard_change_record_outcome(*old(self), *final(self), change, judge_reply, r),
    {
        let copy = change.clone();
        let operation = GuardianOperation::change_record(change);
        let ghost start = self.store;
        match self.guard_model(operation, judge_reply)? {
            Some(refusal) => {
                return Ok(Err(refusal));
            },
            None => {},
        }
        let ghost mid = self.store;
        let outcome = self.store.change_record(copy);
        proof {
            Store::lemma_same_settings_configuration(&self.store, &mid);
            Store::lemma_same_configuration_transitive(&self.store, &mid, &start);
        }
        match outcome {
            Ok(x) => Ok(Ok(x)),
            Err(e) => Err(e),
        }
    }
}

/// A refused write of `entry`: the guardian journaled a refusal. A
/// duplicate refusal is made concrete against the store: when a live
/// record already carries the entry, that record's importance is raised
/// one rung and it alone is returned as the duplicate; when none does, the
/// verdict's refusal stands with the store untouched. Any other refusal is
/// returned as the verdict gave it with the store untouched.
pub open spec fn refused_as_duplicate_or(
    before: Nexus,
    after: Nexus,
    operation: GuardianOperation,
    entry: EntryView,
    judge_reply: Option<Result<SpiritJudgeReply, AgentGuardianError>>,
    r: Result<Result<SemaReceipt, GuardianRejection>, StoreError>,
) -> bool {
    let decisions = after.spec_store().guardian_decisions();
    let records = before.spec_store()@.records;
    match r {
        Ok(Err(refusal)) => {
            &&& guarded(before)
            &&& guard_journaled(before, decisions, operation, judge_reply)
            &&& last_write_verdict(decisions) is Reject
            &&& if last_write_verdict(decisions)->Reject_0.guardian_rejection_reason
                == GuardianRejectionReason::Duplicate {
                &&& refusal.guardian_rejection_reason == GuardianRejectionReason::Duplicate
                &&& canonical_entry(before.spec_store()@.referents, entry) is Some
                &&& match crate::store::first_duplicate(
                    records,
                    canonical_entry(before.spec_store()@.referents, entry)->Some_0,
                ) {
                    None => guard_outcome(before, decisions, operation, judge_reply, Some(refusal))
                        && after.spec_store()@ == before.spec_store()@,
                    Some(k) => {
                        let bumped = crate::store::with_bumped_importance(records[k].entry);
                        &&& after.spec_store()@.records == crate::store::with_entry(records, k, bumped)
                        &&& refusal.record_set.0@.len() == 1
                        &&& refusal.record_set.0@[0]@ == RecordView { identifier: records[k].identifier, entry: bumped }
                        &&& refusal.explanation.0@ == "guardian judged the write as a duplicate"@
                    },
                }
            } else {
                guard_outcome(before, decisions, operation, judge_reply, Some(refusal))
                    && after.spec_store()@ == before.spec_store()@
            }
        },
        _ => true,
    }
}

/// The guardian refused a write as a duplicate, and making that refusal
/// concrete failed; the store is untouched.
pub open spec fn duplicate_handling_failed(
    before: Nexus,
    after: Nexus,
    operation: GuardianOperation,
    judge_reply: Option<Result<SpiritJudgeReply, AgentGuardianError>>,
) -> bool {
    let decisions = after.spec_store().guardian_decisions();
    &&& guarded(before)
    &&& guard_journaled(before, decisions, operation, judge_reply)
    &&& last_write_verdict(decisions) is Reject
    &&& last_write_verdict(decisions)->Reject_0.guardian_rejection_reason == GuardianRejectionReason::Duplicate
    &&& after.spec_store()@ == before.spec_store()@
}


/// The effect result a guarded write's outcome is answered with: its
/// receipt, the guardian's refusal, or a failure carrying `missing` when
/// the target is absent and the store error's text otherwise.
pub open spec fn answered<T>(x: Result<Result<Option<T>, GuardianRejection>, StoreError>, r: EffectResult, missing: Seq<char>, ok: spec_fn(T) -> EffectResult) -> bool {
    match x {
        Ok(Ok(Some(receipt))) => r == ok(receipt),
        Ok(Ok(None)) => r is OperationFailed && r->OperationFailed_0@ == missing,
        Ok(Err(refusal)) => r == EffectResult::GuardianRejected(refusal),
        Err(e) => r is OperationFailed && r->OperationFailed_0@ == error_text(e),
    }
}

/// What a guarded write, judged by the guardian's `judge_reply`, did: the
/// outcome of the matching `guard_*` operation, answered as an effect
/// result.
pub open spec fn judged_effect_outcome(command: EffectCommand, judge_reply: Option<Result<SpiritJudgeReply, AgentGuardianError>>, before: Nexus, after: Nexus, r: EffectResult) -> bool {
    match command {
        EffectCommand::GuardRecord(request) => exists|x: Result<Result<SemaReceipt, GuardianRejection>, StoreError>|
            #[trigger] guard_record_outcome(before, after, request, judge_reply, x) && match x {
                Ok(Ok(receipt)) => r == EffectResult::Recorded(receipt),
                Ok(Err(refusal)) => r == EffectResult::GuardianRejected(refusal),
                Err(e) => r is OperationFailed && r->OperationFailed_0@ == error_text(e),
            },
        EffectCommand::Propose(proposal) => exists|x: Result<Result<SemaReceipt, GuardianRejection>, StoreError>|
            #[trigger] guard_propose_outcome(before, after, proposal, judge_reply, x) && match x {
                Ok(Ok(receipt)) => r == EffectResult::Proposed(receipt),
                Ok(Err(refusal)) => r == EffectResult::GuardianRejected(refusal),
                Err(e) => r is OperationFailed && r->OperationFailed_0@ == error_text(e),
            },
        EffectCommand::Clarify(clarification) => exists|x: Result<Result<Option<ClarificationReceipt>, GuardianRejection>, StoreError>|
            #[trigger] guard_clarify_outcome(before, after, clarification, judge_reply, x) && answered(
                x, r, "record not found"@, |receipt: ClarificationReceipt| EffectResult::Clarified(receipt)),
        EffectCommand::ResolveClarification(resolution) => exists|x: Result<Result<Option<ClarificationResolutionReceipt>, GuardianRejection>, StoreError>|
            #[trigger] guard_resolve_clarification_outcome(before, after, resolution, judge_reply, x) && answered(
                x, r, "clarification resolution target not found"@,
                |receipt: ClarificationResolutionReceipt| EffectResult::ClarificationResolved(receipt)),
        EffectCommand::Supersede(supersession) => exists|x: Result<Result<Option<SupersessionReceipt>, GuardianRejection>, StoreError>|
            #[trigger] guard_supersede_outcome(before, after, supersession, judge_reply, x) && answered(
                x, r, "supersede target not found"@, |receipt: SupersessionReceipt| EffectResult::Superseded(receipt)),
        EffectCommand::Retire(retirement) => exists|x: Result<Result<Option<RetirementReceipt>, GuardianRejection>, StoreError>|
            #[trigger] guard_retire_outcome(before, after, retirement, judge_reply, x) && answered(
                x, r, "record not found"@, |receipt: RetirementReceipt| EffectResult::Retired(receipt)),
        EffectCommand::GuardChangeRecord(change) => exists|x: Result<Result<Option<RecordChangeReceipt>, GuardianRejection>, StoreError>|
            #[trigger] guard_change_record_outcome(before, after, change, judge_reply, x) && answered(
                x, r, "record not found"@, |receipt: RecordChangeReceipt| EffectResult::RecordChanged(receipt)),
        EffectCommand::GuardReferentRegistration(registration) => exists|x: Result<Result<ReferentRegistrationReceipt, ReferentGuardianRejection>, StoreError>|
            #[trigger] guard_referent_registration_outcome(before, after, registration, judge_reply, x) && match x {
                Ok(Ok(receipt)) => r == EffectResult::ReferentRegistered(receipt),
                Ok(Err(refusal)) => r == EffectResult::ReferentGuardianRejected(refusal),
                Err(e) => r is OperationFailed && r->OperationFailed_0@ == error_text(e),
            },
        _ => false,
    }
}

/// The command is a write that goes before the guardian.
pub open spec fn judged_write(command: EffectCommand) -> bool {
    ||| command is GuardRecord
    ||| command is Propose
    ||| command is Clarify
    ||| command is ResolveClarification
    ||| command is Supersede
    ||| command is Retire
    ||| command is GuardChangeRecord
    ||| command is GuardReferentRegistration
}

/// The judge's reply a guarded write needs: one whenever a guardian agent
/// is installed, except for a registration that a registered referent
/// already settles.
pub open spec fn judge_reply_given(nexus: Nexus, command: EffectCommand, judge_reply: Option<Result<SpiritJudgeReply, AgentGuardianError>>) -> bool {
    nexus.spec_guardian() is Some ==> (judge_reply is Some || match command {
        EffectCommand::GuardReferentRegistration(registration) => crate::store::settled_position(
            nexus.spec_store()@.referents,
            registration.referent@,
            registration.aliases@,
        ) is Some,
        _ => false,
    })
}


impl Nexus {
    /// Carry out a guarded write with the guardian agent's reply in hand:
    /// the step of the cycle where the judge was consulted. The reply is
    /// the event the transport brought back; the write is then decided and
    /// done as its `guard_*` operation says.
    pub fn apply_effect_judged(&mut self, command: EffectCommand, judge_reply: Option<Result<SpiritJudgeReply, AgentGuardianError>>) -> (r: EffectResult)
        requires
            old(self).well_formed(),
            judged_write(command),
            judge_reply_given(*old(self), command, judge_reply),
        ensures
            judged_effect_outcome(command, judge_reply, *old(self), *final(self), r),
    {
        match command {
            EffectCommand::GuardRecord(request) => {
                let x = self.guard_record(request, judge_reply);
                proof { assert(guard_record_outcome(*old(self), *self, request, judge_reply, x)); }
                match x {
                    Ok(Ok(receipt)) => EffectResult::Recorded(receipt),
                    Ok(Err(refusal)) => EffectResult::GuardianRejected(refusal),
                    Err(error) => failed(error),
                }
            },
            EffectCommand::Propose(proposal) => {
                let x = self.guard_propose(proposal, judge_reply);
                proof { assert(guard_propose_outcome(*old(self), *self, proposal, judge_reply, x)); }
                match x {
                    Ok(Ok(receipt)) => EffectResult::Proposed(receipt),
                    Ok(Err(refusal)) => EffectResult::GuardianRejected(refusal),
                    Err(error) => failed(error),
                }
            },
            EffectCommand::Clarify(clarification) => {
                let x = self.guard_clarify(clarification, judge_reply);
                proof { assert(guard_clarify_outcome(*old(self), *self, clarification, judge_reply, x)); }
                match x {
                    Ok(Ok(Some(receipt))) => EffectResult::Clarified(receipt),
                    Ok(Ok(None)) => {
                        proof { reveal_strlit("record not found"); }
                        failed_with("record not found")
                    },
                    Ok(Err(refusal)) => EffectResult::GuardianRejected(refusal),
                    Err(error) => failed(error),
                }
            },
            EffectCommand::ResolveClarification(resolution) => {
                let x = self.guard_resolve_clarification(resolution, judge_reply);
                proof { assert(guard_resolve_clarification_outcome(*old(self), *self, resolution, judge_reply, x)); }
                match x {
                    Ok(Ok(Some(receipt))) => EffectResult::ClarificationResolved(receipt),
                    Ok(Ok(None)) => {
                        proof { reveal_strlit("clarification resolution target not found"); }
                        failed_with("clarification resolution target not found")
                    },
                    Ok(Err(refusal)) => EffectResult::GuardianRejected(refusal),
                    Err(error) => failed(error),
                }
            },
            EffectCommand::Supersede(supersession) => {
                let x = self.guard_supersede(supersession, judge_reply);
                proof { assert(guard_supersede_outcome(*old(self), *self, supersession, judge_reply, x)); }
                match x {
                    Ok(Ok(Some(receipt))) => EffectResult::Superseded(receipt),
                    Ok(Ok(None)) => {
                        proof { reveal_strlit("supersede target not found"); }
                        failed_with("supersede target not found")
                    },
                    Ok(Err(refusal)) => EffectResult::GuardianRejected(refusal),
                    Err(error) => failed(error),
                }
            },
            EffectCommand::Retire(retirement) => {
                let x = self.guard_retire(retirement, judge_reply);
                proof { assert(guard_retire_outcome(*old(self), *self, retirement, judge_reply, x)); }
                match x {
                    Ok(Ok(Some(receipt))) => EffectResult::Retired(receipt),
                    Ok(Ok(None)) => {
                        proof { reveal_strlit("record not found"); }
                        failed_with("record not found")
                    },
                    Ok(Err(refusal)) => EffectResult::GuardianRejected(refusal),
                    Err(error) => failed(error),
                }
            },
            EffectCommand::GuardChangeRecord(change) => {
                let x = self.guard_change_record(change, judge_reply);
                proof { assert(guard_change_record_outcome(*old(self), *self, change, judge_reply, x)); }
                match x {
                    Ok(Ok(Some(receipt))) => EffectResult::RecordChanged(receipt),
                    Ok(Ok(None)) => {
                        proof { reveal_strlit("record not found"); }
                        failed_with("record not found")
                    },
                    Ok(Err(refusal)) => EffectResult::GuardianRejected(refusal),
                    Err(error) => failed(error),
                }
            },
            EffectCommand::GuardReferentRegistration(registration) => {
                let x = self.guard_referent_registration(registration, judge_reply);
                proof { assert(guard_referent_registration_outcome(*old(self), *self, registration, judge_reply, x)); }
                match x {
                    Ok(Ok(receipt)) => EffectResult::ReferentRegistered(receipt),
                    Ok(Err(refusal)) => EffectResult::ReferentGuardianRejected(refusal),
                    Err(error) => failed(error),
                }
            },
            _ => {
                proof { assert(false); }
                EffectResult::OperationFailed(String::new())
            },
        }
    }
}


/// The registration, without aliases, that settling `referent` asks for.
pub open spec fn implied_registration_of(registration: ReferentRegistration, referent: Seq<char>) -> bool {
    registration.referent@ == referent && registration.aliases@ == Seq::<Seq<char>>::empty()
}

/// `names[k]` is the first of `names` that no registered referent settles.
pub open spec fn first_unsettled_at(registry: Seq<crate::referent::StoredReferentView>, names: Seq<Seq<char>>, k: int) -> bool {
    &&& 0 <= k < names.len()
    &&& crate::store::settled_position(registry, names[k], Seq::empty()) is None
    &&& forall|j: int|
        0 <= j < k ==> #[trigger] crate::store::settled_position(registry, names[j], Seq::empty()) is Some
}

/// The referents the command implies, in the order they are settled.
pub open spec fn implied_names(command: EffectCommand) -> Seq<Seq<char>> {
    match command {
        EffectCommand::RecordWithImpliedReferents(request) => request.entry.referents@,
        EffectCommand::ProposeWithImpliedReferents(proposal) => proposal.entry.referents@,
        EffectCommand::ChangeRecordWithImpliedReferents(change) => change.entry.referents@,
        _ => Seq::empty(),
    }
}

/// The command settles the referents its entry names.
pub open spec fn settles_implied_referents(command: EffectCommand) -> bool {
    ||| command is RecordWithImpliedReferents
    ||| command is ProposeWithImpliedReferents
    ||| command is ChangeRecordWithImpliedReferents
}

/// The effect result of a command whose implied referents are all settled.
pub open spec fn settled_result_of(command: EffectCommand) -> EffectResult {
    match command {
        EffectCommand::RecordWithImpliedReferents(request) => EffectResult::RecordReferentsSettled(request),
        EffectCommand::ProposeWithImpliedReferents(proposal) => EffectResult::ProposeReferentsSettled(proposal),
        EffectCommand::ChangeRecordWithImpliedReferents(change) => EffectResult::ChangeRecordReferentsSettled(
            change,
        ),
        EffectCommand::SupersedeWithImpliedReferents(supersession) => EffectResult::SupersedeReferentsSettled(
            supersession,
        ),
        _ => arbitrary(),
    }
}

/// The next move in settling a command's implied referents: register one
/// referent and come back with the command, or stop with a result.
#[derive(Debug)]
pub enum Settlement {
    Register(EffectCommand, ReferentRegistration),
    Done(EffectResult),
}

/// The registration asked for next while settling `command`: for a
/// supersession, that of the first unsettled name of the first replacement
/// that has one; otherwise that of the first unsettled name of the entry.
pub open spec fn next_settlement_of(
    registry: Seq<crate::referent::StoredReferentView>,
    command: EffectCommand,
    registration: ReferentRegistration,
) -> bool {
    match command {
        EffectCommand::SupersedeWithImpliedReferents(supersession) => exists|j: int, k: int|
            #![trigger supersession.replacements@[j], first_unsettled_at(registry, supersession.replacements@[j].referents@, k)]
            0 <= j < supersession.replacements.len()
                && (forall|i: int| 0 <= i < j ==> implied_referents_settled(registry, #[trigger] supersession.replacements@[i].referents@))
                && first_unsettled_at(registry, supersession.replacements@[j].referents@, k)
                && implied_registration_of(registration, supersession.replacements@[j].referents@[k]),
        _ => exists|k: int|
            #[trigger] first_unsettled_at(registry, implied_names(command), k) && implied_registration_of(
                registration,
                implied_names(command)[k],
            ),
    }
}

/// Every referent the command implies is settled.
pub open spec fn all_implied_settled(registry: Seq<crate::referent::StoredReferentView>, command: EffectCommand) -> bool {
    match command {
        EffectCommand::SupersedeWithImpliedReferents(supersession) => replacement_referents_settled(
            registry,
            supersession.replacements@,
        ),
        _ => implied_referents_settled(registry, implied_names(command)),
    }
}

/// The last registration was refused or failed: settling stops there.
pub open spec fn settlement_stopped(last: Option<EffectResult>) -> bool {
    last is Some && !(last->Some_0 is ReferentRegistered)
}

impl Nexus {
    /// The first referent among `referents`, in order, that no registered
    /// referent settles yet, as the registration (without aliases, under
    /// `justification`) that settling it asks for; `None` when all settle.
    pub fn next_implied_registration(&self, referents: &Referents, justification: &Justification) -> (r: Option<
        ReferentRegistration,
    >)
        requires
            self.well_formed(),
        ensures
            match r {
                Some(registration) => exists|k: int|
                    #[trigger] first_unsettled_at(self.spec_store()@.referents, referents@, k)
                        && implied_registration_of(registration, referents@[k]),
                None => implied_referents_settled(self.spec_store()@.referents, referents@),
            },
    {
        let mut i: usize = 0;
        while i < referents.0.len()
            invariant
                i <= referents.0.len(),
                forall|j: int|
                    0 <= j < i ==> #[trigger] crate::store::settled_position(
                        self.spec_store()@.referents,
                        referents@[j],
                        Seq::empty(),
                    ) is Some,
            decreases referents.0.len() - i,
        {
            let registration = ReferentRegistration {
                referent: referents.0[i].clone(),
                aliases: Referents(Vec::new()),
                justification: justification.clone(),
            };
            proof {
                assert(referents@[i as int] == referents.0@[i as int]@);
                assert(registration.aliases@ =~= Seq::<Seq<char>>::empty());
            }
            if self.store.settled_referent_registration_receipt(&registration).is_none() {
                proof {
                    assert(implied_registration_of(registration, referents@[i as int]));
                    assert(crate::store::settled_position(
                        self.spec_store()@.referents,
                        referents@[i as int],
                        Seq::empty(),
                    ) is None);
                    assert(first_unsettled_at(self.spec_store()@.referents, referents@, i as int));
                }
                return Some(registration);
            }
            i = i + 1;
        }
        None
    }

    /// One step of settling a command's implied referents, given the result
    /// of the registration the last step asked for (`None` at the start):
    /// a refused or failed registration ends the settling with its result;
    /// otherwise the next unsettled referent is registered, and once none is
    /// left the command's settled result comes back.
    pub fn settlement_step(&self, command: EffectCommand, last: Option<EffectResult>) -> (r: Settlement)
        requires
            self.well_formed(),
            settles_implied_referents(command) || command is SupersedeWithImpliedReferents,
        ensures
            settlement_stopped(last) ==> r == Settlement::Done(last->Some_0),
            !settlement_stopped(last) ==> match r {
                Settlement::Register(carried, registration) => carried == command && next_settlement_of(
                    self.spec_store()@.referents,
                    command,
                    registration,
                ),
                Settlement::Done(result) => result == settled_result_of(command) && all_implied_settled(
                    self.spec_store()@.referents,
                    command,
                ),
            },
    {
        match last {
            Some(EffectResult::ReferentRegistered(_)) | None => {},
            Some(result) => {
                return Settlement::Done(result);
            },
        }
        let ghost registry = self.spec_store()@.referents;
        let next = match &command {
            EffectCommand::RecordWithImpliedReferents(request) => {
                let found = self.next_implied_registration(&request.entry.referents, &request.justification);
                proof {
                    if found is Some {
                        let names = request.entry.referents@;
                        assert(implied_names(command) == names);
                        let k = choose|k: int|
                            #[trigger] first_unsettled_at(registry, names, k) && implied_registration_of(
                                found->Some_0,
                                names[k],
                            );
                        assert(first_unsettled_at(registry, implied_names(command), k));
                        assert(next_settlement_of(registry, command, found->Some_0));
                    }
                }
                found
            },
            EffectCommand::ProposeWithImpliedReferents(proposal) => {
                let found = self.next_implied_registration(&proposal.entry.referents, &proposal.justification);
                proof {
                    if found is Some {
                        let names = proposal.entry.referents@;
                        assert(implied_names(command) == names);
                        let k = choose|k: int|
                            #[trigger] first_unsettled_at(registry, names, k) && implied_registration_of(
                                found->Some_0,
                                names[k],
                            );
                        assert(first_unsettled_at(registry, implied_names(command), k));
                        assert(next_settlement_of(registry, command, found->Some_0));
                    }
                }
                found
            },
            EffectCommand::ChangeRecordWithImpliedReferents(change) => {
                let found = self.next_implied_registration(&change.entry.referents, &change.justification);
                proof {
                    if found is Some {
                        let names = change.entry.referents@;
                        assert(implied_names(command) == names);
                        let k = choose|k: int|
                            #[trigger] first_unsettled_at(registry, names, k) && implied_registration_of(
                                found->Some_0,
                                names[k],
                            );
                        assert(first_unsettled_at(registry, implied_names(command), k));
                        assert(next_settlement_of(registry, command, found->Some_0));
                    }
                }
                found
            },
            EffectCommand::SupersedeWithImpliedReferents(supersession) => self.next_replacement_registration(
                supersession,
            ),
            _ => None,
        };
        proof {
            if next is Some {
                assert(next_settlement_of(registry, command, next->Some_0));
            }
        }
        match next {
            Some(registration) => Settlement::Register(command, registration),
            None => Settlement::Done(Nexus::settled_result(command)),
        }
    }

    /// The registration the first replacement with an unsettled referent
    /// asks for; `None` when every replacement's referents settle.
    fn next_replacement_registration(&self, supersession: &Supersession) -> (r: Option<ReferentRegistration>)
        requires
            self.well_formed(),
        ensures
            match r {
                Some(registration) => next_settlement_of(
                    self.spec_store()@.referents,
                    EffectCommand::SupersedeWithImpliedReferents(*supersession),
                    registration,
                ),
                None => replacement_referents_settled(self.spec_store()@.referents, supersession.replacements@),
            },
    {
        let ghost registry = self.spec_store()@.referents;
        let mut j: usize = 0;
        while j < supersession.replacements.len()
            invariant
                j <= supersession.replacements.len(),
                registry == self.spec_store()@.referents,
                self.well_formed(),
                forall|i: int| 0 <= i < j ==> implied_referents_settled(registry, #[trigger] supersession.replacements@[i].referents@),
            decreases supersession.replacements.len() - j,
        {
            match self.next_implied_registration(&supersession.replacements[j].referents, &supersession.justification) {
                Some(registration) => {
                    proof {
                        let k = choose|k: int|
                            #[trigger] first_unsettled_at(registry, supersession.replacements@[j as int].referents@, k)
                                && implied_registration_of(registration, supersession.replacements@[j as int].referents@[k]);
                        assert(0 <= j < supersession.replacements.len());
                    }
                    return Some(registration);
                },
                None => {},
            }
            j = j + 1;
        }
        None
    }

    /// The effect result of an implied-referents command once all its
    /// referents are settled.
    pub fn settled_result(command: EffectCommand) -> (r: EffectResult)
        requires
            settles_implied_referents(command) || command is SupersedeWithImpliedReferents,
        ensures
            r == settled_result_of(command),
    {
        match command {
            EffectCommand::RecordWithImpliedReferents(request) => EffectResult::RecordReferentsSettled(request),
            EffectCommand::ProposeWithImpliedReferents(proposal) => EffectResult::ProposeReferentsSettled(proposal),
            EffectCommand::ChangeRecordWithImpliedReferents(change) => EffectResult::ChangeRecordReferentsSettled(
                change,
            ),
            EffectCommand::SupersedeWithImpliedReferents(supersession) => EffectResult::SupersedeReferentsSettled(
                supersession,
            ),
            _ => {
                proof { assert(false); }
                EffectResult::OperationFailed(String::new())
            },
        }
    }

    /// Carry out a SEMA write the cycle decided on; only the store moves.
    pub fn carry_sema_write(&mut self, command: SemaWriteInput) -> (r: SemaWriteOutput)
        requires
            old(self).well_formed(),
        ensures
            final(self).well_formed(),
            crate::sema::write_outcome(old(self).spec_store(), final(self).spec_store(), command, r),
            tables_kept(*old(self), *final(self)),
    {
        self.store.apply_write(command)
    }

    /// Carry out a SEMA read the cycle decided on; nothing moves.
    pub fn carry_sema_read(&self, command: SemaReadInput) -> (r: SemaReadOutput)
        requires
            self.well_formed(),
        ensures
            crate::sema::read_outcome(self.spec_store(), command, r),
    {
        self.store.observe_read(command)
    }
}


/// The guardian operation a guarded write asks to have judged.
pub open spec fn operation_of(command: EffectCommand, operation: GuardianOperation) -> bool {
    match command {
        EffectCommand::GuardRecord(request) => same_operation(operation, GuardianOperation::Record(request)),
        EffectCommand::Propose(proposal) => same_operation(operation, GuardianOperation::Propose(proposal)),
        EffectCommand::Clarify(clarification) => same_operation(operation, GuardianOperation::Clarify(clarification)),
        EffectCommand::ResolveClarification(resolution) => same_operation(
            operation,
            GuardianOperation::ResolveClarification(resolution),
        ),
        EffectCommand::Supersede(supersession) => same_operation(operation, GuardianOperation::Supersede(supersession)),
        EffectCommand::Retire(retirement) => same_operation(operation, GuardianOperation::Retire(retirement)),
        EffectCommand::GuardChangeRecord(change) => same_operation(operation, GuardianOperation::ChangeRecord(change)),
        _ => false,
    }
}

impl EffectCommand {
    /// The operation the guardian judges for this command: `Some` exactly
    /// for the guarded writes other than a referent registration.
    pub fn guardian_operation(&self) -> (r: Option<GuardianOperation>)
        ensures
            match r {
                Some(operation) => operation_of(*self, operation),
                None => !(judged_write(*self)) || *self is GuardReferentRegistration,
            },
    {
        match self {
            EffectCommand::GuardRecord(request) => Some(GuardianOperation::Record(request.clone())),
            EffectCommand::Propose(proposal) => Some(GuardianOperation::Propose(proposal.clone())),
            EffectCommand::Clarify(clarification) => Some(GuardianOperation::Clarify(clarification.clone())),
            EffectCommand::ResolveClarification(resolution) => Some(
                GuardianOperation::ResolveClarification(resolution.clone()),
            ),
            EffectCommand::Supersede(supersession) => Some(GuardianOperation::Supersede(supersession.clone())),
            EffectCommand::Retire(retirement) => Some(GuardianOperation::Retire(retirement.clone())),
            EffectCommand::GuardChangeRecord(change) => Some(GuardianOperation::ChangeRecord(change.clone())),
            _ => None,
        }
    }
}

impl Nexus {
    /// Whether the cycle stops at the continuation budget: `spent` steps
    /// were carried out and the decided action is not a reply.
    pub fn budget_stops(spent: u64, action: &NexusAction) -> (r: bool)
        ensures
            r == (spent == CONTINUATION_LIMIT && !(*action is ReplyToSignal)),
    {
        spent == CONTINUATION_LIMIT && !matches!(action, NexusAction::ReplyToSignal(_))
    }
}

impl Nexus {
    /// Land a prepared foreign apply according to criome's decision; only
    /// an `Authorized` decision brings the record in.
    pub fn resolve_authorized_apply(
        &mut self,
        prepared: crate::apply_ingress::PreparedAuthorizedApply,
        decision: crate::apply_ingress::EvaluationDecision,
    ) -> (r: crate::apply_ingress::AuthorizedApplyOutcome)
        requires
            old(self).well_formed(),
        ensures
            final(self).well_formed(),
            final(self).spec_store().same_settings(&old(self).spec_store()),
            tables_kept(*old(self), *final(self)),
            decision != crate::apply_ingress::EvaluationDecision::Authorized ==> r
                == crate::apply_ingress::AuthorizedApplyOutcome::Refused(ApplyRefusalReason::AuthorizationDenied)
                && final(self).spec_store()@ == old(self).spec_store()@,
            decision == crate::apply_ingress::EvaluationDecision::Authorized ==> match r {
                crate::apply_ingress::AuthorizedApplyOutcome::Applied(receipt) => {
                    &&& receipt.record_identifier.0@ == prepared.record_identifier@
                    &&& !has_record(old(self).spec_store()@.records, prepared.record_identifier@)
                    &&& final(self).spec_store()@.records == old(self).spec_store()@.records.push(
                        RecordView {
                            identifier: prepared.record_identifier@,
                            entry: canonical_entry(old(self).spec_store()@.referents, prepared.entry@)->Some_0,
                        },
                    )
                },
                crate::apply_ingress::AuthorizedApplyOutcome::Refused(reason) => reason
                    == ApplyRefusalReason::MalformedRecord && final(self).spec_store()@ == old(self).spec_store()@,
            },
    {
        prepared.resolve(&decision, &mut self.store)
    }
}

} // verus!
