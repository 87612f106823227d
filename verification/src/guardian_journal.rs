//! The guardian's audit trail: the write operations a guardian judges, the
//! decisions it reached, and the journal that keeps every decision under
//! its own identifier.

use vstd::prelude::*;

use crate::error::StoreError;
use crate::nexus::Input;
use crate::query::{Entry, EntryView};
use crate::referent::{ReferentRegistration, StoredReferent};
use crate::store::{
    decimal_of, decimal_text, Clarification, ClarificationResolution, DatabaseMarker, RecordChange,
    Retirement, Supersession,
};
use crate::tables::{Proposal, RecordRequest};
use crate::verdict::{GuardianVerdict, RecordSet, ReferentGuardianVerdict};

verus! {

broadcast use vstd::string::group_string_axioms;

/// A write the guardian is asked to judge.
#[derive(Debug)]
pub enum GuardianOperation {
    Record(RecordRequest),
    Propose(Proposal),
    Clarify(Clarification),
    ResolveClarification(ClarificationResolution),
    Supersede(Supersession),
    Retire(Retirement),
    ChangeRecord(RecordChange),
}

/// The number of quotes in an operation's testimony.
pub open spec fn testimony_length(operation: GuardianOperation) -> nat {
    match operation {
        GuardianOperation::Record(request) => request.justification.testimony@.len(),
        GuardianOperation::Propose(proposal) => proposal.justification.testimony@.len(),
        GuardianOperation::Clarify(clarification) => clarification.justification.testimony@.len(),
        GuardianOperation::ResolveClarification(resolution) => resolution.justification.testimony@.len(),
        GuardianOperation::Supersede(supersession) => supersession.justification.testimony@.len(),
        GuardianOperation::Retire(retirement) => retirement.justification.testimony@.len(),
        GuardianOperation::ChangeRecord(change) => change.justification.testimony@.len(),
    }
}

/// The entries an operation would write: the new entry of a record,
/// proposal or change, the replacements of a supersession, none otherwise.
pub open spec fn candidate_entries_of(operation: GuardianOperation) -> Seq<EntryView> {
    match operation {
        GuardianOperation::Record(request) => seq![request.entry@],
        GuardianOperation::Propose(proposal) => seq![proposal.entry@],
        GuardianOperation::Supersede(supersession) => supersession.replacements@.map_values(
            |e: Entry| e@,
        ),
        GuardianOperation::ChangeRecord(change) => seq![change.entry@],
        _ => Seq::empty(),
    }
}

/// The operation's name, as the criome authorization context carries it.
pub open spec fn operation_name(operation: GuardianOperation) -> Seq<char> {
    match operation {
        GuardianOperation::Record(_) => "Record"@,
        GuardianOperation::Propose(_) => "Propose"@,
        GuardianOperation::Clarify(_) => "Clarify"@,
        GuardianOperation::ResolveClarification(_) => "ResolveClarification"@,
        GuardianOperation::Supersede(_) => "Supersede"@,
        GuardianOperation::Retire(_) => "Retire"@,
        GuardianOperation::ChangeRecord(_) => "ChangeRecord"@,
    }
}

/// Two operations ask for the same write.
pub open spec fn same_operation(a: GuardianOperation, b: GuardianOperation) -> bool {
    match (a, b) {
        (GuardianOperation::Record(x), GuardianOperation::Record(y)) => x.entry@ == y.entry@
            && x.justification@ == y.justification@,
        (GuardianOperation::Propose(x), GuardianOperation::Propose(y)) => x.entry@ == y.entry@
            && x.justification@ == y.justification@,
        (GuardianOperation::Clarify(x), GuardianOperation::Clarify(y)) => x.record_identifier
            == y.record_identifier && x.description == y.description && x.justification@
            == y.justification@,
        (GuardianOperation::ResolveClarification(x), GuardianOperation::ResolveClarification(y)) =>
            x.clarification_record_identifier == y.clarification_record_identifier
            && x.target_clarifications@ == y.target_clarifications@ && x.justification@
            == y.justification@,
        (GuardianOperation::Supersede(x), GuardianOperation::Supersede(y)) => x.retired_identifiers@
            == y.retired_identifiers@ && x.replacements@.map_values(|e: Entry| e@)
            == y.replacements@.map_values(|e: Entry| e@) && x.justification@ == y.justification@,
        (GuardianOperation::Retire(x), GuardianOperation::Retire(y)) => x.record_identifier
            == y.record_identifier && x.justification@ == y.justification@,
        (GuardianOperation::ChangeRecord(x), GuardianOperation::ChangeRecord(y)) => x.record_identifier
            == y.record_identifier && x.entry@ == y.entry@ && x.justification@ == y.justification@,
        _ => false,
    }
}

impl Clone for GuardianOperation {
    fn clone(&self) -> (r: Self)
        ensures
            same_operation(r, *self),
    {
        match self {
            GuardianOperation::Record(request) => GuardianOperation::Record(request.clone()),
            GuardianOperation::Propose(proposal) => GuardianOperation::Propose(proposal.clone()),
            GuardianOperation::Clarify(clarification) => GuardianOperation::Clarify(clarification.clone()),
            GuardianOperation::ResolveClarification(resolution) => GuardianOperation::ResolveClarification(
                resolution.clone(),
            ),
            GuardianOperation::Supersede(supersession) => GuardianOperation::Supersede(supersession.clone()),
            GuardianOperation::Retire(retirement) => GuardianOperation::Retire(retirement.clone()),
            GuardianOperation::ChangeRecord(change) => GuardianOperation::ChangeRecord(change.clone()),
        }
    }
}

/// How much of a write's content the judge may see.
#[derive(Debug, Clone, Copy, PartialEq, Eq, Structural)]
pub enum JudgmentScope {
    /// Everything is public.
    Public,
    /// Some content is private: the judge sees hashes and redacted text.
    PrivateHashesAndRedaction,
}

/// Some entry the operation would write is private.
pub open spec fn writes_private_entry(operation: GuardianOperation) -> bool {
    exists|i: int|
        0 <= i < candidate_entries_of(operation).len() && (#[trigger] candidate_entries_of(operation)[i]).privacy.0
            != crate::magnitude::Magnitude::Zero
}

impl GuardianOperation {
    /// The scope the judge works under: redacted when any entry the
    /// operation would write is private, public otherwise.
    pub fn judgment_scope(&self) -> (r: JudgmentScope)
        ensures
            r == if writes_private_entry(*self) {
                JudgmentScope::PrivateHashesAndRedaction
            } else {
                JudgmentScope::Public
            },
    {
        let entries = self.candidate_entries();
        let ghost view = candidate_entries_of(*self);
        let mut i: usize = 0;
        while i < entries.len()
            invariant
                i <= entries.len(),
                entries@.map_values(|e: Entry| e@) == view,
                view == candidate_entries_of(*self),
                forall|j: int| 0 <= j < i ==> (#[trigger] view[j]).privacy.0 == crate::magnitude::Magnitude::Zero,
            decreases entries.len() - i,
        {
            assert(view[i as int] == entries@[i as int]@);
            if entries[i].is_private() {
                return JudgmentScope::PrivateHashesAndRedaction;
            }
            i = i + 1;
        }
        JudgmentScope::Public
    }

    pub fn record(request: RecordRequest) -> (r: Self)
        ensures
            r == GuardianOperation::Record(request),
    {
        GuardianOperation::Record(request)
    }

    pub fn propose(proposal: Proposal) -> (r: Self)
        ensures
            r == GuardianOperation::Propose(proposal),
    {
        GuardianOperation::Propose(proposal)
    }

    pub fn clarify(clarification: Clarification) -> (r: Self)
        ensures
            r == GuardianOperation::Clarify(clarification),
    {
        GuardianOperation::Clarify(clarification)
    }

    pub fn resolve_clarification(resolution: ClarificationResolution) -> (r: Self)
        ensures
            r == GuardianOperation::ResolveClarification(resolution),
    {
        GuardianOperation::ResolveClarification(resolution)
    }

    pub fn supersede(supersession: Supersession) -> (r: Self)
        ensures
            r == GuardianOperation::Supersede(supersession),
    {
        GuardianOperation::Supersede(supersession)
    }

    pub fn retire(retirement: Retirement) -> (r: Self)
        ensures
            r == GuardianOperation::Retire(retirement),
    {
        GuardianOperation::Retire(retirement)
    }

    pub fn change_record(change: RecordChange) -> (r: Self)
        ensures
            r == GuardianOperation::ChangeRecord(change),
    {
        GuardianOperation::ChangeRecord(change)
    }

    /// Whether the operation's justification carries no verbatim quote at
    /// all: a candidate with no quote has produced no evidence.
    pub fn testimony_is_empty(&self) -> (r: bool)
        ensures
            r == (testimony_length(*self) == 0),
    {
        let justification = match self {
            GuardianOperation::Record(request) => &request.justification,
            GuardianOperation::Propose(proposal) => &proposal.justification,
            GuardianOperation::Clarify(clarification) => &clarification.justification,
            GuardianOperation::ResolveClarification(resolution) => &resolution.justification,
            GuardianOperation::Supersede(supersession) => &supersession.justification,
            GuardianOperation::Retire(retirement) => &retirement.justification,
            GuardianOperation::ChangeRecord(change) => &change.justification,
        };
        justification.testimony.len() == 0
    }

    /// The entries the operation would write.
    pub fn candidate_entries(&self) -> (r: Vec<Entry>)
        ensures
            r@.map_values(|e: Entry| e@) == candidate_entries_of(*self),
    {
        let mut out: Vec<Entry> = Vec::new();
        match self {
            GuardianOperation::Record(request) => {
                out.push(request.entry.clone());
            },
            GuardianOperation::Propose(proposal) => {
                out.push(proposal.entry.clone());
            },
            GuardianOperation::ChangeRecord(change) => {
                out.push(change.entry.clone());
            },
            GuardianOperation::Supersede(supersession) => {
                let ghost wanted = supersession.replacements@.map_values(|e: Entry| e@);
                let mut i: usize = 0;
                while i < supersession.replacements.len()
                    invariant
                        i <= supersession.replacements.len(),
                        wanted == supersession.replacements@.map_values(|e: Entry| e@),
                        out@.map_values(|e: Entry| e@) == wanted.subrange(0, i as int),
                    decreases supersession.replacements.len() - i,
                {
                    let ghost before = out@.map_values(|e: Entry| e@);
                    out.push(supersession.replacements[i].clone());
                    assert(out@.map_values(|e: Entry| e@) =~= before.push(wanted[i as int]));
                    assert(wanted.subrange(0, i + 1) =~= wanted.subrange(0, i as int).push(wanted[i as int]));
                    i = i + 1;
                }
                assert(wanted.subrange(0, supersession.replacements.len() as int) =~= wanted);
            },
            _ => {},
        }
        assert(out@.map_values(|e: Entry| e@) =~= candidate_entries_of(*self));
        out
    }

    /// The operation's name.
    pub fn name(&self) -> (r: &'static str)
        ensures
            r@ == operation_name(*self),
    {
        match self {
            GuardianOperation::Record(_) => {
                proof { reveal_strlit("Record"); }
                "Record"
            },
            GuardianOperation::Propose(_) => {
                proof { reveal_strlit("Propose"); }
                "Propose"
            },
            GuardianOperation::Clarify(_) => {
                proof { reveal_strlit("Clarify"); }
                "Clarify"
            },
            GuardianOperation::ResolveClarification(_) => {
                proof { reveal_strlit("ResolveClarification"); }
                "ResolveClarification"
            },
            GuardianOperation::Supersede(_) => {
                proof { reveal_strlit("Supersede"); }
                "Supersede"
            },
            GuardianOperation::Retire(_) => {
                proof { reveal_strlit("Retire"); }
                "Retire"
            },
            GuardianOperation::ChangeRecord(_) => {
                proof { reveal_strlit("ChangeRecord"); }
                "ChangeRecord"
            },
        }
    }

    /// The signal input that asks for the same write.
    pub fn as_signal_input(self) -> (r: Input)
        ensures
            match self {
                GuardianOperation::Record(request) => r == Input::Record(request),
                GuardianOperation::Propose(proposal) => r == Input::Propose(proposal),
                GuardianOperation::Clarify(clarification) => r == Input::Clarify(clarification),
                GuardianOperation::ResolveClarification(resolution) => r == Input::ResolveClarification(resolution),
                GuardianOperation::Supersede(supersession) => r == Input::Supersede(supersession),
                GuardianOperation::Retire(retirement) => r == Input::Retire(retirement),
                GuardianOperation::ChangeRecord(change) => r == Input::ChangeRecord(change),
            },
    {
        match self {
            GuardianOperation::Record(request) => Input::Record(request),
            GuardianOperation::Propose(proposal) => Input::Propose(proposal),
            GuardianOperation::Clarify(clarification) => Input::Clarify(clarification),
            GuardianOperation::ResolveClarification(resolution) => Input::ResolveClarification(resolution),
            GuardianOperation::Supersede(supersession) => Input::Supersede(supersession),
            GuardianOperation::Retire(retirement) => Input::Retire(retirement),
            GuardianOperation::ChangeRecord(change) => Input::ChangeRecord(change),
        }
    }
}

/// A decision the guardian reached, with what it was judged against.
#[derive(Debug)]
pub enum GuardianDecision {
    Record {
        operation: GuardianOperation,
        record_set: RecordSet,
        verdict: GuardianVerdict,
        database_marker: DatabaseMarker,
    },
    Referent {
        registration: ReferentRegistration,
        registered_referents: Vec<StoredReferent>,
        verdict: ReferentGuardianVerdict,
        database_marker: DatabaseMarker,
    },
}

impl GuardianDecision {
    pub fn record(
        operation: GuardianOperation,
        record_set: RecordSet,
        verdict: GuardianVerdict,
        database_marker: DatabaseMarker,
    ) -> (r: Self)
        ensures
            r == (GuardianDecision::Record { operation, record_set, verdict, database_marker }),
    {
        GuardianDecision::Record { operation, record_set, verdict, database_marker }
    }

    pub fn referent(
        registration: ReferentRegistration,
        registered_referents: Vec<StoredReferent>,
        verdict: ReferentGuardianVerdict,
        database_marker: DatabaseMarker,
    ) -> (r: Self)
        ensures
            r == (GuardianDecision::Referent {
                registration,
                registered_referents,
                verdict,
                database_marker,
            }),
    {
        GuardianDecision::Referent { registration, registered_referents, verdict, database_marker }
    }
}

/// One journaled decision under its identifier.
#[derive(Debug)]
pub struct GuardianJournalEntry {
    pub decision_identifier: String,
    pub decision: GuardianDecision,
}

impl GuardianJournalEntry {
    pub fn new(decision_identifier: String, decision: GuardianDecision) -> (r: Self)
        ensures
            r.decision_identifier == decision_identifier,
            r.decision == decision,
    {
        GuardianJournalEntry { decision_identifier, decision }
    }
}

/// The identifier of the `n`-th journaled decision (counting from one).
pub open spec fn decision_identifier_text(n: nat) -> Seq<char> {
    "guardian-decision-"@ + decimal_text(n)
}

/// The guardian's decisions, in the order they were reached; the `k`-th
/// (from zero) is journaled as `guardian-decision-{k + 1}`.
#[derive(Debug)]
pub struct GuardianJournal {
    entries: Vec<GuardianJournalEntry>,
}

impl GuardianJournal {
    /// The decisions, in order.
    pub closed spec fn decisions(&self) -> Seq<GuardianDecision> {
        self.entries@.map_values(|e: GuardianJournalEntry| e.decision)
    }

    /// Every entry carries the identifier of its position.
    pub closed spec fn well_formed(&self) -> bool {
        forall|k: int|
            0 <= k < self.entries@.len() ==> (#[trigger] self.entries@[k]).decision_identifier@
                == decision_identifier_text((k + 1) as nat)
    }

    /// The identifier the decision at position `k` is journaled under.
    pub closed spec fn identifier_at(&self, k: int) -> Seq<char> {
        self.entries@[k].decision_identifier@
    }

    /// Journaled entries read back with their identifiers.
    pub proof fn lemma_identifiers(&self, k: int)
        requires
            self.well_formed(),
            0 <= k < self.decisions().len(),
        ensures
            self.identifier_at(k) == decision_identifier_text((k + 1) as nat),
    {
    }

    /// An empty journal.
    pub fn new() -> (r: Self)
        ensures
            r.well_formed(),
            r.decisions() == Seq::<GuardianDecision>::empty(),
    {
        let r = GuardianJournal { entries: Vec::new() };
        assert(r.decisions() =~= Seq::<GuardianDecision>::empty());
        r
    }

    /// How many decisions are journaled.
    pub fn len(&self) -> (r: usize)
        ensures
            r == self.decisions().len(),
    {
        self.entries.len()
    }

    /// The identifier the next decision is journaled under.
    fn next_decision_identifier(&self) -> (r: Result<String, StoreError>)
        ensures
            match r {
                Ok(id) => self.decisions().len() < u64::MAX && id@ == decision_identifier_text(
                    self.decisions().len() + 1,
                ),
                Err(e) => e is Database && self.decisions().len() >= u64::MAX,
            },
    {
        let n = self.entries.len();
        if n as u128 >= u64::MAX as u128 {
            return Err(StoreError::Database("guardian journal is full".to_owned()));
        }
        let next: u64 = (n as u64) + 1;
        let mut id = "guardian-decision-".to_owned();
        proof {
            reveal_strlit("guardian-decision-");
        }
        let digits = decimal_of(next);
        id.append(digits.as_str());
        Ok(id)
    }

    /// Journal a decision under the next identifier.
    pub fn append(&mut self, decision: GuardianDecision) -> (r: Result<(), StoreError>)
        requires
            old(self).well_formed(),
        ensures
            final(self).well_formed(),
            match r {
                Ok(()) => final(self).decisions() == old(self).decisions().push(decision),
                Err(e) => e is Database && final(self).decisions() == old(self).decisions()
                    && old(self).decisions().len() >= u64::MAX,
            },
    {
        let decision_identifier = self.next_decision_identifier()?;
        let ghost before = self.entries@;
        self.entries.push(GuardianJournalEntry::new(decision_identifier, decision));
        assert(self.decisions() =~= old(self).decisions().push(decision));
        Ok(())
    }
}

} // verus!
