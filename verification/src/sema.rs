//! The SEMA engine's two entry points over the store: a write command and
//! its outcome, a read query and its answer. Every store failure is
//! answered as a miss carrying the failure's text.

use vstd::prelude::*;

use crate::error::{error_text, StoreError};
use crate::query::{Entry, Query};
use crate::record::SearchText;
use crate::search::search_results;
use crate::referent::ReferentRegistration;
use crate::store::{
    canonical_entry, canonical_query, entry_of, has_record, observation, observed_view,
    CertaintyChange, CertaintyChangeReceipt, ImportanceBump,
    ImportanceBumpReceipt, ObservedRecord, RecordChange, RecordChangeReceipt, RecordIdentifier,
    ReferentRegistrationReceipt, RemoveReceipt, Removal, SemaReceipt, Store,
};

verus! {

broadcast use vstd::string::group_string_axioms;

/// A write the Nexus commands of SEMA.
#[derive(Debug)]
pub enum SemaWriteInput {
    Record(Entry),
    ChangeCertainty(CertaintyChange),
    BumpImportance(ImportanceBump),
    ChangeRecord(RecordChange),
    RegisterReferent(ReferentRegistration),
    /// Remove a record outright, by its identifier.
    Remove(Removal),
}

/// What a SEMA write reports.
#[derive(Debug)]
pub enum SemaWriteOutput {
    Recorded(SemaReceipt),
    CertaintyChanged(CertaintyChangeReceipt),
    ImportanceBumped(ImportanceBumpReceipt),
    RecordChanged(RecordChangeReceipt),
    ReferentRegistered(ReferentRegistrationReceipt),
    Removed(RemoveReceipt),
    /// The write did not happen; the text says why.
    Missed(String),
}

/// A read the Nexus commands of SEMA.
#[derive(Debug)]
pub enum SemaReadInput {
    Observe(Query),
    Lookup(RecordIdentifier),
    Count(Query),
    /// The publicly active records that match a search text.
    PublicTextSearch(SearchText),
}

/// A record found by its identifier.
#[derive(Debug)]
pub struct FoundRecord {
    pub record_identifier: RecordIdentifier,
    pub entry: Entry,
}

/// What a SEMA read answers.
#[derive(Debug)]
pub enum SemaReadOutput {
    Observed(Vec<ObservedRecord>),
    Found(FoundRecord),
    Counted(u64),
    /// What a public text search found, best match first.
    PublicTextSearchResults(Vec<ObservedRecord>),
    /// Nothing to answer; the text says why.
    Missed(String),
}

/// The miss a read or write answers when nothing was found.
pub open spec fn not_found_text() -> Seq<char> {
    "record not found"@
}

/// The miss a read answers when no record matched.
pub open spec fn no_match_text() -> Seq<char> {
    "no matching record"@
}

fn missed_for(error: StoreError) -> (r: String)
    ensures
        r@ == error_text(error),
{
    error.message()
}

/// What one write command left behind, by command: the output it answers
/// and how the store moved.
pub open spec fn write_outcome(before: Store, after: Store, input: SemaWriteInput, r: SemaWriteOutput) -> bool {
    &&& (after.well_formed())
    &&& (after.same_settings(&before))
    &&& (r is Missed ==> after.pending_writes() == before.pending_writes())
    &&& (match (input, r) {
        (SemaWriteInput::Record(_), SemaWriteOutput::Recorded(_)) => after.pending_writes()
            == before.pending_writes().push(crate::store::WriteView::AssertRecord(after@.records.last())),
        (SemaWriteInput::ChangeCertainty(change), SemaWriteOutput::CertaintyChanged(_)) => after.pending_writes()
            == before.pending_writes().push(
            crate::store::WriteView::MutateRecord(
                after@.records[crate::store::record_position(before@.records, change.record_identifier.0@)],
            ),
        ),
        (SemaWriteInput::BumpImportance(change), SemaWriteOutput::ImportanceBumped(_)) => after.pending_writes()
            == before.pending_writes().push(
            crate::store::WriteView::MutateRecord(
                after@.records[crate::store::record_position(before@.records, change.0.0@)],
            ),
        ),
        (SemaWriteInput::ChangeRecord(change), SemaWriteOutput::RecordChanged(_)) => after.pending_writes()
            == before.pending_writes().push(
            crate::store::WriteView::MutateRecord(
                after@.records[crate::store::record_position(before@.records, change.record_identifier.0@)],
            ),
        ),
        (SemaWriteInput::RegisterReferent(registration), SemaWriteOutput::ReferentRegistered(_)) => if crate::store::settled_position(
            before@.referents,
            registration.referent@,
            registration.aliases@,
        ) is Some {
            after.pending_writes() == before.pending_writes()
        } else {
            after.pending_writes() == before.pending_writes().push(
                if crate::store::has_canonical(before@.referents, registration.referent@) {
                    crate::store::WriteView::MutateReferent(
                        after@.referents[crate::store::canonical_position(before@.referents, registration.referent@)],
                    )
                } else {
                    crate::store::WriteView::AssertReferent(after@.referents.last())
                },
            )
        },
        (SemaWriteInput::Remove(removal), SemaWriteOutput::Removed(_)) => after.pending_writes()
            == before.pending_writes().push(crate::store::WriteView::RetractRecord(removal.record_identifier.0@)),
        _ => true,
    })
    &&& (match input {
        SemaWriteInput::Record(entry) => match r {
            SemaWriteOutput::Recorded(receipt) => {
                &&& canonical_entry(before@.referents, entry@) is Some
                &&& !has_record(before@.records, receipt.record_identifier.0@)
                &&& after@.records == before@.records.push(
                    crate::store::RecordView {
                        identifier: receipt.record_identifier.0@,
                        entry: canonical_entry(before@.referents, entry@)->Some_0,
                    },
                )
                &&& receipt.database_marker.commit_sequence == after@.commit_sequence
            },
            SemaWriteOutput::Missed(text) => after@ == before@ && exists|e: StoreError|
                text@ == #[trigger] error_text(e) && (e is IdentifierMint || (e is UnregisteredReferent
                    && canonical_entry(before@.referents, entry@) is None) || (e is Database
                    && before@.commit_sequence == u64::MAX)),
            _ => false,
        },
        SemaWriteInput::ChangeCertainty(change) => match r {
            SemaWriteOutput::CertaintyChanged(receipt) => receipt.record_identifier
                == change.record_identifier && receipt.certainty == change.certainty
                && has_record(before@.records, change.record_identifier.0@)
                && entry_of(after@.records, change.record_identifier.0@)->Some_0.certainty
                == change.certainty,
            SemaWriteOutput::Missed(text) => after@ == before@ && (!has_record(
                before@.records,
                change.record_identifier.0@,
            ) ==> text@ == not_found_text()) && (has_record(
                before@.records,
                change.record_identifier.0@,
            ) ==> before@.commit_sequence == u64::MAX),
            _ => false,
        },
        SemaWriteInput::BumpImportance(change) => match r {
            SemaWriteOutput::ImportanceBumped(receipt) => receipt.record_identifier
                == change.0 && has_record(before@.records, change.0.0@)
                && entry_of(after@.records, change.0.0@)->Some_0.importance
                == receipt.importance,
            SemaWriteOutput::Missed(text) => after@ == before@ && (!has_record(
                before@.records,
                change.0.0@,
            ) ==> text@ == not_found_text()) && (has_record(before@.records, change.0.0@)
                ==> before@.commit_sequence == u64::MAX),
            _ => false,
        },
        SemaWriteInput::ChangeRecord(change) => match r {
            SemaWriteOutput::RecordChanged(receipt) => receipt.0 == change.record_identifier
                && has_record(before@.records, change.record_identifier.0@) && entry_of(
                after@.records,
                change.record_identifier.0@,
            ) == canonical_entry(before@.referents, change.entry@),
            SemaWriteOutput::Missed(text) => after@ == before@ && (!has_record(
                before@.records,
                change.record_identifier.0@,
            ) ==> text@ == not_found_text()) && (has_record(
                before@.records,
                change.record_identifier.0@,
            ) ==> (canonical_entry(before@.referents, change.entry@) is None
                || before@.commit_sequence == u64::MAX)),
            _ => false,
        },
        SemaWriteInput::RegisterReferent(registration) => match r {
            SemaWriteOutput::ReferentRegistered(receipt) => {
                let settled = crate::store::settled_position(
                    before@.referents,
                    registration.referent@,
                    registration.aliases@,
                );
                &&& after@.records == before@.records
                &&& settled is Some ==> receipt.0@ == before@.referents[settled->Some_0].referent
                    && after@ == before@
                &&& settled is None ==> receipt.0@ == registration.referent@ && after@.referents
                    == crate::store::registry_after(
                    before@.referents,
                    registration.referent@,
                    registration.aliases@,
                )
            },
            SemaWriteOutput::Missed(text) => after@ == before@ && crate::store::settled_position(
                before@.referents,
                registration.referent@,
                registration.aliases@,
            ) is None && exists|e: StoreError|
                text@ == #[trigger] error_text(e) && crate::store::registration_failure(
                    before@,
                    registration.referent@,
                    registration.aliases@,
                    e,
                ),
            _ => false,
        },
        SemaWriteInput::Remove(removal) => match r {
            SemaWriteOutput::Removed(receipt) => {
                let id = removal.record_identifier.0@;
                &&& receipt.0 == removal.record_identifier
                &&& has_record(before@.records, id)
                &&& after@.records == crate::store::without(
                    before@.records,
                    crate::store::record_position(before@.records, id),
                )
                &&& after@.referents == before@.referents
            },
            SemaWriteOutput::Missed(text) => after@ == before@ && (!has_record(
                before@.records,
                removal.record_identifier.0@,
            ) ==> text@ == not_found_text()) && (has_record(before@.records, removal.record_identifier.0@)
                ==> before@.commit_sequence == u64::MAX),
            _ => false,
        },
    })
}

/// What one read query answers over the store.
pub open spec fn read_outcome(store: Store, input: SemaReadInput, r: SemaReadOutput) -> bool {
    &&& (match input {
        SemaReadInput::Observe(query) => match canonical_query(store@.referents, query@) {
            Some(q) => if observation(store@.records, q).len() == 0 {
                r is Missed && r->Missed_0@ == no_match_text()
            } else {
                r is Observed && observed_view(r->Observed_0@) == observation(store@.records, q)
            },
            None => r is Missed,
        },
        SemaReadInput::Lookup(record_identifier) => match entry_of(store@.records, record_identifier.0@) {
            Some(e) => r is Found && r->Found_0.record_identifier == record_identifier
                && r->Found_0.entry@ == e,
            None => r is Missed && r->Missed_0@ == not_found_text(),
        },
        SemaReadInput::Count(query) => match canonical_query(store@.referents, query@) {
            Some(q) => r is Counted && r->Counted_0 == observation(store@.records, q).len(),
            None => r is Missed,
        },
        SemaReadInput::PublicTextSearch(search) => if search_results(store@.records, search@).len() == 0 {
            r is Missed && r->Missed_0@ == no_match_text()
        } else {
            r is PublicTextSearchResults && observed_view(r->PublicTextSearchResults_0@)
                == search_results(store@.records, search@)
        },
    })
}

impl Store {
    /// Carry out one write command. A missing target, or any store
    /// failure, is answered as `Missed` with the store left as it was,
    /// except a record, change, removal or registration that the store
    /// carried out.
    pub fn apply_write(&mut self, input: SemaWriteInput) -> (r: SemaWriteOutput)
        requires
            old(self).well_formed(),
        ensures
            write_outcome(*old(self), *final(self), input, r),
    {
        match input {
            SemaWriteInput::Record(entry) => match self.record_entry(entry) {
                Ok(receipt) => SemaWriteOutput::Recorded(receipt),
                Err(error) => SemaWriteOutput::Missed(missed_for(error)),
            },
            SemaWriteInput::ChangeCertainty(change) => {
                let ghost before = self@.records;
                proof { self.lemma_distinct_rows(); }
                let ghost id = change.record_identifier.0@;
                let ghost certainty = change.certainty;
                match self.change_certainty(change) {
                    Ok(Some(receipt)) => {
                        proof {
                            let i = crate::store::record_position(before, id);
                            crate::store::lemma_entry_of_with_entry(
                                before,
                                i,
                                crate::store::with_certainty(before[i].entry, certainty),
                                id,
                            );
                        }
                        SemaWriteOutput::CertaintyChanged(receipt)
                    },
                    Ok(None) => {
                        proof {
                            reveal_strlit("record not found");
                        }
                        SemaWriteOutput::Missed("record not found".to_string())
                    },
                    Err(error) => SemaWriteOutput::Missed(missed_for(error)),
                }
            },
            SemaWriteInput::BumpImportance(change) => {
                let ghost before = self@.records;
                proof { self.lemma_distinct_rows(); }
                let ghost id = change.0.0@;
                match self.bump_importance(change) {
                    Ok(Some(receipt)) => {
                        proof {
                            let i = crate::store::record_position(before, id);
                            crate::store::lemma_entry_of_with_entry(
                                before,
                                i,
                                crate::store::with_bumped_importance(before[i].entry),
                                id,
                            );
                        }
                        SemaWriteOutput::ImportanceBumped(receipt)
                    },
                    Ok(None) => {
                        proof {
                            reveal_strlit("record not found");
                        }
                        SemaWriteOutput::Missed("record not found".to_string())
                    },
                    Err(error) => SemaWriteOutput::Missed(missed_for(error)),
                }
            },
            SemaWriteInput::ChangeRecord(change) => {
                let ghost before = self@.records;
                proof { self.lemma_distinct_rows(); }
                let ghost registry = self@.referents;
                let ghost id = change.record_identifier.0@;
                let ghost wanted = change.entry@;
                match self.change_record(change) {
                    Ok(Some(receipt)) => {
                        proof {
                            let i = crate::store::record_position(before, id);
                            crate::store::lemma_entry_of_with_entry(
                                before,
                                i,
                                canonical_entry(registry, wanted)->Some_0,
                                id,
                            );
                        }
                        SemaWriteOutput::RecordChanged(receipt)
                    },
                    Ok(None) => {
                        proof {
                            reveal_strlit("record not found");
                        }
                        SemaWriteOutput::Missed("record not found".to_string())
                    },
                    Err(error) => SemaWriteOutput::Missed(missed_for(error)),
                }
            },
            SemaWriteInput::RegisterReferent(registration) => match self.register_referent(
                registration,
            ) {
                Ok(receipt) => SemaWriteOutput::ReferentRegistered(receipt),
                Err(error) => SemaWriteOutput::Missed(missed_for(error)),
            },
            SemaWriteInput::Remove(removal) => match self.remove(removal.record_identifier.0.as_str()) {
                Ok(true) => SemaWriteOutput::Removed(RemoveReceipt(removal.record_identifier)),
                Ok(false) => {
                    proof {
                        reveal_strlit("record not found");
                    }
                    SemaWriteOutput::Missed("record not found".to_string())
                },
                Err(error) => SemaWriteOutput::Missed(missed_for(error)),
            },
        }
    }
}

impl Store {
    /// Answer one read query. An observation that matches nothing, or a
    /// lookup of an identifier with no record, is a miss; so is any store
    /// failure, with its text.
    pub fn observe_read(&self, input: SemaReadInput) -> (r: SemaReadOutput)
        requires
            self.well_formed(),
        ensures
            read_outcome(*self, input, r),
    {
        match input {
            SemaReadInput::Observe(query) => match self.observe(&query) {
                Ok(records) => {
                    if records.len() == 0 {
                        proof {
                            reveal_strlit("no matching record");
                        }
                        SemaReadOutput::Missed("no matching record".to_string())
                    } else {
                        SemaReadOutput::Observed(records)
                    }
                },
                Err(error) => SemaReadOutput::Missed(missed_for(error)),
            },
            SemaReadInput::Lookup(record_identifier) => match self.entry_by_identifier(
                record_identifier.0.as_str(),
            ) {
                Some(entry) => SemaReadOutput::Found(FoundRecord { record_identifier, entry }),
                None => {
                    proof {
                        reveal_strlit("record not found");
                    }
                    SemaReadOutput::Missed("record not found".to_string())
                },
            },
            SemaReadInput::Count(query) => match self.count(&query) {
                Ok(n) => SemaReadOutput::Counted(n),
                Err(error) => SemaReadOutput::Missed(missed_for(error)),
            },
            SemaReadInput::PublicTextSearch(search) => {
                let records = self.public_text_search(&search);
                if records.len() == 0 {
                    proof {
                        reveal_strlit("no matching record");
                    }
                    SemaReadOutput::Missed("no matching record".to_string())
                } else {
                    SemaReadOutput::PublicTextSearchResults(records)
                }
            },
        }
    }
}

} // verus!
