//! The records a guardian judges a write against.
//!
//! For each entry the write would put down, the live records that relate to
//! it are scored: 100 when the record states the same arrow, 30 for a shared
//! domain, 30 for a shared referent, 20 for a shared keyword, 10 when either
//! description holds the other, 1 for the same kind; records below minimum
//! certainty score nothing. The related records come highest score first,
//! then most certain, then most important, then by identifier, at most
//! `GUARDIAN_RECORD_LIMIT` of them. The records an operation touches are
//! added, and the whole bundle is keyed by identifier, in identifier order.

use vstd::prelude::*;

use crate::error::StoreError;
use crate::guardian_journal::{candidate_entries_of, GuardianOperation};
use crate::magnitude::{certainty_admitted, magnitude_rank, Certainty, CertaintySelection, Magnitude};
use crate::query::{Entry, EntryView};
use crate::record::{description_keywords, keywords_contain_any, search_text_found, texts_view};
use crate::record::Description;
use crate::referent::StoredReferentView;
use crate::store::{
    canonical_entry, duplicates, entry_duplicates, entry_of, observed_view, records_view,
    with_description, ObservedRecord, RecordIdentifier, RecordView, Store, StoredRecord,
    TargetClarification,
};
use crate::text::{chars_of, trimmed_text};
use crate::verdict::RecordSet;

verus! {

broadcast use vstd::string::group_string_axioms;

/// The most related records gathered for one candidate entry.
pub const GUARDIAN_RECORD_LIMIT: usize = 64;

/// `a` comes strictly before `b` in code-point order, which is the order
/// `String` sorts in.
pub open spec fn text_precedes(a: Seq<char>, b: Seq<char>) -> bool
    decreases a.len(),
{
    if a.len() == 0 {
        b.len() > 0
    } else if b.len() == 0 {
        false
    } else if (a[0] as u32) < (b[0] as u32) {
        true
    } else if (a[0] as u32) > (b[0] as u32) {
        false
    } else {
        text_precedes(a.drop_first(), b.drop_first())
    }
}

/// Whether `a` sorts strictly before `b`.
pub fn text_less(a: &str, b: &str) -> (r: bool)
    ensures
        r == text_precedes(a@, b@),
{
    let x = chars_of(a);
    let y = chars_of(b);
    let mut i: usize = 0;
    assert(a@.skip(0) =~= a@);
    assert(b@.skip(0) =~= b@);
    loop
        invariant
            x@ == a@,
            y@ == b@,
            i <= x.len(),
            i <= y.len(),
            text_precedes(a@, b@) == text_precedes(a@.skip(i as int), b@.skip(i as int)),
        decreases x.len() - i,
    {
        let ghost sa = a@.skip(i as int);
        let ghost sb = b@.skip(i as int);
        if i == x.len() {
            return i < y.len();
        }
        if i == y.len() {
            return false;
        }
        assert(sa[0] == x@[i as int] && sb[0] == y@[i as int]);
        let ca = x[i] as u32;
        let cb = y[i] as u32;
        if ca < cb {
            return true;
        }
        if ca > cb {
            return false;
        }
        assert(sa.drop_first() =~= a@.skip(i + 1));
        assert(sb.drop_first() =~= b@.skip(i + 1));
        i = i + 1;
    }
}

/// Characters with the same code are the same character.
proof fn lemma_char_code_injective(c1: char, c2: char)
    ensures
        (c1 as u32) == (c2 as u32) ==> c1 == c2,
{
}

/// Of two different texts exactly one precedes the other, and no text
/// precedes itself.
pub proof fn lemma_text_precedes_total(a: Seq<char>, b: Seq<char>)
    ensures
        a != b ==> (text_precedes(a, b) || text_precedes(b, a)),
        !(text_precedes(a, b) && text_precedes(b, a)),
        a == b ==> !text_precedes(a, b),
    decreases a.len(),
{
    if a.len() > 0 && b.len() > 0 {
        if (a[0] as u32) == (b[0] as u32) {
            lemma_char_code_injective(a[0], b[0]);
            lemma_text_precedes_total(a.drop_first(), b.drop_first());
            if a != b {
                if a.drop_first() == b.drop_first() {
                    assert(a =~= seq![a[0]] + a.drop_first());
                    assert(b =~= seq![b[0]] + b.drop_first());
                }
            }
        }
    } else if a.len() == 0 && b.len() == 0 {
        assert(a =~= b);
    }
}

/// Precedence is transitive.
pub proof fn lemma_text_precedes_transitive(a: Seq<char>, b: Seq<char>, c: Seq<char>)
    requires
        text_precedes(a, b),
        text_precedes(b, c),
    ensures
        text_precedes(a, c),
    decreases a.len(),
{
    if a.len() > 0 && b.len() > 0 && c.len() > 0 && (a[0] as u32) == (b[0] as u32) && (b[0] as u32)
        == (c[0] as u32) {
        lemma_text_precedes_transitive(a.drop_first(), b.drop_first(), c.drop_first());
    }
}

/// The records share a domain.
pub open spec fn shares_domain(existing: EntryView, proposed: EntryView) -> bool {
    exists|i: int, j: int|
        0 <= i < existing.domains.len() && 0 <= j < proposed.domains.len()
            && #[trigger] existing.domains[i] == #[trigger] proposed.domains[j]
}

/// The existing record names a referent and the proposed one names it too.
pub open spec fn shares_referent(existing: EntryView, proposed: EntryView) -> bool {
    existing.referents.len() > 0 && exists|i: int|
        0 <= i < existing.referents.len() && proposed.referents.contains(
            #[trigger] existing.referents[i],
        )
}

/// The descriptions share a starred keyword.
pub open spec fn shares_keyword(existing: EntryView, proposed: EntryView) -> bool {
    keywords_contain_any(
        description_keywords(existing.description),
        description_keywords(proposed.description),
    )
}

/// A description holds another's trimmed, non-blank text (ignoring case).
pub open spec fn holds_description_text(description: Seq<char>, other: Seq<char>) -> bool {
    trimmed_text(other).len() > 0 && search_text_found(description, trimmed_text(other))
}

/// Either description holds the other.
pub open spec fn shares_text(existing: EntryView, proposed: EntryView) -> bool {
    holds_description_text(existing.description, proposed.description) || holds_description_text(
        proposed.description,
        existing.description,
    )
}

/// How relevant an existing record is to a proposed entry.
pub open spec fn relevance(existing: EntryView, proposed: EntryView) -> nat {
    if !certainty_admitted(
        CertaintySelection::AtLeastCertainty(Certainty(Magnitude::Minimum)),
        existing.certainty,
    ) {
        0
    } else {
        (if duplicates(existing, proposed) {
            100nat
        } else {
            0nat
        }) + (if shares_domain(existing, proposed) {
            30nat
        } else {
            0nat
        }) + (if shares_referent(existing, proposed) {
            30nat
        } else {
            0nat
        }) + (if shares_keyword(existing, proposed) {
            20nat
        } else {
            0nat
        }) + (if shares_text(existing, proposed) {
            10nat
        } else {
            0nat
        }) + (if existing.kind == proposed.kind {
            1nat
        } else {
            0nat
        })
    }
}

impl Entry {
    fn shares_domain(&self, proposed: &Entry) -> (r: bool)
        ensures
            r == shares_domain(self@, proposed@),
    {
        let mut i: usize = 0;
        while i < self.domains.0.len()
            invariant
                i <= self.domains.0.len(),
                self.domains@.len() == self.domains.0.len(),
                proposed.domains@.len() == proposed.domains.0.len(),
                forall|a: int, b: int|
                    0 <= a < i && 0 <= b < proposed.domains@.len() ==> #[trigger] self.domains@[a]
                        != #[trigger] proposed.domains@[b],
            decreases self.domains.0.len() - i,
        {
            let mut j: usize = 0;
            while j < proposed.domains.0.len()
                invariant
                    i < self.domains.0.len(),
                    j <= proposed.domains.0.len(),
                    self.domains@.len() == self.domains.0.len(),
                    proposed.domains@.len() == proposed.domains.0.len(),
                    forall|a: int, b: int|
                        0 <= a < i && 0 <= b < proposed.domains@.len() ==> #[trigger] self.domains@[a]
                            != #[trigger] proposed.domains@[b],
                    forall|b: int| 0 <= b < j ==> self.domains@[i as int] != #[trigger] proposed.domains@[b],
                decreases proposed.domains.0.len() - j,
            {
                assert(self.domains@[i as int] == self.domains.0@[i as int]@);
                assert(proposed.domains@[j as int] == proposed.domains.0@[j as int]@);
                if self.domains.0[i].same_as(&proposed.domains.0[j]) {
                    assert(self.domains@[i as int] == proposed.domains@[j as int]);
                    assert(self@.domains[i as int] == proposed@.domains[j as int]);
                    assert(shares_domain(self@, proposed@));
                    return true;
                }
                j = j + 1;
            }
            i = i + 1;
        }
        false
    }

    fn shares_referent(&self, proposed: &Entry) -> (r: bool)
        ensures
            r == shares_referent(self@, proposed@),
    {
        if self.referents.0.len() == 0 {
            return false;
        }
        let mut i: usize = 0;
        while i < self.referents.0.len()
            invariant
                i <= self.referents.0.len(),
                self.referents@.len() == self.referents.0.len(),
                forall|a: int| 0 <= a < i ==> !proposed.referents@.contains(#[trigger] self.referents@[a]),
            decreases self.referents.0.len() - i,
        {
            assert(self.referents@[i as int] == self.referents.0@[i as int]@);
            if proposed.referents.contains(&self.referents.0[i]) {
                return true;
            }
            i = i + 1;
        }
        false
    }

    fn shares_keyword(&self, proposed: &Entry) -> (r: bool)
        ensures
            r == shares_keyword(self@, proposed@),
    {
        self.description.keywords().contains_any(&proposed.description.keywords())
    }

    fn shares_text(&self, proposed: &Entry) -> (r: bool)
        ensures
            r == shares_text(self@, proposed@),
    {
        self.description.contains_description_text(&proposed.description)
            || proposed.description.contains_description_text(&self.description)
    }

    /// How relevant this record is to a proposed entry.
    pub fn guardian_relevance_score(&self, proposed: &Entry) -> (r: u64)
        ensures
            r == relevance(self@, proposed@),
    {
        if !CertaintySelection::default_observation_certainty().matches(&self.certainty) {
            return 0;
        }
        let mut score: u64 = 0;
        if entry_duplicates(self, proposed) {
            score = score + 100;
        }
        if self.shares_domain(proposed) {
            score = score + 30;
        }
        if self.shares_referent(proposed) {
            score = score + 30;
        }
        if self.shares_keyword(proposed) {
            score = score + 20;
        }
        if self.shares_text(proposed) {
            score = score + 10;
        }
        if self.kind.same_as(&proposed.kind) {
            score = score + 1;
        }
        score
    }
}

/// `a` (scoring `sa`) comes no later than `b` (scoring `sb`) among related
/// records: by score, then certainty, then importance, then identifier.
pub open spec fn context_at_least(sa: nat, a: RecordView, sb: nat, b: RecordView) -> bool {
    let ca = magnitude_rank(a.entry.certainty.0);
    let cb = magnitude_rank(b.entry.certainty.0);
    let ia = magnitude_rank(a.entry.importance.0);
    let ib = magnitude_rank(b.entry.importance.0);
    ||| sa > sb
    ||| sa == sb && ca > cb
    ||| sa == sb && ca == cb && ia > ib
    ||| sa == sb && ca == cb && ia == ib && !text_precedes(b.identifier, a.identifier)
}

/// Related-record order for a proposed entry.
pub open spec fn related_at_least(proposed: EntryView, a: RecordView, b: RecordView) -> bool {
    context_at_least(relevance(a.entry, proposed), a, relevance(b.entry, proposed), b)
}

/// A sorted sequence with one more row, after every row that comes no
/// later than it.
pub open spec fn insert_related(proposed: EntryView, sorted: Seq<RecordView>, row: RecordView) -> Seq<RecordView>
    decreases sorted.len(),
{
    if sorted.len() == 0 {
        seq![row]
    } else if related_at_least(proposed, sorted.last(), row) {
        sorted.push(row)
    } else {
        insert_related(proposed, sorted.drop_last(), row).push(sorted.last())
    }
}

/// Rows in related-record order.
pub open spec fn sorted_related(proposed: EntryView, rows: Seq<RecordView>) -> Seq<RecordView>
    decreases rows.len(),
{
    if rows.len() == 0 {
        Seq::empty()
    } else {
        insert_related(proposed, sorted_related(proposed, rows.drop_last()), rows.last())
    }
}

/// The records with some relevance, in store order.
pub open spec fn relevant_rows(proposed: EntryView, records: Seq<RecordView>) -> Seq<RecordView>
    decreases records.len(),
{
    if records.len() == 0 {
        Seq::empty()
    } else {
        let rest = relevant_rows(proposed, records.drop_last());
        if relevance(records.last().entry, proposed) > 0 {
            rest.push(records.last())
        } else {
            rest
        }
    }
}

/// The related records of a proposed entry (already in canonical form).
pub open spec fn related_rows(records: Seq<RecordView>, proposed: EntryView) -> Seq<RecordView> {
    let sorted = sorted_related(proposed, relevant_rows(proposed, records));
    if sorted.len() <= GUARDIAN_RECORD_LIMIT {
        sorted
    } else {
        sorted.take(GUARDIAN_RECORD_LIMIT as int)
    }
}

proof fn lemma_insert_related(proposed: EntryView, sorted: Seq<RecordView>, row: RecordView, p: int)
    requires
        0 <= p <= sorted.len(),
        p == 0 || related_at_least(proposed, sorted[p - 1], row),
        forall|j: int| p <= j < sorted.len() ==> !related_at_least(proposed, #[trigger] sorted[j], row),
    ensures
        insert_related(proposed, sorted, row) == sorted.insert(p, row),
    decreases sorted.len(),
{
    if sorted.len() == 0 {
        assert(sorted.insert(p, row) =~= seq![row]);
    } else if p == sorted.len() {
        assert(sorted.insert(p, row) =~= sorted.push(row));
    } else {
        let last = sorted.len() - 1;
        assert(!related_at_least(proposed, sorted[last], row));
        let shorter = sorted.drop_last();
        assert forall|j: int| p <= j < shorter.len() implies !related_at_least(
            proposed,
            #[trigger] shorter[j],
            row,
        ) by {
            assert(shorter[j] == sorted[j]);
        }
        if p > 0 {
            assert(shorter[p - 1] == sorted[p - 1]);
        }
        lemma_insert_related(proposed, shorter, row, p);
        assert(sorted.insert(p, row) =~= shorter.insert(p, row).push(sorted.last()));
    }
}

fn context_at_least_exec(sa: u64, a: &StoredRecord, sb: u64, b: &StoredRecord) -> (r: bool)
    ensures
        r == context_at_least(sa as nat, a@, sb as nat, b@),
{
    if sa != sb {
        return sa > sb;
    }
    let ca = a.entry.certainty_rank();
    let cb = b.entry.certainty_rank();
    if ca != cb {
        return ca > cb;
    }
    let ia = a.entry.importance_rank();
    let ib = b.entry.importance_rank();
    if ia != ib {
        return ia > ib;
    }
    !text_less(b.record_identifier.as_str(), a.record_identifier.as_str())
}

impl Store {
    /// The records related to an entry, most related first, at most
    /// `GUARDIAN_RECORD_LIMIT`; refused when the entry names an
    /// unregistered referent.
    pub fn guardian_records_for_entry(&self, proposed: &Entry) -> (r: Result<RecordSet, StoreError>)
        ensures
            match r {
                Ok(set) => canonical_entry(self@.referents, proposed@) is Some && observed_view(set.0@)
                    == related_rows(self@.records, canonical_entry(self@.referents, proposed@)->Some_0),
                Err(e) => canonical_entry(self@.referents, proposed@) is None && e is UnregisteredReferent,
            },
    {
        let canonical = self.canonicalized_entry(proposed)?;
        let ghost p = canonical@;
        let records = self.records();
        let ghost rv = records_view(records@);
        let mut sorted: Vec<StoredRecord> = Vec::new();
        let mut scores: Vec<u64> = Vec::new();
        let mut i: usize = 0;
        assert(rv.subrange(0, 0) =~= Seq::<RecordView>::empty());
        assert(records_view(sorted@) =~= Seq::<RecordView>::empty());
        while i < records.len()
            invariant
                i <= records.len(),
                rv == records_view(records@),
                p == canonical@,
                scores.len() == sorted.len(),
                forall|j: int|
                    0 <= j < scores.len() ==> #[trigger] scores@[j] == relevance(sorted@[j]@.entry, p),
                records_view(sorted@) == sorted_related(p, relevant_rows(p, rv.subrange(0, i as int))),
            decreases records.len() - i,
        {
            assert(rv.subrange(0, i + 1).drop_last() =~= rv.subrange(0, i as int));
            assert(rv.subrange(0, i + 1).last() == records@[i as int]@);
            let record = &records[i];
            let score = record.entry.guardian_relevance_score(&canonical);
            if score > 0 {
                let ghost before = records_view(sorted@);
                let ghost prior = relevant_rows(p, rv.subrange(0, i as int));
                let mut k: usize = sorted.len();
                loop
                    invariant
                        k <= sorted.len(),
                        scores.len() == sorted.len(),
                        before == records_view(sorted@),
                        forall|j: int|
                            0 <= j < scores.len() ==> #[trigger] scores@[j] == relevance(sorted@[j]@.entry, p),
                        score == relevance(record@.entry, p),
                        forall|j: int| k <= j < before.len() ==> !related_at_least(p, #[trigger] before[j], record@),
                    ensures
                        k <= sorted.len(),
                        k == 0 || related_at_least(p, before[k - 1], record@),
                        forall|j: int| k <= j < before.len() ==> !related_at_least(p, #[trigger] before[j], record@),
                    decreases k,
                {
                    if k == 0 {
                        break;
                    }
                    assert(before[k - 1] == sorted@[k - 1]@);
                    if context_at_least_exec(scores[k - 1], &sorted[k - 1], score, record) {
                        break;
                    }
                    k = k - 1;
                }
                proof {
                    lemma_insert_related(p, before, record@, k as int);
                    assert(relevant_rows(p, rv.subrange(0, i + 1)) =~= prior.push(record@));
                    assert(prior.push(record@).drop_last() =~= prior);
                }
                let ghost old_scores = scores@;
                let ghost old_sorted = sorted@;
                let copy = record.clone();
                sorted.insert(k, copy);
                scores.insert(k, score);
                proof {
                    old_scores.insert_ensures(k as int, score);
                    old_sorted.insert_ensures(k as int, copy);
                    assert(records_view(sorted@) =~= before.insert(k as int, record@));
                    assert forall|j: int| 0 <= j < scores.len() implies #[trigger] scores@[j]
                        == relevance(sorted@[j]@.entry, p) by {
                        if j < k {
                            assert(scores@[j] == old_scores[j]);
                            assert(sorted@[j] == old_sorted[j]);
                        } else if j > k {
                            assert(scores@[j] == old_scores[j - 1]);
                            assert(sorted@[j] == old_sorted[j - 1]);
                        }
                    }
                }
            }
            i = i + 1;
        }
        assert(rv.subrange(0, records.len() as int) =~= rv);
        let mut out: Vec<ObservedRecord> = Vec::new();
        let mut k: usize = 0;
        let ghost all = records_view(sorted@);
        while k < sorted.len() && k < GUARDIAN_RECORD_LIMIT
            invariant
                k <= sorted.len(),
                k <= GUARDIAN_RECORD_LIMIT,
                all == records_view(sorted@),
                observed_view(out@) == all.take(k as int),
            decreases sorted.len() - k,
        {
            let ghost before = observed_view(out@);
            out.push(sorted[k].clone().into_observed_record());
            assert(observed_view(out@) =~= before.push(all[k as int]));
            assert(all.take(k + 1) =~= all.take(k as int).push(all[k as int]));
            k = k + 1;
        }
        assert(all.take(all.len() as int) =~= all);
        Ok(RecordSet(out))
    }
}


/// Whether a row survives in a bundle built by inserting `rows` in order:
/// it is the last row given under its identifier.
pub open spec fn bundled(rows: Seq<RecordView>, row: RecordView) -> bool
    decreases rows.len(),
{
    if rows.len() == 0 {
        false
    } else if rows.last().identifier == row.identifier {
        rows.last() == row
    } else {
        bundled(rows.drop_last(), row)
    }
}

/// Rows strictly ascending by identifier.
pub open spec fn ascending_identifiers(rows: Seq<RecordView>) -> bool {
    forall|i: int, j: int|
        0 <= i < j < rows.len() ==> text_precedes(
            #[trigger] rows[i].identifier,
            #[trigger] rows[j].identifier,
        )
}

/// `out` is what a bundle holds after `rows` were inserted in order: one
/// row per identifier, the last one given, in identifier order.
pub open spec fn is_bundle_of(out: Seq<RecordView>, rows: Seq<RecordView>) -> bool {
    &&& ascending_identifiers(out)
    &&& forall|x: RecordView| #[trigger] out.contains(x) <==> bundled(rows, x)
}

/// Records keyed by identifier: a later record replaces an earlier one
/// with the same identifier; they are handed out in identifier order.
#[derive(Debug)]
pub struct GuardianRecordBundle {
    records: Vec<ObservedRecord>,
}

impl GuardianRecordBundle {
    /// The rows held, in identifier order.
    pub closed spec fn rows(&self) -> Seq<RecordView> {
        observed_view(self.records@)
    }

    pub fn new() -> (r: Self)
        ensures
            is_bundle_of(r.rows(), Seq::empty()),
    {
        let r = GuardianRecordBundle { records: Vec::new() };
        assert(r.rows() =~= Seq::<RecordView>::empty());
        r
    }

    /// Keep a record, replacing any held under the same identifier.
    pub fn insert(&mut self, record: ObservedRecord)
        requires
            ascending_identifiers(old(self).rows()),
        ensures
            ascending_identifiers(final(self).rows()),
            forall|x: RecordView|
                #[trigger] final(self).rows().contains(x) <==> (x == record@ || (old(self).rows().contains(x)
                    && x.identifier != record@.identifier)),
            forall|rows: Seq<RecordView>|
                is_bundle_of(old(self).rows(), rows) ==> is_bundle_of(final(self).rows(), rows.push(record@)),
    {
        self.insert_one(record);
        proof {
            assert forall|rows: Seq<RecordView>| is_bundle_of(old(self).rows(), rows) implies is_bundle_of(
                self.rows(),
                rows.push(record@),
            ) by {
                assert(rows.push(record@).drop_last() =~= rows);
                assert forall|y: RecordView| #[trigger] self.rows().contains(y) <==> bundled(
                    rows.push(record@),
                    y,
                ) by {
                    assert(old(self).rows().contains(y) <==> bundled(rows, y));
                }
            }
        }
    }

    fn insert_one(&mut self, record: ObservedRecord)
        requires
            ascending_identifiers(old(self).rows()),
        ensures
            ascending_identifiers(final(self).rows()),
            forall|x: RecordView|
                #[trigger] final(self).rows().contains(x) <==> (x == record@ || (old(self).rows().contains(x)
                    && x.identifier != record@.identifier)),
    {
        let ghost before = self.rows();
        let ghost row = record@;
        let mut i: usize = 0;
        while i < self.records.len() && text_less(
            self.records[i].record_identifier.0.as_str(),
            record.record_identifier.0.as_str(),
        )
            invariant
                i <= self.records.len(),
                before == observed_view(self.records@),
                row == record@,
                forall|j: int| 0 <= j < i ==> text_precedes(#[trigger] before[j].identifier, row.identifier),
            decreases self.records.len() - i,
        {
            assert(before[i as int] == self.records@[i as int]@);
            i = i + 1;
        }
        if i < self.records.len() {
            assert(before[i as int] == self.records@[i as int]@);
            proof {
                lemma_text_precedes_total(before[i as int].identifier, row.identifier);
            }
        }
        if i < self.records.len() && self.records[i].record_identifier.0 == record.record_identifier.0 {
            self.records.set(i, record);
            proof {
                assert(self.rows() =~= before.update(i as int, row));
                assert forall|a: int, b: int| 0 <= a < b < self.rows().len() implies text_precedes(
                    #[trigger] self.rows()[a].identifier,
                    #[trigger] self.rows()[b].identifier,
                ) by {
                    if a == i {
                        assert(before[a].identifier == row.identifier);
                    } else if b == i {
                        assert(before[b].identifier == row.identifier);
                    }
                }
                assert forall|x: RecordView| #[trigger] self.rows().contains(x) <==> (x == row || (
                before.contains(x) && x.identifier != row.identifier)) by {
                    if self.rows().contains(x) {
                        let k = choose|k: int| 0 <= k < self.rows().len() && self.rows()[k] == x;
                        if k != i {
                            assert(before[k] == x);
                            assert(before.contains(x));
                            if x.identifier == row.identifier {
                                assert(before[i as int].identifier == row.identifier);
                                if k < i {
                                    assert(text_precedes(before[k].identifier, before[i as int].identifier));
                                } else {
                                    assert(text_precedes(before[i as int].identifier, before[k].identifier));
                                }
                                lemma_text_precedes_total(row.identifier, row.identifier);
                            }
                        }
                    }
                    if x == row {
                        assert(self.rows()[i as int] == x);
                    }
                    if before.contains(x) && x.identifier != row.identifier {
                        let k = choose|k: int| 0 <= k < before.len() && before[k] == x;
                        assert(k != i);
                        assert(self.rows()[k] == x);
                    }
                }
            }
        } else {
            let ghost old_records = self.records@;
            self.records.insert(i, record);
            proof {
                old_records.insert_ensures(i as int, record);
                assert(self.rows() =~= before.insert(i as int, row));
                if i < before.len() {
                    assert(before[i as int].identifier != row.identifier);
                    lemma_text_precedes_total(before[i as int].identifier, row.identifier);
                    assert(text_precedes(row.identifier, before[i as int].identifier));
                }
                assert forall|a: int, b: int| 0 <= a < b < self.rows().len() implies text_precedes(
                    #[trigger] self.rows()[a].identifier,
                    #[trigger] self.rows()[b].identifier,
                ) by {
                    if b < i {
                        assert(self.rows()[a] == before[a] && self.rows()[b] == before[b]);
                    } else if b == i {
                        assert(self.rows()[a] == before[a]);
                    } else if a < i {
                        assert(self.rows()[a] == before[a] && self.rows()[b] == before[b - 1]);
                        if b - 1 > i {
                            assert(text_precedes(before[i as int].identifier, before[b - 1].identifier));
                            lemma_text_precedes_transitive(
                                before[a].identifier,
                                row.identifier,
                                before[i as int].identifier,
                            );
                            lemma_text_precedes_transitive(
                                before[a].identifier,
                                before[i as int].identifier,
                                before[b - 1].identifier,
                            );
                        } else {
                            lemma_text_precedes_transitive(
                                before[a].identifier,
                                row.identifier,
                                before[i as int].identifier,
                            );
                        }
                    } else if a == i {
                        assert(self.rows()[b] == before[b - 1]);
                        if b - 1 > i {
                            assert(text_precedes(before[i as int].identifier, before[b - 1].identifier));
                            lemma_text_precedes_transitive(
                                row.identifier,
                                before[i as int].identifier,
                                before[b - 1].identifier,
                            );
                        }
                    } else {
                        assert(self.rows()[a] == before[a - 1] && self.rows()[b] == before[b - 1]);
                    }
                }
                assert forall|x: RecordView| #[trigger] self.rows().contains(x) <==> (x == row || (
                before.contains(x) && x.identifier != row.identifier)) by {
                    if self.rows().contains(x) && x != row {
                        let k = choose|k: int| 0 <= k < self.rows().len() && self.rows()[k] == x;
                        let m = if k < i { k } else { k - 1 };
                        assert(before[m] == x);
                        assert(before.contains(x));
                        if x.identifier == row.identifier {
                            if m < i {
                                assert(text_precedes(before[m].identifier, row.identifier));
                            } else {
                                assert(text_precedes(row.identifier, before[i as int].identifier));
                                if m > i {
                                    assert(text_precedes(before[i as int].identifier, before[m].identifier));
                                    lemma_text_precedes_transitive(
                                        row.identifier,
                                        before[i as int].identifier,
                                        before[m].identifier,
                                    );
                                }
                            }
                            lemma_text_precedes_total(row.identifier, row.identifier);
                        }
                    }
                    if x == row {
                        assert(self.rows()[i as int] == x);
                    }
                    if before.contains(x) && x.identifier != row.identifier {
                        let k = choose|k: int| 0 <= k < before.len() && before[k] == x;
                        if k < i {
                            assert(self.rows()[k] == x);
                        } else {
                            assert(self.rows()[k + 1] == x);
                        }
                    }
                }
            }
        }
    }

    /// Keep every record of a set, in order.
    pub fn extend(&mut self, record_set: RecordSet)
        requires
            ascending_identifiers(old(self).rows()),
        ensures
            ascending_identifiers(final(self).rows()),
            forall|rows: Seq<RecordView>|
                is_bundle_of(old(self).rows(), rows) ==> is_bundle_of(
                    final(self).rows(),
                    rows + observed_view(record_set.0@),
                ),
    {
        let RecordSet(records) = record_set;
        let ghost given = observed_view(records@);
        let ghost start = self.rows();
        let mut i: usize = 0;
        assert(given.subrange(0, 0) =~= Seq::<RecordView>::empty());
        while i < records.len()
            invariant
                i <= records.len(),
                given == observed_view(records@),
                ascending_identifiers(self.rows()),
                forall|rows: Seq<RecordView>|
                    is_bundle_of(start, rows) ==> is_bundle_of(
                        self.rows(),
                        rows + given.subrange(0, i as int),
                    ),
            decreases records.len() - i,
        {
            let ghost mid = self.rows();
            let ghost x = records@[i as int]@;
            self.insert(records[i].clone());
            proof {
                assert forall|rows: Seq<RecordView>| is_bundle_of(start, rows) implies is_bundle_of(
                    self.rows(),
                    rows + given.subrange(0, i + 1),
                ) by {
                    let prev = rows + given.subrange(0, i as int);
                    assert(is_bundle_of(mid, prev));
                    assert(rows + given.subrange(0, i + 1) =~= prev.push(x));
                }
            }
            i = i + 1;
        }
        assert(given.subrange(0, records.len() as int) =~= given);
    }

    /// The records held, in identifier order.
    pub fn into_record_set(self) -> (r: RecordSet)
        ensures
            observed_view(r.0@) == self.rows(),
    {
        RecordSet(self.records)
    }
}


/// The row stored under an identifier, as a sequence of at most one row.
pub open spec fn current_rows(records: Seq<RecordView>, id: Seq<char>) -> Seq<RecordView> {
    match entry_of(records, id) {
        Some(e) => seq![RecordView { identifier: id, entry: e }],
        None => Seq::empty(),
    }
}

/// The related rows of each entry in turn; `None` when an entry names an
/// unregistered referent.
pub open spec fn entries_rows(
    records: Seq<RecordView>,
    registry: Seq<StoredReferentView>,
    entries: Seq<EntryView>,
) -> Option<Seq<RecordView>>
    decreases entries.len(),
{
    if entries.len() == 0 {
        Some(Seq::empty())
    } else {
        match entries_rows(records, registry, entries.drop_last()) {
            Some(rows) => match canonical_entry(registry, entries.last()) {
                Some(c) => Some(rows + related_rows(records, c)),
                None => None,
            },
            None => None,
        }
    }
}

/// For a record about to take a new description: the record itself, then
/// the records related to it as revised; nothing when there is no such
/// record.
pub open spec fn revised_rows(
    records: Seq<RecordView>,
    registry: Seq<StoredReferentView>,
    id: Seq<char>,
    description: Seq<char>,
) -> Option<Seq<RecordView>> {
    match entry_of(records, id) {
        Some(e) => match canonical_entry(registry, with_description(e, description)) {
            Some(c) => Some(seq![RecordView { identifier: id, entry: e }] + related_rows(records, c)),
            None => None,
        },
        None => Some(Seq::empty()),
    }
}

/// The revised rows of each target in turn.
pub open spec fn targets_rows(
    records: Seq<RecordView>,
    registry: Seq<StoredReferentView>,
    targets: Seq<TargetClarification>,
) -> Option<Seq<RecordView>>
    decreases targets.len(),
{
    if targets.len() == 0 {
        Some(Seq::empty())
    } else {
        match targets_rows(records, registry, targets.drop_last()) {
            Some(rows) => match revised_rows(
                records,
                registry,
                targets.last().record_identifier.0@,
                targets.last().description@,
            ) {
                Some(extra) => Some(rows + extra),
                None => None,
            },
            None => None,
        }
    }
}

/// The stored rows of each identifier in turn.
pub open spec fn retired_rows(records: Seq<RecordView>, ids: Seq<RecordIdentifier>) -> Seq<RecordView>
    decreases ids.len(),
{
    if ids.len() == 0 {
        Seq::empty()
    } else {
        retired_rows(records, ids.drop_last()) + current_rows(records, ids.last().0@)
    }
}

/// The rows gathered for an operation, in the order they are bundled: the
/// related records of every entry it would write, then the records it
/// touches (with the records related to their revised descriptions).
pub open spec fn operation_rows(
    records: Seq<RecordView>,
    registry: Seq<StoredReferentView>,
    operation: GuardianOperation,
) -> Option<Seq<RecordView>> {
    match entries_rows(records, registry, candidate_entries_of(operation)) {
        None => None,
        Some(base) => match operation {
            GuardianOperation::Clarify(c) => match revised_rows(
                records,
                registry,
                c.record_identifier.0@,
                c.description@,
            ) {
                Some(extra) => Some(base + extra),
                None => None,
            },
            GuardianOperation::ResolveClarification(resolution) => match targets_rows(
                records,
                registry,
                resolution.target_clarifications@,
            ) {
                Some(extra) => Some(
                    base + current_rows(records, resolution.clarification_record_identifier.0@) + extra,
                ),
                None => None,
            },
            GuardianOperation::Supersede(supersession) => Some(
                base + retired_rows(records, supersession.retired_identifiers@),
            ),
            GuardianOperation::Retire(retirement) => Some(
                base + current_rows(records, retirement.record_identifier.0@),
            ),
            GuardianOperation::ChangeRecord(change) => Some(
                base + current_rows(records, change.record_identifier.0@),
            ),
            _ => Some(base),
        },
    }
}

impl Store {
    /// The record stored under an identifier, as a read returns it.
    pub fn observed_record_by_identifier(&self, identifier: &str) -> (r: Option<ObservedRecord>)
        requires
            self.well_formed(),
        ensures
            match r {
                Some(record) => entry_of(self@.records, identifier@) == Some(record.entry@)
                    && record.record_identifier.0@ == identifier@,
                None => entry_of(self@.records, identifier@) is None,
            },
    {
        match self.entry_by_identifier(identifier) {
            Some(entry) => Some(ObservedRecord { record_identifier: RecordIdentifier(identifier.to_owned()), entry }),
            None => None,
        }
    }

    /// Bundle the record stored under an identifier, if any.
    fn bundle_current(&self, bundle: &mut GuardianRecordBundle, identifier: &str)
        requires
            self.well_formed(),
            ascending_identifiers(old(bundle).rows()),
        ensures
            ascending_identifiers(final(bundle).rows()),
            forall|rows: Seq<RecordView>|
                is_bundle_of(old(bundle).rows(), rows) ==> is_bundle_of(
                    final(bundle).rows(),
                    rows + current_rows(self@.records, identifier@),
                ),
    {
        match self.observed_record_by_identifier(identifier) {
            Some(current) => {
                let ghost row = current@;
                bundle.insert(current);
                proof {
                    assert forall|rows: Seq<RecordView>| is_bundle_of(old(bundle).rows(), rows) implies is_bundle_of(
                        bundle.rows(),
                        rows + current_rows(self@.records, identifier@),
                    ) by {
                        assert(rows + current_rows(self@.records, identifier@) =~= rows.push(row));
                    }
                }
            },
            None => {
                proof {
                    assert forall|rows: Seq<RecordView>| is_bundle_of(old(bundle).rows(), rows) implies is_bundle_of(
                        bundle.rows(),
                        rows + current_rows(self@.records, identifier@),
                    ) by {
                        assert(rows + current_rows(self@.records, identifier@) =~= rows);
                    }
                }
            },
        }
    }

    /// Bundle the records related to an entry.
    fn bundle_related(&self, bundle: &mut GuardianRecordBundle, entry: &Entry) -> (r: Result<(), StoreError>)
        requires
            ascending_identifiers(old(bundle).rows()),
        ensures
            ascending_identifiers(final(bundle).rows()),
            match r {
                Ok(()) => canonical_entry(self@.referents, entry@) is Some && forall|rows: Seq<RecordView>|
                    is_bundle_of(old(bundle).rows(), rows) ==> is_bundle_of(
                        final(bundle).rows(),
                        rows + related_rows(self@.records, canonical_entry(self@.referents, entry@)->Some_0),
                    ),
                Err(e) => canonical_entry(self@.referents, entry@) is None && e is UnregisteredReferent,
            },
    {
        let set = self.guardian_records_for_entry(entry)?;
        bundle.extend(set);
        Ok(())
    }

    /// Bundle a record about to take a new description, and the records
    /// related to it as revised.
    fn bundle_revised(
        &self,
        bundle: &mut GuardianRecordBundle,
        identifier: &str,
        description: &Description,
    ) -> (r: Result<(), StoreError>)
        requires
            self.well_formed(),
            ascending_identifiers(old(bundle).rows()),
        ensures
            ascending_identifiers(final(bundle).rows()),
            match r {
                Ok(()) => revised_rows(self@.records, self@.referents, identifier@, description@) is Some
                    && forall|rows: Seq<RecordView>|
                    is_bundle_of(old(bundle).rows(), rows) ==> is_bundle_of(
                        final(bundle).rows(),
                        rows + revised_rows(self@.records, self@.referents, identifier@, description@)->Some_0,
                    ),
                Err(e) => revised_rows(self@.records, self@.referents, identifier@, description@) is None
                    && e is UnregisteredReferent,
            },
    {
        match self.observed_record_by_identifier(identifier) {
            Some(current) => {
                let ghost row = current@;
                let mut candidate = current.entry.clone();
                candidate.description = description.clone();
                assert(candidate@ == with_description(row.entry, description@));
                let ghost mid_start = bundle.rows();
                bundle.insert(current);
                let ghost mid = bundle.rows();
                self.bundle_related(bundle, &candidate)?;
                proof {
                    let extra = revised_rows(self@.records, self@.referents, identifier@, description@)->Some_0;
                    let related = related_rows(
                        self@.records,
                        canonical_entry(self@.referents, candidate@)->Some_0,
                    );
                    assert forall|rows: Seq<RecordView>| is_bundle_of(old(bundle).rows(), rows) implies is_bundle_of(
                        bundle.rows(),
                        rows + extra,
                    ) by {
                        assert(is_bundle_of(mid, rows.push(row)));
                        assert(rows + extra =~= rows.push(row) + related);
                    }
                }
                Ok(())
            },
            None => {
                proof {
                    assert forall|rows: Seq<RecordView>| is_bundle_of(old(bundle).rows(), rows) implies is_bundle_of(
                        bundle.rows(),
                        rows + revised_rows(self@.records, self@.referents, identifier@, description@)->Some_0,
                    ) by {
                        assert(rows + Seq::<RecordView>::empty() =~= rows);
                    }
                }
                Ok(())
            },
        }
    }

    /// The records a guardian judges an operation against: those related
    /// to each entry it would write and those it touches, one per
    /// identifier, in identifier order. Refused when an entry names an
    /// unregistered referent.
    pub fn guardian_records_for_operation(&self, operation: &GuardianOperation) -> (r: Result<
        RecordSet,
        StoreError,
    >)
        requires
            self.well_formed(),
        ensures
            match r {
                Ok(set) => operation_rows(self@.records, self@.referents, *operation) is Some
                    && is_bundle_of(
                    observed_view(set.0@),
                    operation_rows(self@.records, self@.referents, *operation)->Some_0,
                ),
                Err(e) => operation_rows(self@.records, self@.referents, *operation) is None
                    && e is UnregisteredReferent,
            },
    {
        let ghost records = self@.records;
        let ghost registry = self@.referents;
        let mut bundle = GuardianRecordBundle::new();
        let candidates = operation.candidate_entries();
        let ghost cv = candidates@.map_values(|e: Entry| e@);
        let mut i: usize = 0;
        assert(cv.subrange(0, 0) =~= Seq::<EntryView>::empty());
        while i < candidates.len()
            invariant
                i <= candidates.len(),
                self.well_formed(),
                records == self@.records,
                registry == self@.referents,
                cv == candidates@.map_values(|e: Entry| e@),
                cv == candidate_entries_of(*operation),
                entries_rows(records, registry, cv.subrange(0, i as int)) is Some,
                is_bundle_of(bundle.rows(), entries_rows(records, registry, cv.subrange(0, i as int))->Some_0),
            decreases candidates.len() - i,
        {
            let ghost prior = entries_rows(records, registry, cv.subrange(0, i as int))->Some_0;
            let ghost before = bundle.rows();
            assert(cv.subrange(0, i + 1).drop_last() =~= cv.subrange(0, i as int));
            assert(cv.subrange(0, i + 1).last() == candidates@[i as int]@);
            let settled = self.bundle_related(&mut bundle, &candidates[i]);
            match settled {
                Ok(()) => {},
                Err(e) => {
                    proof {
                        assert(cv[i as int] == candidates@[i as int]@);
                        lemma_entries_rows_fail(records, registry, cv, (i + 1) as int);
                        assert(cv == candidate_entries_of(*operation));
                    }
                    return Err(e);
                },
            }
            assert(is_bundle_of(before, prior));
            i = i + 1;
        }
        assert(cv.subrange(0, candidates.len() as int) =~= cv);
        let ghost base = entries_rows(records, registry, cv)->Some_0;
        match operation {
            GuardianOperation::Clarify(clarification) => {
                let ghost before = bundle.rows();
                self.bundle_revised(&mut bundle, clarification.record_identifier.0.as_str(), &clarification.description)?;
                assert(is_bundle_of(before, base));
            },
            GuardianOperation::ResolveClarification(resolution) => {
                self.bundle_current(&mut bundle, resolution.clarification_record_identifier.0.as_str());
                let ghost start = base + current_rows(records, resolution.clarification_record_identifier.0@);
                let ghost targets = resolution.target_clarifications@;
                let mut k: usize = 0;
                assert(targets.subrange(0, 0) =~= Seq::<TargetClarification>::empty());
                assert(start + Seq::<RecordView>::empty() =~= start);
                while k < resolution.target_clarifications.len()
                    invariant
                        k <= resolution.target_clarifications.len(),
                        self.well_formed(),
                        records == self@.records,
                        registry == self@.referents,
                        targets == resolution.target_clarifications@,
                        cv == candidate_entries_of(*operation),
                        entries_rows(records, registry, cv) == Some(base),
                        *operation == GuardianOperation::ResolveClarification(*resolution),
                        targets_rows(records, registry, targets.subrange(0, k as int)) is Some,
                        is_bundle_of(
                            bundle.rows(),
                            start + targets_rows(records, registry, targets.subrange(0, k as int))->Some_0,
                        ),
                    decreases resolution.target_clarifications.len() - k,
                {
                    let ghost prior = targets_rows(records, registry, targets.subrange(0, k as int))->Some_0;
                    let ghost before = bundle.rows();
                    assert(targets.subrange(0, k + 1).drop_last() =~= targets.subrange(0, k as int));
                    assert(targets.subrange(0, k + 1).last() == targets[k as int]);
                    let target = &resolution.target_clarifications[k];
                    let revised = self.bundle_revised(
                        &mut bundle,
                        target.record_identifier.0.as_str(),
                        &target.description,
                    );
                    match revised {
                        Ok(()) => {},
                        Err(e) => {
                            proof {
                                lemma_targets_rows_fail(records, registry, targets, (k + 1) as int);
                                assert(cv == candidate_entries_of(*operation));
                                assert(entries_rows(records, registry, cv) is Some);
                            }
                            return Err(e);
                        },
                    }
                    proof {
                        let extra = revised_rows(
                            records,
                            registry,
                            targets[k as int].record_identifier.0@,
                            targets[k as int].description@,
                        )->Some_0;
                        assert(is_bundle_of(before, start + prior));
                        assert(start + prior + extra =~= start + (prior + extra));
                    }
                    k = k + 1;
                }
                assert(targets.subrange(0, resolution.target_clarifications.len() as int) =~= targets);
                assert(base + current_rows(records, resolution.clarification_record_identifier.0@) + targets_rows(
                    records,
                    registry,
                    targets,
                )->Some_0 =~= start + targets_rows(records, registry, targets)->Some_0);
            },
            GuardianOperation::Supersede(supersession) => {
                let ghost ids = supersession.retired_identifiers@;
                let mut k: usize = 0;
                assert(ids.subrange(0, 0) =~= Seq::<RecordIdentifier>::empty());
                assert(base + Seq::<RecordView>::empty() =~= base);
                while k < supersession.retired_identifiers.len()
                    invariant
                        k <= supersession.retired_identifiers.len(),
                        self.well_formed(),
                        records == self@.records,
                        ids == supersession.retired_identifiers@,
                        is_bundle_of(bundle.rows(), base + retired_rows(records, ids.subrange(0, k as int))),
                    decreases supersession.retired_identifiers.len() - k,
                {
                    let ghost before = bundle.rows();
                    let ghost prior = retired_rows(records, ids.subrange(0, k as int));
                    assert(ids.subrange(0, k + 1).drop_last() =~= ids.subrange(0, k as int));
                    assert(ids.subrange(0, k + 1).last() == ids[k as int]);
                    self.bundle_current(&mut bundle, supersession.retired_identifiers[k].0.as_str());
                    proof {
                        assert(is_bundle_of(before, base + prior));
                        assert(base + prior + current_rows(records, ids[k as int].0@) =~= base + retired_rows(
                            records,
                            ids.subrange(0, k + 1),
                        ));
                    }
                    k = k + 1;
                }
                assert(ids.subrange(0, supersession.retired_identifiers.len() as int) =~= ids);
            },
            GuardianOperation::Retire(retirement) => {
                let ghost before = bundle.rows();
                self.bundle_current(&mut bundle, retirement.record_identifier.0.as_str());
                assert(is_bundle_of(before, base));
            },
            GuardianOperation::ChangeRecord(change) => {
                let ghost before = bundle.rows();
                self.bundle_current(&mut bundle, change.record_identifier.0.as_str());
                assert(is_bundle_of(before, base));
            },
            _ => {},
        }
        Ok(bundle.into_record_set())
    }
}

/// An entry that fails to resolve makes every longer prefix fail.
proof fn lemma_entries_rows_fail(
    records: Seq<RecordView>,
    registry: Seq<StoredReferentView>,
    entries: Seq<EntryView>,
    n: int,
)
    requires
        0 < n <= entries.len(),
        canonical_entry(registry, entries[n - 1]) is None,
    ensures
        entries_rows(records, registry, entries) is None,
    decreases entries.len(),
{
    if n < entries.len() {
        lemma_entries_rows_fail(records, registry, entries.drop_last(), n);
    }
}

/// A target that fails to resolve makes every longer prefix fail.
proof fn lemma_targets_rows_fail(
    records: Seq<RecordView>,
    registry: Seq<StoredReferentView>,
    targets: Seq<TargetClarification>,
    n: int,
)
    requires
        0 < n <= targets.len(),
        revised_rows(records, registry, targets[n - 1].record_identifier.0@, targets[n - 1].description@)
            is None,
    ensures
        targets_rows(records, registry, targets) is None,
    decreases targets.len(),
{
    if n < targets.len() {
        lemma_targets_rows_fail(records, registry, targets.drop_last(), n);
    }
}

} // verus!
