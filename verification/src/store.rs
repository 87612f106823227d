//! The SEMA store: the live record table and the referent registry, with
//! the reads and writes the Nexus plane issues against them.
//!
//! The tables are held here in commit order; every write is also queued as
//! a `StoreWrite`, which the daemon applies to the durable database file in
//! the same order.

use vstd::prelude::*;

use crate::digest::{state_digest, state_digest_value, ArchivedRow};
use crate::error::StoreError;
use crate::guardian_journal::{GuardianDecision, GuardianJournal};
use crate::justification::Justification;
use crate::identifier::{text_listed, well_formed_identifier, RecordIdentifierMint};
use crate::magnitude::{magnitude_rank, magnitude_successor, Certainty, Importance};
use crate::query::{query_admits, Entry, EntryView, Query, QueryView, ReferentSelection, ReferentSelectionView};
use crate::record::{
    texts_view, Description, Referent, Referents,
};
use crate::referent::{
    canonical_names, canonicalized_referents, registry_view, StoredReferent, StoredReferentView,
    all_registered,
};

verus! {

broadcast use vstd::string::group_string_axioms;

/// The identifier of a record.
#[derive(Debug)]
pub struct RecordIdentifier(pub String);

impl Clone for RecordIdentifier {
    fn clone(&self) -> (r: Self)
        ensures
            r == *self,
    {
        RecordIdentifier(self.0.clone())
    }
}

impl RecordIdentifier {
    pub fn new(identifier: String) -> (r: Self)
        ensures
            r.0 == identifier,
    {
        RecordIdentifier(identifier)
    }

    pub fn payload(&self) -> (r: &String)
        ensures
            r == &self.0,
    {
        &self.0
    }
}

/// One row of the live record table.
#[derive(Debug)]
pub struct StoredRecord {
    pub record_identifier: String,
    pub entry: Entry,
}

/// A record as a read returns it.
#[derive(Debug)]
pub struct ObservedRecord {
    pub record_identifier: RecordIdentifier,
    pub entry: Entry,
}

/// The content of a record row.
pub struct RecordView {
    pub identifier: Seq<char>,
    pub entry: EntryView,
}

impl View for StoredRecord {
    type V = RecordView;

    open spec fn view(&self) -> RecordView {
        RecordView { identifier: self.record_identifier@, entry: self.entry@ }
    }
}

impl View for ObservedRecord {
    type V = RecordView;

    open spec fn view(&self) -> RecordView {
        RecordView { identifier: self.record_identifier.0@, entry: self.entry@ }
    }
}

impl Clone for ObservedRecord {
    fn clone(&self) -> (r: Self)
        ensures
            r@ == self@,
    {
        ObservedRecord { record_identifier: self.record_identifier.clone(), entry: self.entry.clone() }
    }
}

impl Clone for StoredRecord {
    fn clone(&self) -> (r: Self)
        ensures
            r@ == self@,
    {
        StoredRecord { record_identifier: self.record_identifier.clone(), entry: self.entry.clone() }
    }
}

impl StoredRecord {
    pub fn new(record_identifier: String, entry: Entry) -> (r: Self)
        ensures
            r.record_identifier == record_identifier,
            r.entry == entry,
    {
        StoredRecord { record_identifier, entry }
    }

    pub fn into_observed_record(self) -> (r: ObservedRecord)
        ensures
            r@ == self@,
    {
        ObservedRecord {
            record_identifier: RecordIdentifier(self.record_identifier),
            entry: self.entry,
        }
    }
}

/// Where the separate archive database lives.
#[derive(Debug)]
pub enum ArchiveDatabaseTarget {
    /// Beside the live database, as `<stem>.archive.sema`.
    Default,
    /// At the owner-supplied path.
    Path(String),
}

impl Clone for ArchiveDatabaseTarget {
    fn clone(&self) -> (r: Self)
        ensures
            r == *self,
    {
        match self {
            ArchiveDatabaseTarget::Default => ArchiveDatabaseTarget::Default,
            ArchiveDatabaseTarget::Path(path) => ArchiveDatabaseTarget::Path(path.clone()),
        }
    }
}

/// The commit marker of the live database: its commit sequence and a digest
/// of its content.
#[derive(Clone, Copy, Debug, PartialEq, Eq, Structural)]
pub struct DatabaseMarker {
    pub commit_sequence: u64,
    pub state_digest: u64,
}

/// One durable write, queued for the database file.
#[derive(Debug)]
pub enum StoreWrite {
    /// Add a new row to the live record table.
    AssertRecord(StoredRecord),
    /// Replace the row with the same identifier.
    MutateRecord(StoredRecord),
    /// Delete the row with this identifier.
    RetractRecord(String),
    /// Add a new referent registration.
    AssertReferent(StoredReferent),
    /// Replace the registration with the same canonical name.
    MutateReferent(StoredReferent),
    /// Copy a record into the separate archive database at the path.
    ArchiveRecord { archive_path: String, record: StoredRecord },
}

/// The content of a queued write.
pub enum WriteView {
    AssertRecord(RecordView),
    MutateRecord(RecordView),
    RetractRecord(Seq<char>),
    AssertReferent(StoredReferentView),
    MutateReferent(StoredReferentView),
    ArchiveRecord(Seq<char>, RecordView),
}

impl View for StoreWrite {
    type V = WriteView;

    open spec fn view(&self) -> WriteView {
        match self {
            StoreWrite::AssertRecord(record) => WriteView::AssertRecord(record@),
            StoreWrite::MutateRecord(record) => WriteView::MutateRecord(record@),
            StoreWrite::RetractRecord(identifier) => WriteView::RetractRecord(identifier@),
            StoreWrite::AssertReferent(referent) => WriteView::AssertReferent(referent@),
            StoreWrite::MutateReferent(referent) => WriteView::MutateReferent(referent@),
            StoreWrite::ArchiveRecord { archive_path, record } => WriteView::ArchiveRecord(
                archive_path@,
                record@,
            ),
        }
    }
}

/// The content of the store.
pub struct StoreView {
    pub records: Seq<RecordView>,
    pub referents: Seq<StoredReferentView>,
    pub commit_sequence: nat,
}

/// The records, each by its content.
pub open spec fn records_view(records: Seq<StoredRecord>) -> Seq<RecordView> {
    records.map_values(|r: StoredRecord| r@)
}

/// No two rows share an identifier.
pub open spec fn distinct_identifiers(records: Seq<RecordView>) -> bool {
    forall|i: int, j: int|
        0 <= i < records.len() && 0 <= j < records.len() && i != j ==> #[trigger] records[i].identifier
            != #[trigger] records[j].identifier
}

/// No two registrations share a canonical name.
pub open spec fn distinct_canonical_names(referents: Seq<StoredReferentView>) -> bool {
    forall|i: int, j: int|
        0 <= i < referents.len() && 0 <= j < referents.len() && i != j
            ==> #[trigger] referents[i].referent != #[trigger] referents[j].referent
}

/// Whether some row has the identifier.
pub open spec fn has_record(records: Seq<RecordView>, identifier: Seq<char>) -> bool {
    exists|i: int| 0 <= i < records.len() && #[trigger] records[i].identifier == identifier
}

/// The row with the identifier (meaningful when one exists).
pub open spec fn record_position(records: Seq<RecordView>, identifier: Seq<char>) -> int {
    choose|i: int| 0 <= i < records.len() && #[trigger] records[i].identifier == identifier
}

proof fn lemma_record_position(records: Seq<RecordView>, identifier: Seq<char>, i: int)
    requires
        distinct_identifiers(records),
        0 <= i < records.len(),
        records[i].identifier == identifier,
    ensures
        has_record(records, identifier),
        record_position(records, identifier) == i,
{
    let k = record_position(records, identifier);
    assert(records[k].identifier == identifier);
    if k != i {
        assert(records[k].identifier != records[i].identifier);
    }
}

/// The entry stored under the identifier, if any.
pub open spec fn entry_of(records: Seq<RecordView>, identifier: Seq<char>) -> Option<EntryView> {
    if has_record(records, identifier) {
        Some(records[record_position(records, identifier)].entry)
    } else {
        None
    }
}

/// The sort key of a record: certainty rank, then importance rank.
pub open spec fn rank_key(e: EntryView) -> nat {
    magnitude_rank(e.certainty.0) * 8 + magnitude_rank(e.importance.0)
}

/// The records whose sort key is `key`, in store order.
pub open spec fn with_rank_key(records: Seq<RecordView>, key: nat) -> Seq<RecordView>
    decreases records.len(),
{
    if records.len() == 0 {
        Seq::empty()
    } else {
        let rest = with_rank_key(records.drop_last(), key);
        if rank_key(records.last().entry) == key {
            rest.push(records.last())
        } else {
            rest
        }
    }
}

/// The first `n` rank groups, highest key first: the records of key 63,
/// then of key 62, and so on, each group in store order. `ranked(records,
/// 64)` is the stable descending sort by (certainty rank, importance rank).
pub open spec fn ranked(records: Seq<RecordView>, n: nat) -> Seq<RecordView>
    decreases n,
{
    if n == 0 {
        Seq::empty()
    } else {
        ranked(records, (n - 1) as nat) + with_rank_key(records, (64 - n) as nat)
    }
}

/// The records a query admits, in store order.
pub open spec fn selected(records: Seq<RecordView>, query: QueryView) -> Seq<RecordView>
    decreases records.len(),
{
    if records.len() == 0 {
        Seq::empty()
    } else {
        let rest = selected(records.drop_last(), query);
        if query_admits(query, records.last().entry) {
            rest.push(records.last())
        } else {
            rest
        }
    }
}

/// The records a query selects, as an observation returns them: matching
/// records, most certain first, then most important, ties in store order.
pub open spec fn observation(records: Seq<RecordView>, query: QueryView) -> Seq<RecordView> {
    ranked(selected(records, query), 64)
}

/// What `Path::file_stem` gives for a path, lossily decoded: its last
/// component without the extension, if it has one.
pub uninterp spec fn file_stem_text(path: Seq<char>) -> Option<Seq<char>>;

/// What `Path::with_file_name` gives for a path and a file name.
pub uninterp spec fn sibling_path_text(path: Seq<char>, file_name: Seq<char>) -> Seq<char>;

/// The file stem of a path (its last component without the extension), as
/// `Path::file_stem` gives it, lossily decoded. The contract names the
/// result and claims nothing more of it.
#[verifier::external_body]
pub(crate) fn file_stem(path: &str) -> (r: Option<String>)
    ensures
        match r {
            Some(stem) => file_stem_text(path@) == Some(stem@),
            None => file_stem_text(path@).is_none(),
        },
{
    match std::path::Path::new(path).file_stem() {
        Some(stem) => Some(stem.to_string_lossy().into_owned()),
        None => None,
    }
}

/// The path with its last component replaced by `file_name`, as
/// `Path::with_file_name` gives it. The contract names the result and claims
/// nothing more of it.
#[verifier::external_body]
pub(crate) fn sibling_path(path: &str, file_name: &str) -> (r: String)
    ensures
        r@ == sibling_path_text(path@, file_name@),
{
    std::path::Path::new(path).with_file_name(file_name).to_string_lossy().into_owned()
}

/// The path of the archive database for a live database path and target.
pub open spec fn archive_path_of(live_path: Seq<char>, target: ArchiveDatabaseTarget) -> Seq<char> {
    match target {
        ArchiveDatabaseTarget::Default => {
            let stem = match file_stem_text(live_path) {
                Some(stem) => stem,
                None => "spirit"@,
            };
            sibling_path_text(live_path, stem + ".archive.sema"@)
        },
        ArchiveDatabaseTarget::Path(path) => path@,
    }
}

/// The decimal digits of a number.
pub open spec fn decimal_text(n: nat) -> Seq<char>
    decreases n,
{
    if n < 10 {
        seq![(('0' as u32) + n) as char]
    } else {
        decimal_text(n / 10).push((('0' as u32) + n % 10) as char)
    }
}

/// The archive key of a live record: its identifier, a hyphen, and the
/// live commit sequence at archiving time.
pub open spec fn archive_identifier_text(identifier: Seq<char>, commit_sequence: nat) -> Seq<char> {
    identifier + "-"@ + decimal_text(commit_sequence)
}

pub fn decimal_of(n: u64) -> (r: String)
    ensures
        r@ == decimal_text(n as nat),
    decreases n,
{
    let digit: u32 = (n % 10) as u32;
    let c = crate::identifier::digit_character(digit as u8);
    proof {
        assert('0' as u32 == 48);
    }
    if n < 10 {
        let mut s = String::new();
        crate::identifier::push_char(&mut s, c);
        assert(s@ =~= seq![c]);
        s
    } else {
        let mut s = decimal_of(n / 10);
        crate::identifier::push_char(&mut s, c);
        s
    }
}

/// The store. Its records and registrations are kept in commit order.
#[derive(Debug)]
pub struct Store {
    path: String,
    records: Vec<StoredRecord>,
    referents: Vec<StoredReferent>,
    commit_sequence: u64,
    state_digest: u64,
    archive_target: ArchiveDatabaseTarget,
    writes: Vec<StoreWrite>,
    guardian_journal: GuardianJournal,
}

impl View for Store {
    type V = StoreView;

    closed spec fn view(&self) -> StoreView {
        StoreView {
            records: records_view(self.records@),
            referents: registry_view(self.referents@),
            commit_sequence: self.commit_sequence as nat,
        }
    }
}

impl Store {
    /// The store is well formed: identifiers and canonical names are unique.
    pub closed spec fn well_formed(&self) -> bool {
        &&& distinct_identifiers(records_view(self.records@))
        &&& distinct_canonical_names(registry_view(self.referents@))
        &&& self.guardian_journal.well_formed()
    }

    /// Every store has its own settings.
    pub proof fn lemma_same_settings_reflexive(&self)
        ensures
            self.same_settings(self),
    {
    }

    /// Having the same settings is transitive.
    pub proof fn lemma_same_settings_transitive(a: &Store, b: &Store, c: &Store)
        requires
            a.same_settings(b),
            b.same_settings(c),
        ensures
            a.same_settings(c),
    {
    }

    /// Same settings means the same configuration and the same journal.
    pub proof fn lemma_same_settings_configuration(a: &Store, b: &Store)
        requires
            a.same_settings(b),
        ensures
            a.same_configuration(b),
            a.guardian_decisions() == b.guardian_decisions(),
    {
    }

    /// Having the same configuration is transitive.
    pub proof fn lemma_same_configuration_transitive(a: &Store, b: &Store, c: &Store)
        requires
            a.same_configuration(b),
            b.same_configuration(c),
        ensures
            a.same_configuration(c),
    {
    }

    /// A well-formed store's rows have distinct identifiers.
    pub proof fn lemma_distinct_rows(&self)
        requires
            self.well_formed(),
        ensures
            distinct_identifiers(self@.records),
    {
    }

    pub closed spec fn spec_path(&self) -> Seq<char> {
        self.path@
    }

    pub closed spec fn spec_archive_target(&self) -> ArchiveDatabaseTarget {
        self.archive_target
    }

    /// The state digest the marker reports: zero for a store that holds no
    /// record and no referent, else the digest last computed over the
    /// committed rows.
    pub closed spec fn spec_state_digest(&self) -> u64 {
        if self.records@.len() == 0 && self.referents@.len() == 0 {
            0
        } else {
            self.state_digest
        }
    }

    /// An empty store's marker digest is zero.
    pub proof fn lemma_empty_store_digest(&self)
        ensures
            self@.records.len() == 0 && self@.referents.len() == 0 ==> self.spec_state_digest() == 0,
    {
    }

    /// The guardian decisions journaled so far, in order.
    pub closed spec fn guardian_decisions(&self) -> Seq<GuardianDecision> {
        self.guardian_journal.decisions()
    }

    /// The durable writes not yet applied to the database file.
    pub closed spec fn pending_writes(&self) -> Seq<WriteView> {
        self.writes@.map_values(|w: StoreWrite| w@)
    }

    /// Path, archive target and digest are the same in both.
    pub closed spec fn same_configuration(&self, other: &Store) -> bool {
        &&& self.path@ == other.path@
        &&& self.archive_target == other.archive_target
        &&& self.state_digest == other.state_digest
    }

    /// Same configuration, and the same guardian journal.
    pub closed spec fn same_settings(&self, other: &Store) -> bool {
        &&& self.same_configuration(other)
        &&& self.guardian_journal == other.guardian_journal
    }
}


/// A registry that resolves every name of the selection, and the selection
/// with each name replaced by its canonical referent.
pub open spec fn canonical_selection(
    registry: Seq<StoredReferentView>,
    selection: ReferentSelectionView,
) -> Option<ReferentSelectionView> {
    match selection {
        ReferentSelectionView::Any => Some(ReferentSelectionView::Any),
        ReferentSelectionView::AnyReferent(names) => if all_registered(registry, names) {
            Some(ReferentSelectionView::AnyReferent(canonical_names(registry, names)))
        } else {
            None
        },
        ReferentSelectionView::AllReferents(names) => if all_registered(registry, names) {
            Some(ReferentSelectionView::AllReferents(canonical_names(registry, names)))
        } else {
            None
        },
    }
}

/// The query with its referents in canonical form, when all are
/// registered.
pub open spec fn canonical_query(registry: Seq<StoredReferentView>, q: QueryView) -> Option<
    QueryView,
> {
    match canonical_selection(registry, q.referent_selection) {
        Some(selection) => Some(QueryView { referent_selection: selection, ..q }),
        None => None,
    }
}

/// The entry with its referents in canonical form, when all are
/// registered.
pub open spec fn canonical_entry(registry: Seq<StoredReferentView>, e: EntryView) -> Option<
    EntryView,
> {
    if all_registered(registry, e.referents) {
        Some(EntryView { referents: canonical_names(registry, e.referents), ..e })
    } else {
        None
    }
}

/// The records by their content, as a read returns them.
pub open spec fn observed_view(records: Seq<ObservedRecord>) -> Seq<RecordView> {
    records.map_values(|r: ObservedRecord| r@)
}

/// The row at `i` with a new entry.
pub open spec fn with_entry(records: Seq<RecordView>, i: int, entry: EntryView) -> Seq<RecordView> {
    records.update(i, RecordView { identifier: records[i].identifier, entry })
}

/// The rows without the one at `i`.
pub open spec fn without(records: Seq<RecordView>, i: int) -> Seq<RecordView> {
    records.remove(i)
}

fn position_of(records: &Vec<StoredRecord>, identifier: &str) -> (r: Option<usize>)
    requires
        distinct_identifiers(records_view(records@)),
    ensures
        match r {
            Some(i) => i < records.len() && records@[i as int].record_identifier@ == identifier@
                && has_record(records_view(records@), identifier@) && record_position(
                records_view(records@),
                identifier@,
            ) == i,
            None => !has_record(records_view(records@), identifier@),
        },
{
    let ghost view = records_view(records@);
    let target = identifier.to_owned();
    let mut i: usize = 0;
    while i < records.len()
        invariant
            i <= records.len(),
            view == records_view(records@),
            distinct_identifiers(view),
            target@ == identifier@,
            forall|k: int| 0 <= k < i ==> (#[trigger] view[k]).identifier != identifier@,
        decreases records.len() - i,
    {
        if records[i].record_identifier == target {
            proof {
                lemma_record_position(view, identifier@, i as int);
            }
            return Some(i);
        }
        i = i + 1;
    }
    None
}

impl Store {
    /// A store over tables read from the database file. Refused when two
    /// rows share an identifier or two registrations a canonical name.
    pub fn open(
        path: String,
        records: Vec<StoredRecord>,
        referents: Vec<StoredReferent>,
        commit_sequence: u64,
        state_digest: u64,
    ) -> (r: Result<Store, StoreError>)
        ensures
            match r {
                Ok(store) => store.well_formed() && store@.records == records_view(records@)
                    && store@.referents == registry_view(referents@) && store@.commit_sequence
                    == commit_sequence && store.spec_path() == path@ && store.spec_archive_target()
                    == ArchiveDatabaseTarget::Default && store.spec_state_digest() == (if records.len() == 0
                    && referents.len() == 0 {
                    0
                } else {
                    state_digest
                }) && store.pending_writes().len() == 0 && store.guardian_decisions().len() == 0,
                Err(e) => e is Database && !(distinct_identifiers(records_view(records@))
                    && distinct_canonical_names(registry_view(referents@))),
            },
    {
        let ghost rv = records_view(records@);
        let mut i: usize = 0;
        while i < records.len()
            invariant
                i <= records.len(),
                rv == records_view(records@),
                forall|a: int, b: int|
                    0 <= a < i && 0 <= b < records.len() && a != b ==> #[trigger] rv[a].identifier
                        != #[trigger] rv[b].identifier,
            decreases records.len() - i,
        {
            let mut j: usize = 0;
            while j < records.len()
                invariant
                    i < records.len(),
                    j <= records.len(),
                    rv == records_view(records@),
                    forall|a: int, b: int|
                        0 <= a < i && 0 <= b < records.len() && a != b
                            ==> #[trigger] rv[a].identifier != #[trigger] rv[b].identifier,
                    forall|b: int|
                        0 <= b < j && b != i ==> rv[i as int].identifier != #[trigger] rv[b].identifier,
                decreases records.len() - j,
            {
                if j != i && records[i].record_identifier == records[j].record_identifier {
                    assert(rv[i as int].identifier == rv[j as int].identifier);
                    return Err(StoreError::Database("duplicate record identifier".to_string()));
                }
                j = j + 1;
            }
            i = i + 1;
        }
        let ghost fv = registry_view(referents@);
        let mut i: usize = 0;
        while i < referents.len()
            invariant
                i <= referents.len(),
                distinct_identifiers(rv),
                rv == records_view(records@),
                fv == registry_view(referents@),
                forall|a: int, b: int|
                    0 <= a < i && 0 <= b < referents.len() && a != b ==> #[trigger] fv[a].referent
                        != #[trigger] fv[b].referent,
            decreases referents.len() - i,
        {
            let mut j: usize = 0;
            while j < referents.len()
                invariant
                    i < referents.len(),
                    j <= referents.len(),
                    fv == registry_view(referents@),
                    forall|a: int, b: int|
                        0 <= a < i && 0 <= b < referents.len() && a != b
                            ==> #[trigger] fv[a].referent != #[trigger] fv[b].referent,
                    forall|b: int|
                        0 <= b < j && b != i ==> fv[i as int].referent != #[trigger] fv[b].referent,
                decreases referents.len() - j,
            {
                if j != i && referents[i].referent.same_as(&referents[j].referent) {
                    assert(fv[i as int].referent == fv[j as int].referent);
                    return Err(StoreError::Database("duplicate referent registration".to_string()));
                }
                j = j + 1;
            }
            i = i + 1;
        }
        Ok(
            Store {
                path,
                records,
                referents,
                commit_sequence,
                state_digest,
                archive_target: ArchiveDatabaseTarget::Default,
                writes: Vec::new(),
                guardian_journal: GuardianJournal::new(),
            },
        )
    }

    /// The live database's path.
    /// Journal a guardian decision; the live tables are untouched.
    pub fn record_guardian_decision(&mut self, decision: GuardianDecision) -> (r: Result<(), StoreError>)
        requires
            old(self).well_formed(),
        ensures
            final(self).well_formed(),
            final(self)@ == old(self)@,
            final(self).same_configuration(old(self)),
            final(self).pending_writes() == old(self).pending_writes(),
            match r {
                Ok(()) => final(self).guardian_decisions() == old(self).guardian_decisions().push(decision),
                Err(e) => e is Database && final(self).guardian_decisions() == old(self).guardian_decisions()
                    && old(self).guardian_decisions().len() >= u64::MAX,
            },
    {
        self.guardian_journal.append(decision)
    }

    /// How many guardian decisions are journaled.
    pub fn guardian_decision_count(&self) -> (r: usize)
        ensures
            r == self.guardian_decisions().len(),
    {
        self.guardian_journal.len()
    }

    /// The live records, in commit order.
    pub fn records(&self) -> (r: &Vec<StoredRecord>)
        ensures
            records_view(r@) == self@.records,
    {
        &self.records
    }

    pub fn path(&self) -> (r: &String)
        ensures
            r@ == self.spec_path(),
    {
        &self.path
    }

    /// Record where the separate archive database lives; the live tables
    /// are untouched.
    pub fn set_archive_target(&mut self, archive_target: ArchiveDatabaseTarget)
        ensures
            final(self)@ == old(self)@,
            final(self).well_formed() == old(self).well_formed(),
            final(self).spec_archive_target() == archive_target,
            final(self).spec_path() == old(self).spec_path(),
            final(self).spec_state_digest() == old(self).spec_state_digest(),
            final(self).pending_writes() == old(self).pending_writes(),
    {
        self.archive_target = archive_target;
    }

    /// The owner-configured archive target; `Default` until configured.
    pub fn archive_target(&self) -> (r: &ArchiveDatabaseTarget)
        ensures
            *r == self.spec_archive_target(),
    {
        &self.archive_target
    }

    /// The path of the separate archive database.
    pub fn archive_database_path(&self) -> (r: String)
        ensures
            r@ == archive_path_of(self.spec_path(), self.spec_archive_target()),
    {
        match &self.archive_target {
            ArchiveDatabaseTarget::Default => {
                let stem = match file_stem(self.path.as_str()) {
                    Some(stem) => stem,
                    None => "spirit".to_string(),
                };
                let mut name = stem;
                name.append(".archive.sema");
                sibling_path(self.path.as_str(), name.as_str())
            },
            ArchiveDatabaseTarget::Path(path) => path.clone(),
        }
    }

    /// Record the digest of the durable content, computed once the queued
    /// writes have been applied.
    pub fn set_state_digest(&mut self, state_digest: u64)
        ensures
            final(self)@ == old(self)@,
            final(self).well_formed() == old(self).well_formed(),
            final(self).spec_state_digest() == (if old(self)@.records.len() == 0 && old(self)@.referents.len()
                == 0 {
                0
            } else {
                state_digest
            }),
            final(self).spec_archive_target() == old(self).spec_archive_target(),
            final(self).spec_path() == old(self).spec_path(),
            final(self).pending_writes() == old(self).pending_writes(),
    {
        self.state_digest = state_digest;
    }

    /// Recompute the marker's state digest from the committed rows'
    /// archived bytes: blake3 over the commit sequence, then each record
    /// under its identifier, then each referent under its canonical name.
    /// The rows must name the store's records and referents in order; when
    /// they do not, nothing changes and `false` comes back.
    pub fn refresh_state_digest(&mut self, records: &Vec<ArchivedRow>, referents: &Vec<ArchivedRow>) -> (r: bool)
        ensures
            r == rows_name_state(old(self)@, records@, referents@),
            final(self)@ == old(self)@,
            final(self).well_formed() == old(self).well_formed(),
            final(self).spec_state_digest() == if r {
                state_digest_value(old(self)@.commit_sequence as u64, records@, referents@) as u64
            } else {
                old(self).spec_state_digest()
            },
            final(self).spec_archive_target() == old(self).spec_archive_target(),
            final(self).spec_path() == old(self).spec_path(),
            final(self).pending_writes() == old(self).pending_writes(),
    {
        if records.len() != self.records.len() || referents.len() != self.referents.len() {
            return false;
        }
        let mut i: usize = 0;
        while i < records.len()
            invariant
                i <= records.len(),
                records.len() == self.records.len(),
                forall|k: int| 0 <= k < i ==> (#[trigger] records@[k]).key@ == self@.records[k].identifier,
            decreases records.len() - i,
        {
            if records[i].key != self.records[i].record_identifier {
                return false;
            }
            i = i + 1;
        }
        let mut j: usize = 0;
        while j < referents.len()
            invariant
                j <= referents.len(),
                referents.len() == self.referents.len(),
                forall|k: int| 0 <= k < j ==> (#[trigger] referents@[k]).key@ == self@.referents[k].referent,
            decreases referents.len() - j,
        {
            if referents[j].key != self.referents[j].referent.0 {
                return false;
            }
            j = j + 1;
        }
        let digest = state_digest(self.commit_sequence, records, referents);
        self.state_digest = digest;
        true
    }

    /// The commit marker: the commit sequence and the state digest, which
    /// is zero while the store holds no record and no referent.
    pub fn database_marker(&self) -> (r: DatabaseMarker)
        ensures
            r.commit_sequence == self@.commit_sequence,
            r.state_digest == self.spec_state_digest(),
            self@.records.len() == 0 && self@.referents.len() == 0 ==> r.state_digest == 0,
    {
        let state_digest = if self.records.len() == 0 && self.referents.len() == 0 {
            0
        } else {
            self.state_digest
        };
        DatabaseMarker { commit_sequence: self.commit_sequence, state_digest }
    }

    /// Hand over the queued durable writes, oldest first.
    pub fn take_writes(&mut self) -> (r: Vec<StoreWrite>)
        ensures
            r@.map_values(|w: StoreWrite| w@) == old(self).pending_writes(),
            final(self).pending_writes().len() == 0,
            final(self)@ == old(self)@,
            final(self).well_formed() == old(self).well_formed(),
            final(self).spec_state_digest() == old(self).spec_state_digest(),
            final(self).spec_archive_target() == old(self).spec_archive_target(),
            final(self).spec_path() == old(self).spec_path(),
    {
        let mut taken: Vec<StoreWrite> = Vec::new();
        std::mem::swap(&mut taken, &mut self.writes);
        taken
    }

    /// The number of live records.
    pub fn len(&self) -> (r: usize)
        ensures
            r == self@.records.len(),
    {
        self.records.len()
    }

    pub fn is_empty(&self) -> (r: bool)
        ensures
            r == (self@.records.len() == 0),
    {
        self.records.len() == 0
    }

    /// The entry stored under the identifier.
    pub fn entry_by_identifier(&self, identifier: &str) -> (r: Option<Entry>)
        requires
            self.well_formed(),
        ensures
            match r {
                Some(entry) => entry_of(self@.records, identifier@) == Some(entry@),
                None => entry_of(self@.records, identifier@).is_none(),
            },
    {
        match position_of(&self.records, identifier) {
            Some(i) => Some(self.records[i].entry.clone()),
            None => None,
        }
    }

    /// The selection with every referent in canonical form.
    pub fn canonicalized_referent_selection(&self, selection: &ReferentSelection) -> (r: Result<
        ReferentSelection,
        StoreError,
    >)
        ensures
            match r {
                Ok(canonical) => canonical_selection(self@.referents, selection@) == Some(
                    canonical@,
                ),
                Err(e) => canonical_selection(self@.referents, selection@).is_none()
                    && e is UnregisteredReferent,
            },
    {
        match selection {
            ReferentSelection::Any => Ok(ReferentSelection::Any),
            ReferentSelection::AnyReferent(referents) => {
                match canonicalized_referents(&self.referents, referents) {
                    Ok(canonical) => Ok(ReferentSelection::any_referent(canonical)),
                    Err(e) => Err(e),
                }
            },
            ReferentSelection::AllReferents(referents) => {
                match canonicalized_referents(&self.referents, referents) {
                    Ok(canonical) => Ok(ReferentSelection::all_referents(canonical)),
                    Err(e) => Err(e),
                }
            },
        }
    }

    /// The query with its referents in canonical form.
    pub fn canonicalized_query(&self, query: &Query) -> (r: Result<Query, StoreError>)
        ensures
            match r {
                Ok(canonical) => canonical_query(self@.referents, query@) == Some(canonical@),
                Err(e) => canonical_query(self@.referents, query@).is_none()
                    && e is UnregisteredReferent,
            },
    {
        let selection = self.canonicalized_referent_selection(&query.referent_selection)?;
        let mut canonical = query.clone();
        canonical.referent_selection = selection;
        Ok(canonical)
    }

    /// The entry with its referents in canonical form.
    pub fn canonicalized_entry(&self, entry: &Entry) -> (r: Result<Entry, StoreError>)
        ensures
            match r {
                Ok(canonical) => canonical_entry(self@.referents, entry@) == Some(canonical@),
                Err(e) => canonical_entry(self@.referents, entry@).is_none()
                    && e is UnregisteredReferent,
            },
    {
        let referents = canonicalized_referents(&self.referents, &entry.referents)?;
        let mut canonical = entry.clone();
        canonical.referents = referents;
        Ok(canonical)
    }
}


fn selected_records(records: &Vec<StoredRecord>, query: &Query) -> (r: Vec<StoredRecord>)
    ensures
        records_view(r@) == selected(records_view(records@), query@),
{
    let ghost rv = records_view(records@);
    let mut out: Vec<StoredRecord> = Vec::new();
    let mut j: usize = 0;
    assert(rv.subrange(0, 0) =~= Seq::<RecordView>::empty());
    assert(records_view(out@) =~= Seq::<RecordView>::empty());
    while j < records.len()
        invariant
            j <= records.len(),
            rv == records_view(records@),
            records_view(out@) == selected(rv.subrange(0, j as int), query@),
        decreases records.len() - j,
    {
        assert(rv.subrange(0, j + 1).drop_last() =~= rv.subrange(0, j as int));
        assert(rv.subrange(0, j + 1).last() == records@[j as int]@);
        if records[j].entry.matches(query) {
            let ghost before = records_view(out@);
            out.push(records[j].clone());
            assert(records_view(out@) =~= before.push(records@[j as int]@));
        }
        j = j + 1;
    }
    assert(rv.subrange(0, records.len() as int) =~= rv);
    out
}

fn rank_key_of(entry: &Entry) -> (r: u64)
    ensures
        r == rank_key(entry@),
{
    entry.certainty_rank() * 8 + entry.importance_rank()
}

fn rank_records(records: &Vec<StoredRecord>) -> (r: Vec<ObservedRecord>)
    ensures
        observed_view(r@) == ranked(records_view(records@), 64),
{
    let ghost rv = records_view(records@);
    let mut out: Vec<ObservedRecord> = Vec::new();
    let mut n: u64 = 1;
    assert(observed_view(out@) =~= ranked(rv, 0));
    while n <= 64
        invariant
            1 <= n <= 65,
            rv == records_view(records@),
            observed_view(out@) == ranked(rv, (n - 1) as nat),
        decreases 65 - n,
    {
        let key: u64 = 64 - n;
        let ghost prefix = ranked(rv, (n - 1) as nat);
        let mut j: usize = 0;
        assert(rv.subrange(0, 0) =~= Seq::<RecordView>::empty());
        assert(observed_view(out@) =~= prefix + with_rank_key(rv.subrange(0, 0), key as nat));
        while j < records.len()
            invariant
                j <= records.len(),
                rv == records_view(records@),
                key == 64 - n,
                observed_view(out@) == prefix + with_rank_key(rv.subrange(0, j as int), key as nat),
            decreases records.len() - j,
        {
            assert(rv.subrange(0, j + 1).drop_last() =~= rv.subrange(0, j as int));
            assert(rv.subrange(0, j + 1).last() == records@[j as int]@);
            if rank_key_of(&records[j].entry) == key {
                let ghost before = observed_view(out@);
                out.push(records[j].clone().into_observed_record());
                assert(observed_view(out@) =~= before.push(records@[j as int]@));
            }
            j = j + 1;
        }
        assert(rv.subrange(0, records.len() as int) =~= rv);
        n = n + 1;
    }
    out
}

impl Store {
    /// The records a query selects: its referents are first put in
    /// canonical form; matching records come most certain first, then most
    /// important, ties in store order.
    pub fn observe(&self, query: &Query) -> (r: Result<Vec<ObservedRecord>, StoreError>)
        ensures
            match r {
                Ok(out) => canonical_query(self@.referents, query@) is Some && observed_view(out@)
                    == observation(self@.records, canonical_query(self@.referents, query@)->Some_0),
                Err(e) => canonical_query(self@.referents, query@).is_none()
                    && e is UnregisteredReferent,
            },
    {
        let canonical = self.canonicalized_query(query)?;
        let chosen = selected_records(&self.records, &canonical);
        Ok(rank_records(&chosen))
    }

    /// How many records a query selects.
    pub fn count(&self, query: &Query) -> (r: Result<u64, StoreError>)
        ensures
            match r {
                Ok(n) => canonical_query(self@.referents, query@) is Some && n == observation(
                    self@.records,
                    canonical_query(self@.referents, query@)->Some_0,
                ).len(),
                Err(e) => canonical_query(self@.referents, query@).is_none()
                    && e is UnregisteredReferent,
            },
    {
        let observed = self.observe(query)?;
        Ok(observed.len() as u64)
    }
}


/// A request to set a record's certainty.
#[derive(Debug)]
pub struct CertaintyChange {
    pub record_identifier: RecordIdentifier,
    pub certainty: Certainty,
}

/// What a certainty change reports.
#[derive(Debug)]
pub struct CertaintyChangeReceipt {
    pub record_identifier: RecordIdentifier,
    pub certainty: Certainty,
}

/// A request to raise a record's importance by one rung.
#[derive(Debug)]
pub struct ImportanceBump(pub RecordIdentifier);

/// What an importance bump reports: the new importance.
#[derive(Debug)]
pub struct ImportanceBumpReceipt {
    pub record_identifier: RecordIdentifier,
    pub importance: Importance,
}

/// What a record write reports.
#[derive(Debug)]
pub struct SemaReceipt {
    pub record_identifier: RecordIdentifier,
    pub database_marker: DatabaseMarker,
}

/// What a removal reports.
#[derive(Debug)]
pub struct RemoveReceipt(pub RecordIdentifier);

/// The entry with a new certainty.
pub open spec fn with_certainty(e: EntryView, c: Certainty) -> EntryView {
    EntryView { certainty: c, ..e }
}

/// The entry with its importance one rung higher.
pub open spec fn with_bumped_importance(e: EntryView) -> EntryView {
    EntryView { importance: Importance(magnitude_successor(e.importance.0)), ..e }
}

/// The entry with a new description.
pub open spec fn with_description(e: EntryView, d: Seq<char>) -> EntryView {
    EntryView { description: d, ..e }
}

impl Store {
    fn advance_commit(&mut self) -> (r: Result<(), StoreError>)
        ensures
            final(self).records@ == old(self).records@,
            final(self).referents@ == old(self).referents@,
            final(self).writes@ == old(self).writes@,
            final(self).same_settings(old(self)),
            match r {
                Ok(()) => old(self).commit_sequence < u64::MAX && final(self).commit_sequence
                    == old(self).commit_sequence + 1,
                Err(e) => old(self).commit_sequence == u64::MAX && final(self).commit_sequence
                    == old(self).commit_sequence && e is Database,
            },
    {
        if self.commit_sequence == u64::MAX {
            return Err(StoreError::Database("commit sequence exhausted".to_string()));
        }
        self.commit_sequence = self.commit_sequence + 1;
        Ok(())
    }

    fn queue(&mut self, write: StoreWrite)
        ensures
            final(self).records@ == old(self).records@,
            final(self).referents@ == old(self).referents@,
            final(self).commit_sequence == old(self).commit_sequence,
            final(self).same_settings(old(self)),
            final(self).pending_writes() == old(self).pending_writes().push(write@),
    {
        self.writes.push(write);
        assert(self.pending_writes() =~= old(self).pending_writes().push(write@));
    }

    /// Replace the entry of row `i` (a committed mutation).
    fn mutate_at(&mut self, i: usize, entry: Entry) -> (r: Result<(), StoreError>)
        requires
            old(self).well_formed(),
            i < old(self).records.len(),
        ensures
            final(self).well_formed(),
            final(self).same_settings(old(self)),
            final(self)@.referents == old(self)@.referents,
            match r {
                Ok(()) => old(self)@.commit_sequence < u64::MAX && final(self)@.commit_sequence
                    == old(self)@.commit_sequence + 1 && final(self)@.records == with_entry(
                    old(self)@.records,
                    i as int,
                    entry@,
                ) && final(self).pending_writes() == old(self).pending_writes().push(
                    WriteView::MutateRecord(
                        RecordView {
                            identifier: old(self)@.records[i as int].identifier,
                            entry: entry@,
                        },
                    ),
                ),
                Err(e) => old(self)@.commit_sequence == u64::MAX && final(self)@ == old(self)@
                    && final(self).pending_writes() == old(self).pending_writes() && e is Database,
            },
    {
        self.advance_commit()?;
        let record = StoredRecord::new(self.records[i].record_identifier.clone(), entry);
        let queued = record.clone();
        let ghost before = records_view(self.records@);
        self.records.set(i, record);
        assert(records_view(self.records@) =~= with_entry(before, i as int, queued@.entry));
        assert forall|a: int, b: int|
            0 <= a < records_view(self.records@).len() && 0 <= b < records_view(
                self.records@,
            ).len() && a != b implies #[trigger] records_view(self.records@)[a].identifier
            != #[trigger] records_view(self.records@)[b].identifier by {
            assert(records_view(self.records@)[a].identifier == before[a].identifier);
            assert(records_view(self.records@)[b].identifier == before[b].identifier);
        }
        self.queue(StoreWrite::MutateRecord(queued));
        Ok(())
    }

    /// Set the certainty of a record. `None` when no record has the
    /// identifier.
    pub fn change_certainty(&mut self, change: CertaintyChange) -> (r: Result<
        Option<CertaintyChangeReceipt>,
        StoreError,
    >)
        requires
            old(self).well_formed(),
        ensures
            r matches Ok(Some(_)) ==> final(self).pending_writes() == old(self).pending_writes().push(
                WriteView::MutateRecord(final(self)@.records[record_position(old(self)@.records, change.record_identifier.0@)]),
            ),
            final(self).well_formed(),
            final(self).same_settings(old(self)),
            final(self)@.referents == old(self)@.referents,
            match r {
                Ok(None) => !has_record(old(self)@.records, change.record_identifier.0@)
                    && final(self)@ == old(self)@ && final(self).pending_writes() == old(self).pending_writes(),
                Ok(Some(receipt)) => {
                    let i = record_position(old(self)@.records, change.record_identifier.0@);
                    &&& has_record(old(self)@.records, change.record_identifier.0@)
                    &&& final(self)@.records == with_entry(
                        old(self)@.records,
                        i,
                        with_certainty(old(self)@.records[i].entry, change.certainty),
                    )
                    &&& final(self)@.commit_sequence == old(self)@.commit_sequence + 1
                    &&& receipt.record_identifier == change.record_identifier
                    &&& receipt.certainty == change.certainty
                },
                Err(e) => e is Database && has_record(
                    old(self)@.records,
                    change.record_identifier.0@,
                ) && old(self)@.commit_sequence == u64::MAX && final(self)@ == old(self)@
                    && final(self).pending_writes() == old(self).pending_writes(),
            },
    {
        let CertaintyChange { record_identifier, certainty } = change;
        match position_of(&self.records, record_identifier.0.as_str()) {
            None => Ok(None),
            Some(i) => {
                let mut entry = self.records[i].entry.clone();
                entry.certainty = certainty;
                self.mutate_at(i, entry)?;
                Ok(Some(CertaintyChangeReceipt { record_identifier, certainty }))
            },
        }
    }

    /// Raise a record's importance one rung (saturating at `Maximum`).
    /// `None` when no record has the identifier.
    pub fn bump_importance(&mut self, change: ImportanceBump) -> (r: Result<
        Option<ImportanceBumpReceipt>,
        StoreError,
    >)
        requires
            old(self).well_formed(),
        ensures
            r matches Ok(Some(_)) ==> final(self).pending_writes() == old(self).pending_writes().push(
                WriteView::MutateRecord(final(self)@.records[record_position(old(self)@.records, change.0.0@)]),
            ),
            final(self).well_formed(),
            final(self).same_settings(old(self)),
            final(self)@.referents == old(self)@.referents,
            match r {
                Ok(None) => !has_record(old(self)@.records, change.0.0@) && final(self)@ == old(self)@ && final(self).pending_writes() == old(self).pending_writes(),
                Ok(Some(receipt)) => {
                    let i = record_position(old(self)@.records, change.0.0@);
                    &&& has_record(old(self)@.records, change.0.0@)
                    &&& final(self)@.records == with_entry(
                        old(self)@.records,
                        i,
                        with_bumped_importance(old(self)@.records[i].entry),
                    )
                    &&& final(self)@.commit_sequence == old(self)@.commit_sequence + 1
                    &&& receipt.record_identifier == change.0
                    &&& receipt.importance.0 == magnitude_successor(
                        old(self)@.records[i].entry.importance.0,
                    )
                },
                Err(e) => e is Database && has_record(old(self)@.records, change.0.0@) && old(self)@.commit_sequence == u64::MAX && final(self)@ == old(self)@ && final(self).pending_writes() == old(self).pending_writes(),
            },
    {
        let record_identifier = change.0;
        match position_of(&self.records, record_identifier.0.as_str()) {
            None => Ok(None),
            Some(i) => {
                let mut entry = self.records[i].entry.clone();
                let importance = entry.importance.next();
                entry.importance = importance;
                self.mutate_at(i, entry)?;
                Ok(Some(ImportanceBumpReceipt { record_identifier, importance }))
            },
        }
    }

    /// Retract the record with the identifier; `false` when there is none.
    pub fn remove(&mut self, identifier: &str) -> (r: Result<bool, StoreError>)
        requires
            old(self).well_formed(),
        ensures
            final(self).well_formed(),
            final(self).same_settings(old(self)),
            final(self)@.referents == old(self)@.referents,
            match r {
                Ok(false) => !has_record(old(self)@.records, identifier@) && final(self)@ == old(self)@ && final(self).pending_writes() == old(self).pending_writes(),
                Ok(true) => has_record(old(self)@.records, identifier@) && final(self)@.records
                    == without(
                    old(self)@.records,
                    record_position(old(self)@.records, identifier@),
                ) && final(self)@.commit_sequence == old(self)@.commit_sequence + 1 && final(self).pending_writes() == old(self).pending_writes().push(
                    WriteView::RetractRecord(identifier@),
                ),
                Err(e) => e is Database && has_record(old(self)@.records, identifier@) && old(self)@.commit_sequence == u64::MAX && final(self)@ == old(self)@ && final(self).pending_writes() == old(self).pending_writes(),
            },
    {
        match position_of(&self.records, identifier) {
            None => Ok(false),
            Some(i) => {
                self.advance_commit()?;
                let ghost before = records_view(self.records@);
                self.records.remove(i);
                assert(records_view(self.records@) =~= before.remove(i as int));
                assert forall|a: int, b: int|
                    0 <= a < records_view(self.records@).len() && 0 <= b < records_view(
                        self.records@,
                    ).len() && a != b implies #[trigger] records_view(self.records@)[a].identifier
                    != #[trigger] records_view(self.records@)[b].identifier by {
                    let a0 = if a < i { a } else { a + 1 };
                    let b0 = if b < i { b } else { b + 1 };
                    assert(records_view(self.records@)[a] == before[a0]);
                    assert(records_view(self.records@)[b] == before[b0]);
                }
                self.queue(StoreWrite::RetractRecord(identifier.to_owned()));
                Ok(true)
            },
        }
    }
}


/// What a referent registration reports: the canonical referent.
#[derive(Debug)]
pub struct ReferentRegistrationReceipt(pub Referent);

/// The registry after a registration that no registration settles yet: a
/// known canonical name gains the new aliases, a new name is appended.
pub open spec fn registry_after(
    referents: Seq<StoredReferentView>,
    referent: Seq<char>,
    aliases: Seq<Seq<char>>,
) -> Seq<StoredReferentView> {
    if has_canonical(referents, referent) {
        let k = canonical_position(referents, referent);
        referents.update(
            k,
            StoredReferentView {
                referent,
                aliases: crate::referent::merged_aliases(referents[k].aliases, referent, aliases),
            },
        )
    } else {
        referents.push(StoredReferentView { referent, aliases })
    }
}

/// Whether some registration has the canonical name.
pub open spec fn has_canonical(referents: Seq<StoredReferentView>, name: Seq<char>) -> bool {
    exists|i: int| 0 <= i < referents.len() && #[trigger] referents[i].referent == name
}

/// The registration with the canonical name (meaningful when one exists).
pub open spec fn canonical_position(referents: Seq<StoredReferentView>, name: Seq<char>) -> int {
    choose|i: int| 0 <= i < referents.len() && #[trigger] referents[i].referent == name
}

/// The first registration that already answers to every name of a
/// registration request, if any.
pub open spec fn settled_position(
    referents: Seq<StoredReferentView>,
    referent: Seq<char>,
    aliases: Seq<Seq<char>>,
) -> Option<int> {
    if exists|i: int|
        0 <= i < referents.len() && crate::referent::covers_registration(
            #[trigger] referents[i],
            referent,
            aliases,
        ) {
        Some(
            choose|i: int|
                0 <= i < referents.len() && crate::referent::covers_registration(
                    #[trigger] referents[i],
                    referent,
                    aliases,
                ) && forall|j: int|
                    0 <= j < i ==> !crate::referent::covers_registration(
                        #[trigger] referents[j],
                        referent,
                        aliases,
                    ),
        )
    } else {
        None
    }
}

fn canonical_position_of(referents: &Vec<StoredReferent>, name: &Referent) -> (r: Option<usize>)
    requires
        distinct_canonical_names(registry_view(referents@)),
    ensures
        match r {
            Some(i) => i < referents.len() && referents@[i as int].referent@ == name@
                && has_canonical(registry_view(referents@), name@) && canonical_position(
                registry_view(referents@),
                name@,
            ) == i,
            None => !has_canonical(registry_view(referents@), name@),
        },
{
    let ghost view = registry_view(referents@);
    let mut i: usize = 0;
    while i < referents.len()
        invariant
            i <= referents.len(),
            view == registry_view(referents@),
            distinct_canonical_names(view),
            forall|k: int| 0 <= k < i ==> (#[trigger] view[k]).referent != name@,
        decreases referents.len() - i,
    {
        if referents[i].referent.same_as(name) {
            proof {
                let k = canonical_position(view, name@);
                assert(view[i as int].referent == name@);
                assert(view[k].referent == name@);
                if k != i as int {
                    assert(view[k].referent != view[i as int].referent);
                }
            }
            return Some(i);
        }
        i = i + 1;
    }
    None
}

fn settled_referent(referents: &Vec<StoredReferent>, registration: &crate::referent::ReferentRegistration) -> (r: Option<usize>)
    ensures
        match r {
            Some(k) => k < referents.len() && settled_position(
                registry_view(referents@),
                registration.referent@,
                registration.aliases@,
            ) == Some(k as int),
            None => settled_position(
                registry_view(referents@),
                registration.referent@,
                registration.aliases@,
            ).is_none(),
        },
{
    let ghost view = registry_view(referents@);
    let mut i: usize = 0;
    while i < referents.len()
        invariant
            i <= referents.len(),
            view == registry_view(referents@),
            forall|j: int|
                0 <= j < i ==> !crate::referent::covers_registration(
                    #[trigger] view[j],
                    registration.referent@,
                    registration.aliases@,
                ),
        decreases referents.len() - i,
    {
        if referents[i].contains_registration(registration) {
            proof {
                assert(crate::referent::covers_registration(view[i as int], registration.referent@, registration.aliases@));
                let k = choose|k: int|
                    0 <= k < view.len() && crate::referent::covers_registration(
                        #[trigger] view[k],
                        registration.referent@,
                        registration.aliases@,
                    ) && forall|j: int|
                        0 <= j < k ==> !crate::referent::covers_registration(
                            #[trigger] view[j],
                            registration.referent@,
                            registration.aliases@,
                        );
                if k < i {
                    assert(!crate::referent::covers_registration(view[k], registration.referent@, registration.aliases@));
                }
                if k > i {
                    assert(!crate::referent::covers_registration(view[i as int], registration.referent@, registration.aliases@));
                }
            }
            return Some(i);
        }
        i = i + 1;
    }
    None
}

impl Store {
    fn append_record(&mut self, record: StoredRecord) -> (r: Result<(), StoreError>)
        requires
            old(self).well_formed(),
            !has_record(old(self)@.records, record@.identifier),
        ensures
            final(self).well_formed(),
            final(self).same_settings(old(self)),
            final(self)@.referents == old(self)@.referents,
            match r {
                Ok(()) => old(self)@.commit_sequence < u64::MAX && final(self)@.commit_sequence
                    == old(self)@.commit_sequence + 1 && final(self)@.records == old(self)@.records.push(record@) && final(self).pending_writes() == old(self).pending_writes().push(WriteView::AssertRecord(record@)),
                Err(e) => old(self)@.commit_sequence == u64::MAX && final(self)@ == old(self)@
                    && final(self).pending_writes() == old(self).pending_writes() && e is Database,
            },
    {
        self.advance_commit()?;
        let queued = record.clone();
        let ghost before = records_view(self.records@);
        self.records.push(record);
        assert(records_view(self.records@) =~= before.push(queued@));
        assert forall|a: int, b: int|
            0 <= a < records_view(self.records@).len() && 0 <= b < records_view(
                self.records@,
            ).len() && a != b implies #[trigger] records_view(self.records@)[a].identifier
            != #[trigger] records_view(self.records@)[b].identifier by {
            if a < before.len() && b < before.len() {
            } else if a < before.len() {
                assert(before[a].identifier != queued@.identifier);
            } else if b < before.len() {
                assert(before[b].identifier != queued@.identifier);
            }
        }
        self.queue(StoreWrite::AssertRecord(queued));
        Ok(())
    }

    /// Store a record under a given identifier, with its referents in
    /// canonical form.
    pub fn import_record(&mut self, record_identifier: String, entry: Entry) -> (r: Result<
        String,
        StoreError,
    >)
        requires
            old(self).well_formed(),
        ensures
            r is Ok ==> final(self).pending_writes() == old(self).pending_writes().push(
                WriteView::AssertRecord(final(self)@.records.last()),
            ),
            final(self).well_formed(),
            final(self).same_settings(old(self)),
            final(self)@.referents == old(self)@.referents,
            match r {
                Ok(identifier) => identifier == record_identifier && canonical_entry(
                    old(self)@.referents,
                    entry@,
                ) is Some && !has_record(old(self)@.records, record_identifier@) && final(self)@.records == old(self)@.records.push(
                    RecordView {
                        identifier: record_identifier@,
                        entry: canonical_entry(old(self)@.referents, entry@)->Some_0,
                    },
                ) && final(self)@.commit_sequence == old(self)@.commit_sequence + 1,
                Err(e) => final(self)@ == old(self)@ && final(self).pending_writes() == old(self).pending_writes() && ((e is UnregisteredReferent && canonical_entry(
                    old(self)@.referents,
                    entry@,
                ).is_none()) || (e is Database && canonical_entry(
                    old(self)@.referents,
                    entry@,
                ) is Some && (has_record(old(self)@.records, record_identifier@) || old(self)@.commit_sequence == u64::MAX))),
            },
    {
        let canonical = self.canonicalized_entry(&entry)?;
        if position_of(&self.records, record_identifier.as_str()).is_some() {
            return Err(StoreError::Database("record already exists".to_string()));
        }
        let identifier = record_identifier.clone();
        self.append_record(StoredRecord::new(record_identifier, canonical))?;
        Ok(identifier)
    }

    /// The identifiers of the live records.
    fn record_identifiers(&self) -> (r: Vec<String>)
        ensures
            texts_view(r@) == self@.records.map_values(|v: RecordView| v.identifier),
    {
        let mut out: Vec<String> = Vec::new();
        let mut i: usize = 0;
        while i < self.records.len()
            invariant
                i <= self.records.len(),
                out.len() == i,
                forall|k: int| 0 <= k < i ==> (#[trigger] out@[k])@ == self.records@[k].record_identifier@,
            decreases self.records.len() - i,
        {
            out.push(self.records[i].record_identifier.clone());
            i = i + 1;
        }
        assert(texts_view(out@) =~= self@.records.map_values(|v: RecordView| v.identifier));
        out
    }

    /// Store a new record under a freshly minted identifier.
    pub fn record_entry(&mut self, entry: Entry) -> (r: Result<SemaReceipt, StoreError>)
        requires
            old(self).well_formed(),
        ensures
            r is Ok ==> final(self).pending_writes() == old(self).pending_writes().push(
                WriteView::AssertRecord(final(self)@.records.last()),
            ),
            record_outcome(old(self)@, final(self)@, entry@, r),
            final(self).well_formed(),
            final(self).same_settings(old(self)),
            final(self)@.referents == old(self)@.referents,
            match r {
                Ok(receipt) => {
                    let id = receipt.record_identifier.0@;
                    &&& !has_record(old(self)@.records, id)
                    &&& well_formed_identifier(id)
                    &&& canonical_entry(old(self)@.referents, entry@) is Some
                    &&& final(self)@.records == old(self)@.records.push(
                        RecordView {
                            identifier: id,
                            entry: canonical_entry(old(self)@.referents, entry@)->Some_0,
                        },
                    )
                    &&& final(self)@.commit_sequence == old(self)@.commit_sequence + 1
                    &&& receipt.database_marker.commit_sequence == final(self)@.commit_sequence
                    &&& receipt.database_marker.state_digest == final(self).spec_state_digest()
                },
                Err(e) => final(self)@ == old(self)@ && final(self).pending_writes() == old(self).pending_writes() && (e is IdentifierMint || (e is UnregisteredReferent
                    && canonical_entry(old(self)@.referents, entry@).is_none()) || (e is Database
                    && old(self)@.commit_sequence == u64::MAX)),
            },
    {
        let used = self.record_identifiers();
        let mint = RecordIdentifierMint::new(used);
        let identifier = mint.next_identifier()?;
        proof {
            let ids = old(self)@.records.map_values(|v: RecordView| v.identifier);
            if has_record(old(self)@.records, identifier@) {
                let k = choose|k: int|
                    0 <= k < old(self)@.records.len() && #[trigger] old(self)@.records[k].identifier
                        == identifier@;
                assert(ids[k] == identifier@);
            }
        }
        let stored = self.import_record(identifier, entry)?;
        Ok(
            SemaReceipt {
                record_identifier: RecordIdentifier(stored),
                database_marker: self.database_marker(),
            },
        )
    }

    /// A proposal is stored exactly as a record.
    pub fn propose(&mut self, entry: Entry) -> (r: Result<SemaReceipt, StoreError>)
        requires
            old(self).well_formed(),
        ensures
            record_outcome(old(self)@, final(self)@, entry@, r),
            final(self).well_formed(),
            final(self).same_settings(old(self)),
            final(self)@.referents == old(self)@.referents,
            match r {
                Ok(receipt) => {
                    let id = receipt.record_identifier.0@;
                    &&& !has_record(old(self)@.records, id)
                    &&& well_formed_identifier(id)
                    &&& canonical_entry(old(self)@.referents, entry@) is Some
                    &&& final(self)@.records == old(self)@.records.push(
                        RecordView {
                            identifier: id,
                            entry: canonical_entry(old(self)@.referents, entry@)->Some_0,
                        },
                    )
                    &&& final(self)@.commit_sequence == old(self)@.commit_sequence + 1
                    &&& receipt.database_marker.commit_sequence == final(self)@.commit_sequence
                    &&& receipt.database_marker.state_digest == final(self).spec_state_digest()
                },
                Err(e) => final(self)@ == old(self)@ && final(self).pending_writes() == old(self).pending_writes() && (e is IdentifierMint || (e is UnregisteredReferent
                    && canonical_entry(old(self)@.referents, entry@).is_none()) || (e is Database
                    && old(self)@.commit_sequence == u64::MAX)),
            },
    {
        self.record_entry(entry)
    }
}


/// A request to remove a record outright.
#[derive(Debug)]
pub struct Removal {
    pub record_identifier: RecordIdentifier,
}

/// A request to retire a record: archive it, then remove it.
#[derive(Debug)]
pub struct Retirement {
    pub record_identifier: RecordIdentifier,
    pub justification: Justification,
}

/// What a retirement reports.
#[derive(Debug)]
pub struct RetirementReceipt(pub RecordIdentifier);

/// A request to replace a record's entry in place.
#[derive(Debug)]
pub struct RecordChange {
    pub record_identifier: RecordIdentifier,
    pub entry: Entry,
    pub justification: Justification,
}

/// What an in-place change reports.
#[derive(Debug)]
pub struct RecordChangeReceipt(pub RecordIdentifier);

/// A request to sharpen a record's description, archiving the prior one.
#[derive(Debug)]
pub struct Clarification {
    pub record_identifier: RecordIdentifier,
    pub description: Description,
    pub justification: Justification,
}

/// What a clarification reports.
#[derive(Debug)]
pub struct ClarificationReceipt(pub RecordIdentifier);

/// The archive copy of row `i`: keyed by its identifier and the current
/// commit sequence, queued for the archive database.
pub open spec fn archive_write(store: StoreView, path: Seq<char>, target: ArchiveDatabaseTarget, i: int) -> WriteView {
    WriteView::ArchiveRecord(
        archive_path_of(path, target),
        RecordView {
            identifier: archive_identifier_text(store.records[i].identifier, store.commit_sequence),
            entry: store.records[i].entry,
        },
    )
}


/// The writes queue an archive copy of the record under `identifier` with
/// this entry, into the archive database at `archive_path`.
pub open spec fn archive_copy_queued(
    writes: Seq<WriteView>,
    archive_path: Seq<char>,
    identifier: Seq<char>,
    entry: EntryView,
) -> bool {
    exists|k: int, c: nat|
        #![trigger writes[k], archive_identifier_text(identifier, c)]
        0 <= k < writes.len() && writes[k] == WriteView::ArchiveRecord(
            archive_path,
            RecordView { identifier: archive_identifier_text(identifier, c), entry },
        )
}

/// A record the supersession took out of the table had its archive copy
/// queued first.
pub open spec fn superseded_records_archived(before: Store, after: Store) -> bool {
    forall|id: Seq<char>|
        has_record(before@.records, id) && !#[trigger] has_record(after@.records, id) ==> archive_copy_queued(
            after.pending_writes(),
            archive_path_of(before.spec_path(), before.spec_archive_target()),
            id,
            entry_of(before@.records, id)->Some_0,
        )
}

/// Why a registration that nothing settles fails: its names conflict with
/// another referent's; or it is new and its name is not lowercase
/// kebab-case; or the commit sequence is exhausted.
pub open spec fn registration_failure(store: StoreView, referent: Seq<char>, aliases: Seq<Seq<char>>, e: StoreError) -> bool {
    let candidate = crate::referent::StoredReferentView { referent: referent, aliases: aliases };
    let conflict = crate::referent::name_conflict(store.referents, candidate);
    ||| e is ReferentNameConflict && conflict
    ||| e is NonKebabReferent && !conflict && !has_canonical(store.referents, referent)
        && !crate::referent::kebab_case(referent)
    ||| e is Database && !conflict && (has_canonical(store.referents, referent)
        || crate::referent::kebab_case(referent)) && store.commit_sequence == u64::MAX
}
impl Store {
    /// The archive key of a live identifier at the current commit sequence.
    pub fn archive_identifier(&self, live_identifier: &str) -> (r: String)
        ensures
            r@ == archive_identifier_text(live_identifier@, self@.commit_sequence),
    {
        let mut out = live_identifier.to_owned();
        out.append("-");
        let number = decimal_of(self.commit_sequence);
        out.append(number.as_str());
        proof {
            reveal_strlit("-");
        }
        out
    }

    /// Queue an archive copy of row `i`.
    fn archive_at(&mut self, i: usize)
        requires
            i < old(self).records.len(),
        ensures
            final(self)@ == old(self)@,
            final(self).records@ == old(self).records@,
            final(self).referents@ == old(self).referents@,
            final(self).same_settings(old(self)),
            final(self).pending_writes() == old(self).pending_writes().push(
                archive_write(old(self)@, old(self).spec_path(), old(self).spec_archive_target(), i as int),
            ),
    {
        let archive_path = self.archive_database_path();
        let identifier = self.archive_identifier(self.records[i].record_identifier.as_str());
        let record = StoredRecord::new(identifier, self.records[i].entry.clone());
        self.queue(StoreWrite::ArchiveRecord { archive_path, record });
    }

    /// Remove a record outright; `None` when there is none.
    pub fn remove_record(&mut self, removal: Removal) -> (r: Result<Option<RemoveReceipt>, StoreError>)
        requires
            old(self).well_formed(),
        ensures
            final(self).well_formed(),
            final(self).same_settings(old(self)),
            final(self)@.referents == old(self)@.referents,
            match r {
                Ok(None) => !has_record(old(self)@.records, removal.record_identifier.0@)
                    && final(self)@ == old(self)@,
                Ok(Some(receipt)) => receipt.0 == removal.record_identifier && has_record(
                    old(self)@.records,
                    removal.record_identifier.0@,
                ) && final(self)@.records == without(
                    old(self)@.records,
                    record_position(old(self)@.records, removal.record_identifier.0@),
                ) && final(self)@.commit_sequence == old(self)@.commit_sequence + 1,
                Err(e) => e is Database && has_record(old(self)@.records, removal.record_identifier.0@) && old(self)@.commit_sequence == u64::MAX && final(self)@
                    == old(self)@,
            },
    {
        let record_identifier = removal.record_identifier;
        if !self.remove(record_identifier.0.as_str())? {
            return Ok(None);
        }
        Ok(Some(RemoveReceipt(record_identifier)))
    }

    /// Archive a record, then remove it; `None` when there is none.
    pub fn retire(&mut self, retirement: Retirement) -> (r: Result<
        Option<RetirementReceipt>,
        StoreError,
    >)
        requires
            old(self).well_formed(),
        ensures
            retire_outcome(old(self)@, final(self)@, retirement, r),
            final(self).well_formed(),
            final(self).same_settings(old(self)),
            final(self)@.referents == old(self)@.referents,
            match r {
                Ok(None) => !has_record(old(self)@.records, retirement.record_identifier.0@)
                    && final(self)@ == old(self)@ && final(self).pending_writes() == old(
                    self).pending_writes(),
                Ok(Some(receipt)) => {
                    let i = record_position(old(self)@.records, retirement.record_identifier.0@);
                    &&& receipt.0 == retirement.record_identifier
                    &&& has_record(old(self)@.records, retirement.record_identifier.0@)
                    &&& final(self)@.records == without(old(self)@.records, i)
                    &&& final(self)@.commit_sequence == old(self)@.commit_sequence + 1
                    &&& final(self).pending_writes() == old(self).pending_writes().push(
                        archive_write(old(self)@, old(self).spec_path(), old(self).spec_archive_target(), i),
                    ).push(WriteView::RetractRecord(retirement.record_identifier.0@))
                },
                Err(e) => e is Database && has_record(old(self)@.records, retirement.record_identifier.0@) && old(self)@.commit_sequence == u64::MAX && final(self)@
                    == old(self)@,
            },
    {
        let record_identifier = retirement.record_identifier;
        match position_of(&self.records, record_identifier.0.as_str()) {
            None => Ok(None),
            Some(i) => {
                self.archive_at(i);
                let removed = self.remove(record_identifier.0.as_str())?;
                assert(removed);
                Ok(Some(RetirementReceipt(record_identifier)))
            },
        }
    }

    /// Replace a record's entry in place, with its referents in canonical
    /// form; `None` when there is no such record.
    pub fn change_record(&mut self, change: RecordChange) -> (r: Result<
        Option<RecordChangeReceipt>,
        StoreError,
    >)
        requires
            old(self).well_formed(),
        ensures
            r matches Ok(Some(_)) ==> final(self).pending_writes() == old(self).pending_writes().push(
                WriteView::MutateRecord(final(self)@.records[record_position(old(self)@.records, change.record_identifier.0@)]),
            ),
            change_outcome(old(self)@, final(self)@, change, r),
            final(self).well_formed(),
            final(self).same_settings(old(self)),
            final(self)@.referents == old(self)@.referents,
            match r {
                Ok(None) => !has_record(old(self)@.records, change.record_identifier.0@)
                    && final(self)@ == old(self)@ && final(self).pending_writes() == old(self).pending_writes(),
                Ok(Some(receipt)) => {
                    let i = record_position(old(self)@.records, change.record_identifier.0@);
                    &&& receipt.0 == change.record_identifier
                    &&& has_record(old(self)@.records, change.record_identifier.0@)
                    &&& canonical_entry(old(self)@.referents, change.entry@) is Some
                    &&& final(self)@.records == with_entry(
                        old(self)@.records,
                        i,
                        canonical_entry(old(self)@.referents, change.entry@)->Some_0,
                    )
                    &&& final(self)@.commit_sequence == old(self)@.commit_sequence + 1
                },
                Err(e) => final(self)@ == old(self)@ && final(self).pending_writes() == old(self).pending_writes() && has_record(
                    old(self)@.records,
                    change.record_identifier.0@,
                ) && ((e is UnregisteredReferent && canonical_entry(
                    old(self)@.referents,
                    change.entry@,
                ).is_none()) || (e is Database && old(self)@.commit_sequence == u64::MAX)),
            },
    {
        let RecordChange { record_identifier, entry, .. } = change;
        match position_of(&self.records, record_identifier.0.as_str()) {
            None => Ok(None),
            Some(i) => {
                let canonical = self.canonicalized_entry(&entry)?;
                self.mutate_at(i, canonical)?;
                Ok(Some(RecordChangeReceipt(record_identifier)))
            },
        }
    }

    /// Archive a record's current state, then replace its description;
    /// `None` when there is no such record.
    pub fn clarify(&mut self, clarification: Clarification) -> (r: Result<
        Option<ClarificationReceipt>,
        StoreError,
    >)
        requires
            old(self).well_formed(),
        ensures
            clarify_outcome(old(self)@, final(self)@, clarification, r),
            final(self).well_formed(),
            final(self).same_settings(old(self)),
            final(self)@.referents == old(self)@.referents,
            match r {
                Ok(None) => !has_record(old(self)@.records, clarification.record_identifier.0@)
                    && final(self)@ == old(self)@ && final(self).pending_writes() == old(
                    self).pending_writes(),
                Ok(Some(receipt)) => {
                    let i = record_position(
                        old(self)@.records,
                        clarification.record_identifier.0@,
                    );
                    &&& receipt.0 == clarification.record_identifier
                    &&& has_record(old(self)@.records, clarification.record_identifier.0@)
                    &&& final(self)@.records == with_entry(
                        old(self)@.records,
                        i,
                        with_description(old(self)@.records[i].entry, clarification.description@),
                    )
                    &&& final(self)@.commit_sequence == old(self)@.commit_sequence + 1
                    &&& final(self).pending_writes().len() == old(self).pending_writes().len() + 2
                    &&& final(self).pending_writes()[old(self).pending_writes().len() as int]
                        == archive_write(old(self)@, old(self).spec_path(), old(self).spec_archive_target(), i)
                },
                Err(e) => e is Database && has_record(old(self)@.records, clarification.record_identifier.0@) && old(self)@.commit_sequence == u64::MAX && final(self)@
                    == old(self)@,
            },
    {
        let Clarification { record_identifier, description, .. } = clarification;
        match position_of(&self.records, record_identifier.0.as_str()) {
            None => Ok(None),
            Some(i) => {
                self.archive_at(i);
                let ghost after_archive = self.pending_writes();
                let mut entry = self.records[i].entry.clone();
                entry.description = description;
                self.mutate_at(i, entry)?;
                assert(self.pending_writes()[old(self).pending_writes().len() as int]
                    == after_archive[old(self).pending_writes().len() as int]);
                Ok(Some(ClarificationReceipt(record_identifier)))
            },
        }
    }

    /// Register a referent. A registration whose names some referent
    /// already answers to is settled as it stands; otherwise its names must
    /// not collide with another referent's, aliases merge into an existing
    /// referent of the same canonical name, and a brand-new canonical name
    /// must be lowercase kebab-case.
    pub fn register_referent(&mut self, registration: crate::referent::ReferentRegistration) -> (r:
        Result<ReferentRegistrationReceipt, StoreError>)
        requires
            old(self).well_formed(),
        ensures
            r is Ok && settled_position(old(self)@.referents, registration.referent@, registration.aliases@)
                is Some ==> final(self).pending_writes() == old(self).pending_writes(),
            r is Ok && settled_position(old(self)@.referents, registration.referent@, registration.aliases@)
                is None ==> final(self).pending_writes() == old(self).pending_writes().push(
                if has_canonical(old(self)@.referents, registration.referent@) {
                    WriteView::MutateReferent(
                        final(self)@.referents[canonical_position(old(self)@.referents, registration.referent@)],
                    )
                } else {
                    WriteView::AssertReferent(final(self)@.referents.last())
                },
            ),
            final(self).well_formed(),
            final(self).same_settings(old(self)),
            final(self)@.records == old(self)@.records,
            r is Ok && settled_position(old(self)@.referents, registration.referent@, registration.aliases@)
                is None ==> final(self)@.referents == registry_after(
                old(self)@.referents,
                registration.referent@,
                registration.aliases@,
            ),
            match r {
                Ok(receipt) => match settled_position(
                    old(self)@.referents,
                    registration.referent@,
                    registration.aliases@,
                ) {
                    Some(k) => receipt.0@ == old(self)@.referents[k].referent && final(self)@
                        == old(self)@,
                    None => {
                        &&& !crate::referent::name_conflict(
                            old(self)@.referents,
                            crate::referent::StoredReferentView {
                                referent: registration.referent@,
                                aliases: registration.aliases@,
                            },
                        )
                        &&& receipt.0@ == registration.referent@
                        &&& final(self)@.commit_sequence == old(self)@.commit_sequence + 1
                        &&& if has_canonical(old(self)@.referents, registration.referent@) {
                            let k = canonical_position(
                                old(self)@.referents,
                                registration.referent@,
                            );
                            final(self)@.referents == old(self)@.referents.update(
                                k,
                                crate::referent::StoredReferentView {
                                    referent: registration.referent@,
                                    aliases: crate::referent::merged_aliases(
                                        old(self)@.referents[k].aliases,
                                        registration.referent@,
                                        registration.aliases@,
                                    ),
                                },
                            )
                        } else {
                            crate::referent::kebab_case(registration.referent@) && final(
                                self)@.referents == old(self)@.referents.push(
                                crate::referent::StoredReferentView {
                                    referent: registration.referent@,
                                    aliases: registration.aliases@,
                                },
                            )
                        }
                    },
                },
                Err(e) => final(self)@ == old(self)@ && final(self).pending_writes() == old(self).pending_writes() && settled_position(
                    old(self)@.referents,
                    registration.referent@,
                    registration.aliases@,
                ).is_none() && registration_failure(old(self)@, registration.referent@, registration.aliases@, e),
            },
    {
        if let Some(k) = settled_referent(&self.referents, &registration) {
            return Ok(ReferentRegistrationReceipt(self.referents[k].referent.clone()));
        }
        let crate::referent::ReferentRegistration { referent, aliases, .. } = registration;
        let candidate = StoredReferent::new(referent, aliases);
        crate::referent::reject_conflicting_referent_names(&self.referents, &candidate)?;
        match canonical_position_of(&self.referents, &candidate.referent) {
            Some(k) => {
                self.advance_commit()?;
                let existing = self.referents[k].clone();
                let StoredReferent { referent: candidate_referent, aliases: candidate_aliases } =
                    candidate;
                let merged = existing.with_aliases_merged(candidate_aliases);
                let receipt = ReferentRegistrationReceipt(merged.referent.clone());
                let queued = merged.clone();
                let ghost before = registry_view(self.referents@);
                self.referents.set(k, merged);
                assert(registry_view(self.referents@) =~= before.update(k as int, queued@));
                assert forall|a: int, b: int|
                    0 <= a < registry_view(self.referents@).len() && 0 <= b < registry_view(
                        self.referents@,
                    ).len() && a != b implies #[trigger] registry_view(self.referents@)[a].referent
                    != #[trigger] registry_view(self.referents@)[b].referent by {
                    assert(registry_view(self.referents@)[a].referent == before[a].referent);
                    assert(registry_view(self.referents@)[b].referent == before[b].referent);
                }
                self.queue(StoreWrite::MutateReferent(queued));
                Ok(receipt)
            },
            None => {
                crate::referent::validate_kebab_referent(&candidate.referent.0)?;
                self.advance_commit()?;
                let receipt = ReferentRegistrationReceipt(candidate.referent.clone());
                let queued = candidate.clone();
                let ghost before = registry_view(self.referents@);
                self.referents.push(candidate);
                assert(registry_view(self.referents@) =~= before.push(queued@));
                assert forall|a: int, b: int|
                    0 <= a < registry_view(self.referents@).len() && 0 <= b < registry_view(
                        self.referents@,
                    ).len() && a != b implies #[trigger] registry_view(self.referents@)[a].referent
                    != #[trigger] registry_view(self.referents@)[b].referent by {
                    if a < before.len() && b < before.len() {
                    } else if a < before.len() {
                        assert(before[a].referent != queued@.referent);
                    } else if b < before.len() {
                        assert(before[b].referent != queued@.referent);
                    }
                }
                self.queue(StoreWrite::AssertReferent(queued));
                Ok(receipt)
            },
        }
    }
}


/// The existing entry states the same arrow as the proposed one: same kind,
/// same domains, and descriptions equal up to surrounding whitespace and
/// ASCII letter case.
#[verifier::opaque]
pub open spec fn duplicates(existing: EntryView, proposed: EntryView) -> bool {
    &&& existing.kind == proposed.kind
    &&& existing.domains == proposed.domains
    &&& crate::text::ascii_case_insensitive_equal(
        crate::text::trimmed_text(existing.description),
        crate::text::trimmed_text(proposed.description),
    )
}

/// The first record duplicating the proposed entry, if any.
#[verifier::opaque]
pub open spec fn first_duplicate(records: Seq<RecordView>, proposed: EntryView) -> Option<int> {
    if exists|i: int| 0 <= i < records.len() && duplicates(#[trigger] records[i].entry, proposed) {
        Some(
            choose|i: int|
                0 <= i < records.len() && duplicates(#[trigger] records[i].entry, proposed)
                    && forall|j: int| 0 <= j < i ==> !duplicates(#[trigger] records[j].entry, proposed),
        )
    } else {
        None
    }
}

proof fn lemma_first_duplicate(records: Seq<RecordView>, proposed: EntryView, i: int)
    requires
        0 <= i < records.len(),
        duplicates(records[i].entry, proposed),
        forall|j: int| 0 <= j < i ==> !duplicates(#[trigger] records[j].entry, proposed),
    ensures
        first_duplicate(records, proposed) == Some(i),
{
    reveal(first_duplicate);
    let k = choose|k: int|
        0 <= k < records.len() && duplicates(#[trigger] records[k].entry, proposed) && forall|
            j: int,
        |
            0 <= j < k ==> !duplicates(#[trigger] records[j].entry, proposed);
    if k < i {
        assert(!duplicates(records[k].entry, proposed));
    }
    if k > i {
        assert(!duplicates(records[i].entry, proposed));
    }
}

pub fn entry_duplicates(existing: &Entry, proposed: &Entry) -> (r: bool)
    ensures
        r == duplicates(existing@, proposed@),
{
    reveal(duplicates);
    existing.kind.same_as(&proposed.kind) && existing.domains.same_as(&proposed.domains)
        && crate::text::eq_ignore_ascii_case(
        crate::text::trimmed(existing.description.0.as_str()),
        crate::text::trimmed(proposed.description.0.as_str()),
    )
}

impl Store {
    /// The first record stating the same arrow as the entry (after putting
    /// the entry's referents in canonical form).
    pub fn duplicate_record(&self, entry: &Entry) -> (r: Result<Option<StoredRecord>, StoreError>)
        requires
            self.well_formed(),
        ensures
            match r {
                Ok(found) => canonical_entry(self@.referents, entry@) is Some && match first_duplicate(
                    self@.records,
                    canonical_entry(self@.referents, entry@)->Some_0,
                ) {
                    Some(k) => 0 <= k < self@.records.len() && found is Some && found->Some_0@
                        == self@.records[k],
                    None => found is None,
                },
                Err(e) => canonical_entry(self@.referents, entry@).is_none()
                    && e is UnregisteredReferent,
            },
    {
        let proposed = self.canonicalized_entry(entry)?;
        let ghost view = self@.records;
        let mut i: usize = 0;
        while i < self.records.len()
            invariant
                i <= self.records.len(),
                view == records_view(self.records@),
                canonical_entry(self@.referents, entry@) == Some(proposed@),
                forall|j: int| 0 <= j < i ==> !duplicates(#[trigger] view[j].entry, proposed@),
            decreases self.records.len() - i,
        {
            if entry_duplicates(&self.records[i].entry, &proposed) {
                proof {
                    lemma_first_duplicate(view, proposed@, i as int);
                }
                return Ok(Some(self.records[i].clone()));
            }
            i = i + 1;
        }
        proof {
            reveal(first_duplicate);
        }
        Ok(None)
    }

    /// Propose an entry unless it duplicates a live record. A duplicate is
    /// refused: the existing record's importance is raised one rung, and
    /// the refusal carries the updated record.
    #[verifier::spinoff_prover]
    pub fn guard_propose(&mut self, entry: Entry) -> (r: Result<
        Result<SemaReceipt, crate::verdict::GuardianRejection>,
        StoreError,
    >)
        requires
            old(self).well_formed(),
        ensures
            deduplicated_outcome(old(self)@, final(self)@, entry@, r),
            final(self).well_formed(),
            final(self).same_settings(old(self)),
            final(self)@.referents == old(self)@.referents,
            match r {
                Ok(Ok(receipt)) => {
                    let id = receipt.record_identifier.0@;
                    let canonical = canonical_entry(old(self)@.referents, entry@)->Some_0;
                    &&& canonical_entry(old(self)@.referents, entry@) is Some
                    &&& first_duplicate(old(self)@.records, canonical) is None
                    &&& !has_record(old(self)@.records, id)
                    &&& well_formed_identifier(id)
                    &&& final(self)@.records == old(self)@.records.push(
                        RecordView { identifier: id, entry: canonical },
                    )
                    &&& final(self)@.commit_sequence == old(self)@.commit_sequence + 1
                },
                Ok(Err(rejection)) => {
                    let canonical = canonical_entry(old(self)@.referents, entry@)->Some_0;
                    let k = first_duplicate(old(self)@.records, canonical)->Some_0;
                    let bumped = with_bumped_importance(old(self)@.records[k].entry);
                    &&& canonical_entry(old(self)@.referents, entry@) is Some
                    &&& first_duplicate(old(self)@.records, canonical) is Some
                    &&& final(self)@.records == with_entry(old(self)@.records, k, bumped)
                    &&& final(self)@.commit_sequence == old(self)@.commit_sequence + 1
                    &&& rejection.guardian_rejection_reason
                        == crate::verdict::GuardianRejectionReason::Duplicate
                    &&& rejection.record_set.0@.len() == 1
                    &&& rejection.record_set.0@[0]@ == RecordView {
                        identifier: old(self)@.records[k].identifier,
                        entry: bumped,
                    }
                    &&& rejection.explanation.0@
                        == "proposal duplicates an existing forward arrow"@
                },
                Err(e) => final(self)@ == old(self)@ && ((e is IdentifierMint && canonical_entry(
                    old(self)@.referents,
                    entry@,
                ) is Some && first_duplicate(
                    old(self)@.records,
                    canonical_entry(old(self)@.referents, entry@)->Some_0,
                ) is None) || (e is UnregisteredReferent && canonical_entry(old(self)@.referents, entry@).is_none())
                    || (e is Database && old(self)@.commit_sequence == u64::MAX)),
            },
    {
        let duplicate = match self.duplicate_record(&entry)? {
            None => {
                let receipt = self.propose(entry)?;
                return Ok(Ok(receipt));
            },
            Some(duplicate) => duplicate,
        };
        let ghost k = first_duplicate(
            old(self)@.records,
            canonical_entry(old(self)@.referents, entry@)->Some_0,
        )->Some_0;
        proof {
            reveal_strlit("proposal duplicates an existing forward arrow");
        }
        let rejection = self.refuse_duplicate(duplicate, Ghost(k), "proposal duplicates an existing forward arrow")?;
        Ok(Err(rejection))
    }

    /// A guardian's duplicate verdict, made concrete: when a live record
    /// states the same arrow, its importance is raised one rung and the
    /// refusal carries the updated record; otherwise the guardian's own
    /// refusal stands.
    pub fn apply_duplicate_guardian_rejection(
        &mut self,
        entry: &Entry,
        fallback: crate::verdict::GuardianRejection,
    ) -> (r: Result<crate::verdict::GuardianRejection, StoreError>)
        requires
            old(self).well_formed(),
        ensures
            final(self).well_formed(),
            final(self).same_settings(old(self)),
            final(self)@.referents == old(self)@.referents,
            match r {
                Ok(rejection) => canonical_entry(old(self)@.referents, entry@) is Some && match first_duplicate(
                    old(self)@.records,
                    canonical_entry(old(self)@.referents, entry@)->Some_0,
                ) {
                    None => rejection == fallback && final(self)@ == old(self)@,
                    Some(k) => {
                        let bumped = with_bumped_importance(old(self)@.records[k].entry);
                        &&& final(self)@.records == with_entry(old(self)@.records, k, bumped)
                        &&& final(self)@.commit_sequence == old(self)@.commit_sequence + 1
                        &&& rejection.guardian_rejection_reason
                            == crate::verdict::GuardianRejectionReason::Duplicate
                        &&& rejection.record_set.0@.len() == 1
                        &&& rejection.record_set.0@[0]@ == RecordView {
                            identifier: old(self)@.records[k].identifier,
                            entry: bumped,
                        }
                        &&& rejection.explanation.0@ == "guardian judged the write as a duplicate"@
                    },
                },
                Err(e) => final(self)@ == old(self)@ && ((e is UnregisteredReferent && canonical_entry(
                    old(self)@.referents,
                    entry@,
                ) is None) || (e is Database && old(self)@.commit_sequence == u64::MAX)),
            },
    {
        let duplicate = match self.duplicate_record(entry)? {
            None => {
                proof {
                    self.lemma_same_settings_reflexive();
                }
                return Ok(fallback);
            },
            Some(duplicate) => duplicate,
        };
        let ghost k = first_duplicate(
            old(self)@.records,
            canonical_entry(old(self)@.referents, entry@)->Some_0,
        )->Some_0;
        proof {
            reveal_strlit("guardian judged the write as a duplicate");
        }
        self.refuse_duplicate(duplicate, Ghost(k), "guardian judged the write as a duplicate")
    }

    /// The receipt a registration gets when some registration already
    /// answers to every one of its names; `None` otherwise.
    pub fn settled_referent_registration_receipt(
        &self,
        registration: &crate::referent::ReferentRegistration,
    ) -> (r: Option<ReferentRegistrationReceipt>)
        ensures
            match settled_position(self@.referents, registration.referent@, registration.aliases@) {
                Some(k) => r is Some && r->Some_0.0@ == self@.referents[k].referent,
                None => r is None,
            },
    {
        match settled_referent(&self.referents, registration) {
            Some(k) => Some(ReferentRegistrationReceipt(self.referents[k].referent.clone())),
            None => None,
        }
    }

    /// The registry, as it stands.
    pub fn registered_referents(&self) -> (r: Vec<StoredReferent>)
        ensures
            registry_view(r@) == self@.referents,
    {
        let ghost view = registry_view(self.referents@);
        let mut out: Vec<StoredReferent> = Vec::new();
        let mut i: usize = 0;
        while i < self.referents.len()
            invariant
                i <= self.referents.len(),
                view == registry_view(self.referents@),
                registry_view(out@) == view.subrange(0, i as int),
            decreases self.referents.len() - i,
        {
            let ghost before = registry_view(out@);
            out.push(self.referents[i].clone());
            assert(registry_view(out@) =~= before.push(view[i as int]));
            assert(view.subrange(0, i + 1) =~= view.subrange(0, i as int).push(view[i as int]));
            i = i + 1;
        }
        assert(view.subrange(0, self.referents.len() as int) =~= view);
        out
    }

    /// Raise the duplicate's importance and build the refusal that carries
    /// the updated record.
    #[verifier::spinoff_prover]
    fn refuse_duplicate(&mut self, duplicate: StoredRecord, k: Ghost<int>, explanation: &str) -> (r: Result<
        crate::verdict::GuardianRejection,
        StoreError,
    >)
        requires
            old(self).well_formed(),
            0 <= k@ < old(self)@.records.len(),
            old(self)@.records[k@] == duplicate@,
        ensures
            final(self).well_formed(),
            final(self).same_settings(old(self)),
            final(self)@.referents == old(self)@.referents,
            match r {
                Ok(rejection) => {
                    let bumped = with_bumped_importance(old(self)@.records[k@].entry);
                    &&& final(self)@.records == with_entry(old(self)@.records, k@, bumped)
                    &&& final(self)@.commit_sequence == old(self)@.commit_sequence + 1
                    &&& rejection.guardian_rejection_reason
                        == crate::verdict::GuardianRejectionReason::Duplicate
                    &&& rejection.record_set.0@.len() == 1
                    &&& rejection.record_set.0@[0]@ == RecordView {
                        identifier: old(self)@.records[k@].identifier,
                        entry: bumped,
                    }
                    &&& rejection.explanation.0@ == explanation@
                },
                Err(e) => final(self)@ == old(self)@ && e is Database && old(self)@.commit_sequence
                    == u64::MAX,
            },
    {
        proof {
            lemma_record_position(old(self)@.records, duplicate@.identifier, k@);
        }
        let record_identifier = RecordIdentifier(duplicate.record_identifier.clone());
        let bumped = match self.bump_importance(ImportanceBump(record_identifier.clone()))? {
            Some(receipt) => receipt,
            None => {
                return Err(StoreError::DuplicateRecordVanished(record_identifier.0));
            },
        };
        proof {
            lemma_record_position(self@.records, duplicate@.identifier, k@);
        }
        let updated_entry = match self.entry_by_identifier(record_identifier.0.as_str()) {
            Some(updated) => updated,
            None => {
                return Err(StoreError::DuplicateRecordVanished(record_identifier.0));
            },
        };
        let mut records: Vec<ObservedRecord> = Vec::new();
        records.push(ObservedRecord { record_identifier, entry: updated_entry });
        Ok(
            crate::verdict::GuardianRejection {
                guardian_rejection_reason: crate::verdict::GuardianRejectionReason::Duplicate,
                record_set: crate::verdict::RecordSet(records),
                explanation: crate::verdict::Explanation::new(explanation),
            },
        )
    }
}


/// The identifiers of a list of record identifiers, by their characters.
pub open spec fn identifier_texts(ids: Seq<RecordIdentifier>) -> Seq<Seq<char>> {
    ids.map_values(|id: RecordIdentifier| id.0@)
}

/// The entry that the latest of `ids` equal to `id` was given, pairing
/// `ids` and `entries` position by position; `None` when `id` is not
/// among them.
pub open spec fn assigned(ids: Seq<Seq<char>>, entries: Seq<EntryView>, id: Seq<char>) -> Option<
    EntryView,
>
    decreases ids.len(),
{
    if ids.len() == 0 || entries.len() == 0 {
        None
    } else if ids.last() == id {
        Some(entries.last())
    } else {
        assigned(ids.drop_last(), entries.drop_last(), id)
    }
}

/// Each entry with its referents in canonical form (meaningful when all
/// are registered).
pub open spec fn canonical_entries(registry: Seq<StoredReferentView>, entries: Seq<EntryView>) -> Seq<
    EntryView,
> {
    entries.map_values(|e: EntryView| canonical_entry(registry, e)->Some_0)
}

/// Whether every entry's referents are registered.
pub open spec fn all_entries_registered(
    registry: Seq<StoredReferentView>,
    entries: Seq<EntryView>,
) -> bool {
    forall|k: int| 0 <= k < entries.len() ==> (#[trigger] canonical_entry(registry, entries[k])) is Some
}

/// Whether no two identifiers in the list are the same.
pub open spec fn distinct_texts(ids: Seq<Seq<char>>) -> bool {
    forall|a: int, b: int| 0 <= a < ids.len() && 0 <= b < ids.len() && a != b ==> #[trigger] ids[a] != #[trigger] ids[b]
}

/// A request to replace records by new ones: the replacements are
/// proposed, then the retired records are archived and removed.
#[derive(Debug)]
pub struct Supersession {
    pub retired_identifiers: Vec<RecordIdentifier>,
    pub replacements: Vec<Entry>,
    pub justification: Justification,
}

/// What a supersession reports: the retired identifiers and the
/// identifiers of the replacements, in the order given.
#[derive(Debug)]
pub struct SupersessionReceipt {
    pub retired_identifiers: Vec<RecordIdentifier>,
    pub record_identifiers: Vec<RecordIdentifier>,
}

/// One clarified record and its resolved description.
#[derive(Debug)]
pub struct TargetClarification {
    pub record_identifier: RecordIdentifier,
    pub description: Description,
}

/// A request to settle a clarification record: each target takes its
/// resolved description, and the clarification record itself is removed.
#[derive(Debug)]
pub struct ClarificationResolution {
    pub clarification_record_identifier: RecordIdentifier,
    pub target_clarifications: Vec<TargetClarification>,
    pub justification: Justification,
}

/// What a resolution reports.
#[derive(Debug)]
pub struct ClarificationResolutionReceipt {
    pub clarification_record_identifier: RecordIdentifier,
    pub record_identifiers: Vec<RecordIdentifier>,
}

/// The latest description given to `id` among the targets.
pub open spec fn resolved_description(targets: Seq<TargetClarification>, id: Seq<char>) -> Option<
    Seq<char>,
>
    decreases targets.len(),
{
    if targets.len() == 0 {
        None
    } else if targets.last().record_identifier.0@ == id {
        Some(targets.last().description@)
    } else {
        resolved_description(targets.drop_last(), id)
    }
}

/// Whether every target names a live record.
pub open spec fn targets_present(records: Seq<RecordView>, targets: Seq<TargetClarification>) -> bool {
    forall|k: int| 0 <= k < targets.len() ==> has_record(records, #[trigger] targets[k].record_identifier.0@)
}

/// A request to sweep out every record a query matches.
#[derive(Debug)]
pub struct RemovalCandidateCollection {
    pub record_query: Query,
}

/// Why a matched record was left in place.
#[derive(Debug, Clone, Copy, PartialEq, Eq, Structural)]
pub enum RemovalCandidateSkipReason {
    ArchiveFailed,
    RecordAlreadyRemoved,
}

/// A matched record that was left in place, and why.
#[derive(Debug)]
pub struct SkippedRemovalCandidate {
    pub record_identifier: RecordIdentifier,
    pub removal_candidate_skip_reason: RemovalCandidateSkipReason,
}

/// What a sweep reports: the archived records, the removed identifiers
/// and the skipped candidates.
#[derive(Debug)]
pub struct RemovalCandidatesCollection {
    pub removal_archive_records: Vec<ObservedRecord>,
    pub removed_identifiers: Vec<RecordIdentifier>,
    pub skipped_removal_candidates: Vec<SkippedRemovalCandidate>,
}

proof fn lemma_assigned_push(ids: Seq<Seq<char>>, entries: Seq<EntryView>, new_id: Seq<char>, e: EntryView, id: Seq<char>)
    requires
        ids.len() == entries.len(),
    ensures
        assigned(ids.push(new_id), entries.push(e), id) == if id == new_id {
            Some(e)
        } else {
            assigned(ids, entries, id)
        },
{
    assert(ids.push(new_id).drop_last() =~= ids);
    assert(entries.push(e).drop_last() =~= entries);
}

proof fn lemma_assigned_member(ids: Seq<Seq<char>>, entries: Seq<EntryView>, k: int)
    requires
        ids.len() == entries.len(),
        distinct_texts(ids),
        0 <= k < ids.len(),
    ensures
        assigned(ids, entries, ids[k]) == Some(entries[k]),
    decreases ids.len(),
{
    if k == ids.len() - 1 {
    } else {
        let shorter = ids.drop_last();
        assert(ids.last() != ids[k]);
        assert(shorter[k] == ids[k]);
        assert forall|a: int, b: int| 0 <= a < shorter.len() && 0 <= b < shorter.len() && a != b implies #[trigger] shorter[a] != #[trigger] shorter[b] by {
            assert(shorter[a] == ids[a] && shorter[b] == ids[b]);
        }
        lemma_assigned_member(shorter, entries.drop_last(), k);
    }
}

proof fn lemma_assigned_some(ids: Seq<Seq<char>>, entries: Seq<EntryView>, id: Seq<char>)
    requires
        ids.len() == entries.len(),
        assigned(ids, entries, id) is Some,
    ensures
        ids.contains(id),
        entries.contains(assigned(ids, entries, id)->Some_0),
    decreases ids.len(),
{
    if ids.last() == id {
        assert(ids[ids.len() - 1] == id);
        assert(entries[entries.len() - 1] == entries.last());
    } else {
        lemma_assigned_some(ids.drop_last(), entries.drop_last(), id);
        let k = choose|k: int| 0 <= k < ids.drop_last().len() && ids.drop_last()[k] == id;
        assert(ids[k] == id);
        let j = choose|j: int| 0 <= j < entries.drop_last().len() && entries.drop_last()[j] == assigned(ids, entries, id)->Some_0;
        assert(entries[j] == entries.drop_last()[j]);
    }
}

proof fn lemma_assigned_absent(ids: Seq<Seq<char>>, entries: Seq<EntryView>, id: Seq<char>)
    requires
        ids.len() == entries.len(),
        !ids.contains(id),
    ensures
        assigned(ids, entries, id) is None,
    decreases ids.len(),
{
    if ids.len() > 0 {
        assert(ids.last() == ids[ids.len() - 1]);
        let shorter = ids.drop_last();
        assert forall|j: int| 0 <= j < shorter.len() implies shorter[j] != id by {
            assert(shorter[j] == ids[j]);
        }
        lemma_assigned_absent(shorter, entries.drop_last(), id);
    }
}

proof fn lemma_resolved_push(targets: Seq<TargetClarification>, t: TargetClarification, id: Seq<char>)
    ensures
        resolved_description(targets.push(t), id) == if t.record_identifier.0@ == id {
            Some(t.description@)
        } else {
            resolved_description(targets, id)
        },
{
    assert(targets.push(t).drop_last() =~= targets);
}

proof fn lemma_take_push_contains(ids: Seq<Seq<char>>, i: int, id: Seq<char>)
    requires
        0 <= i < ids.len(),
    ensures
        ids.take(i + 1).contains(id) == (ids.take(i).contains(id) || ids[i] == id),
{
    assert(ids.take(i + 1) =~= ids.take(i).push(ids[i]));
    if ids.take(i).contains(id) {
        let j = choose|j: int| 0 <= j < ids.take(i).len() && #[trigger] ids.take(i)[j] == id;
        assert(ids.take(i + 1)[j] == id);
    }
    if ids[i] == id {
        assert(ids.take(i + 1)[i] == id);
    }
    if ids.take(i + 1).contains(id) {
        let j = choose|j: int| 0 <= j < ids.take(i + 1).len() && #[trigger] ids.take(i + 1)[j] == id;
        if j < i {
            assert(ids.take(i)[j] == id);
        }
    }
}

/// The records a query admits are exactly the rows it admits, each once.
proof fn lemma_selected_rows(records: Seq<RecordView>, q: QueryView)
    requires
        distinct_identifiers(records),
    ensures
        distinct_identifiers(selected(records, q)),
        forall|j: int| 0 <= j < selected(records, q).len() ==> has_record(records, #[trigger] selected(records, q)[j].identifier)
            && selected(records, q)[j] == records[record_position(records, selected(records, q)[j].identifier)]
            && query_admits(q, selected(records, q)[j].entry),
        forall|id: Seq<char>| #[trigger] identifier_list(selected(records, q)).contains(id) == (has_record(records, id)
            && query_admits(q, records[record_position(records, id)].entry)),
    decreases records.len(),
{
    let sel = selected(records, q);
    if records.len() == 0 {
        assert forall|id: Seq<char>| #[trigger] identifier_list(sel).contains(id) == (has_record(records, id)
            && query_admits(q, records[record_position(records, id)].entry)) by {
            assert(identifier_list(sel) =~= Seq::<Seq<char>>::empty());
        }
    } else {
        let shorter = records.drop_last();
        let last = records.last();
        assert forall|a: int, b: int|
            0 <= a < shorter.len() && 0 <= b < shorter.len() && a != b implies #[trigger] shorter[a].identifier
            != #[trigger] shorter[b].identifier by {
            assert(shorter[a] == records[a] && shorter[b] == records[b]);
        }
        lemma_selected_rows(shorter, q);
        let rest = selected(shorter, q);
        let n = records.len() - 1;
        assert(!has_record(shorter, last.identifier)) by {
            if has_record(shorter, last.identifier) {
                let i = choose|i: int| 0 <= i < shorter.len() && #[trigger] shorter[i].identifier == last.identifier;
                assert(records[i].identifier == records[n].identifier);
            }
        }
        lemma_record_position(records, last.identifier, n);
        assert forall|id: Seq<char>| has_record(shorter, id) implies has_record(records, id)
            && record_position(records, id) == record_position(shorter, id)
            && records[record_position(records, id)] == shorter[record_position(shorter, id)] by {
            let i = record_position(shorter, id);
            assert(records[i] == shorter[i]);
            lemma_record_position(records, id, i);
        }
        assert forall|id: Seq<char>| has_record(records, id) && id != last.identifier implies has_record(shorter, id) by {
            let i = choose|i: int| 0 <= i < records.len() && #[trigger] records[i].identifier == id;
            assert(i != n);
            assert(shorter[i] == records[i]);
        }
        if query_admits(q, last.entry) {
            assert(sel == rest.push(last));
            assert(identifier_list(sel) =~= identifier_list(rest).push(last.identifier));
            assert forall|a: int, b: int|
                0 <= a < sel.len() && 0 <= b < sel.len() && a != b implies #[trigger] sel[a].identifier
                != #[trigger] sel[b].identifier by {
                if a < rest.len() && b < rest.len() {
                    assert(sel[a] == rest[a] && sel[b] == rest[b]);
                } else if a < rest.len() {
                    assert(sel[a] == rest[a]);
                    assert(has_record(shorter, rest[a].identifier));
                } else if b < rest.len() {
                    assert(sel[b] == rest[b]);
                    assert(has_record(shorter, rest[b].identifier));
                }
            }
            assert forall|j: int| 0 <= j < sel.len() implies has_record(records, #[trigger] sel[j].identifier)
                && sel[j] == records[record_position(records, sel[j].identifier)]
                && query_admits(q, sel[j].entry) by {
                if j < rest.len() {
                    assert(sel[j] == rest[j]);
                }
            }
            assert forall|id: Seq<char>| #[trigger] identifier_list(sel).contains(id) == (has_record(records, id)
                && query_admits(q, records[record_position(records, id)].entry)) by {
                if identifier_list(sel).contains(id) {
                    let j = choose|j: int| 0 <= j < identifier_list(sel).len() && #[trigger] identifier_list(sel)[j] == id;
                    if j < rest.len() {
                        assert(identifier_list(rest)[j] == id);
                        assert(identifier_list(rest).contains(id));
                    }
                }
                if id != last.identifier && identifier_list(rest).contains(id) {
                    let j = choose|j: int| 0 <= j < identifier_list(rest).len() && #[trigger] identifier_list(rest)[j] == id;
                    assert(identifier_list(sel)[j] == id);
                }
                if id == last.identifier {
                    assert(identifier_list(sel)[rest.len() as int] == id);
                }
            }
        } else {
            assert(sel == rest);
            assert forall|id: Seq<char>| #[trigger] identifier_list(sel).contains(id) == (has_record(records, id)
                && query_admits(q, records[record_position(records, id)].entry)) by {
                if id == last.identifier {
                    if identifier_list(rest).contains(id) {
                        let j = choose|j: int| 0 <= j < identifier_list(rest).len() && #[trigger] identifier_list(rest)[j] == id;
                        assert(has_record(shorter, rest[j].identifier));
                    }
                }
            }
        }
    }
}

/// The identifiers of rows, in order.
pub open spec fn identifier_list(records: Seq<RecordView>) -> Seq<Seq<char>> {
    records.map_values(|r: RecordView| r.identifier)
}

impl Store {
    /// Replace records by new ones. Every retired record must be live,
    /// else nothing happens and `None` comes back. The replacements are
    /// proposed first, in order, so a failure there removes nothing; then
    /// each retired record is archived and removed.
    #[verifier::rlimit(40)]
    pub fn supersede(&mut self, supersession: Supersession) -> (r: Result<
        Option<SupersessionReceipt>,
        StoreError,
    >)
        requires
            old(self).well_formed(),
        ensures
            supersession_owed(old(self)@, supersession) ==> r matches Ok(Some(_)),
            supersede_outcome(old(self)@, final(self)@, supersession, r),
            superseded_records_archived(*old(self), *final(self)),
            final(self).well_formed(),
            final(self).same_settings(old(self)),
            final(self)@.referents == old(self)@.referents,
            match r {
                Ok(None) => !(forall|k: int| 0 <= k < supersession.retired_identifiers.len()
                    ==> has_record(old(self)@.records, #[trigger] supersession.retired_identifiers@[k].0@))
                    && final(self)@ == old(self)@ && final(self).pending_writes() == old(self).pending_writes(),
                Ok(Some(receipt)) => {
                    let retired = identifier_texts(supersession.retired_identifiers@);
                    let fresh = identifier_texts(receipt.record_identifiers@);
                    let placed = canonical_entries(old(self)@.referents, supersession.replacements@.map_values(|e: Entry| e@));
                    &&& receipt.retired_identifiers == supersession.retired_identifiers
                    &&& forall|k: int| 0 <= k < retired.len() ==> has_record(old(self)@.records, #[trigger] retired[k])
                    &&& all_entries_registered(old(self)@.referents, supersession.replacements@.map_values(|e: Entry| e@))
                    &&& fresh.len() == supersession.replacements.len()
                    &&& distinct_texts(fresh)
                    &&& forall|k: int| 0 <= k < fresh.len() ==> !has_record(old(self)@.records, #[trigger] fresh[k])
                        && well_formed_identifier(fresh[k])
                    &&& forall|id: Seq<char>| #[trigger] entry_of(final(self)@.records, id) == if retired.contains(id) {
                        None
                    } else {
                        match assigned(fresh, placed, id) {
                            Some(e) => Some(e),
                            None => entry_of(old(self)@.records, id),
                        }
                    }
                },
                Err(e) => (forall|k: int| 0 <= k < supersession.retired_identifiers.len()
                    ==> has_record(old(self)@.records, #[trigger] supersession.retired_identifiers@[k].0@)) && ((e is IdentifierMint) || (e is UnregisteredReferent && !all_entries_registered(
                    old(self)@.referents,
                    supersession.replacements@.map_values(|e: Entry| e@),
                )) || (e is Database && old(self)@.commit_sequence + supersession.replacements.len()
                    + supersession.retired_identifiers.len() > u64::MAX)),
            },
    {
        let ghost retired_list = supersession.retired_identifiers@;
        let Supersession { retired_identifiers, replacements, .. } = supersession;
        let ghost retired = identifier_texts(retired_identifiers@);
        let ghost old_records = self@.records;
        let ghost registry = self@.referents;
        let ghost wanted = replacements@.map_values(|e: Entry| e@);
        let ghost start = *self;
        let mut i: usize = 0;
        while i < retired_identifiers.len()
            invariant
                i <= retired_identifiers.len(),
                *self == start,
                start == *old(self),
                retired_list == retired_identifiers@,
                retired_list == supersession.retired_identifiers@,
                self.well_formed(),
                old_records == self@.records,
                retired == identifier_texts(retired_identifiers@),
                forall|k: int| 0 <= k < i ==> has_record(old_records, #[trigger] retired[k]),
            decreases retired_identifiers.len() - i,
        {
            if position_of(&self.records, retired_identifiers[i].0.as_str()).is_none() {
                assert(!has_record(old_records, retired_list[i as int].0@));
                assert(*self == *old(self));
                return Ok(None);
            }
            i = i + 1;
        }
        let ghost base = *self;
        assert forall|q: int| 0 <= q < supersession.retired_identifiers.len() implies has_record(old_records, #[trigger] supersession.retired_identifiers@[q].0@) by {
            assert(retired[q] == retired_list[q].0@);
        }
        let mut record_identifiers: Vec<RecordIdentifier> = Vec::new();
        let mut k: usize = 0;
        let mut replacements = replacements;
        let n: usize = replacements.len();
        while replacements.len() > 0
            invariant
                n == wanted.len(),
                wanted == supersession.replacements@.map_values(|e: Entry| e@),
                k <= n,
                self.well_formed(),
                self.same_settings(&base),
                base == *old(self),
                self@.referents == registry,
                base@.records == old_records,
                base@.referents == registry,
                base.well_formed(),
                retired == identifier_texts(retired_identifiers@),
                forall|j: int| 0 <= j < retired.len() ==> has_record(old_records, #[trigger] retired[j]),
                forall|q: int| 0 <= q < supersession.retired_identifiers.len() ==> has_record(old_records, #[trigger] supersession.retired_identifiers@[q].0@),
                replacements.len() + k == wanted.len(),
                k == record_identifiers.len(),
                forall|j: int| 0 <= j < replacements.len() ==> (#[trigger] replacements@[j])@ == wanted[k + j],
                self@.commit_sequence == base@.commit_sequence + k,
                distinct_texts(identifier_texts(record_identifiers@)),
                forall|j: int| 0 <= j < k ==> !has_record(old_records, #[trigger] identifier_texts(record_identifiers@)[j])
                    && well_formed_identifier(identifier_texts(record_identifiers@)[j]),
                forall|j: int| 0 <= j < k ==> (#[trigger] canonical_entry(registry, wanted[j])) is Some,
                forall|id: Seq<char>| #[trigger] entry_of(self@.records, id) == match assigned(
                    identifier_texts(record_identifiers@),
                    canonical_entries(registry, wanted).take(k as int),
                    id,
                ) {
                    Some(e) => Some(e),
                    None => entry_of(old_records, id),
                },
                forall|id: Seq<char>| has_record(old_records, id) ==> has_record(self@.records, id),
            decreases replacements.len(),
        {
            let entry = replacements.remove(0);
            let ghost before = self@;
            let ghost before_ids = identifier_texts(record_identifiers@);
            let receipt = match self.propose(entry) {
                Ok(receipt) => receipt,
                Err(e) => {
                    proof {
                        let ids = identifier_texts(record_identifiers@);
                        let sofar = canonical_entries(registry, wanted).take(k as int);
                        assert(self@ == before);
                        assert forall|id: Seq<char>|
                            has_record(old_records, id) implies #[trigger] entry_of(
                            self@.records,
                            id,
                        ) == entry_of(old_records, id) by {
                            if ids.contains(id) {
                                let q = choose|q: int| 0 <= q < ids.len() && ids[q] == id;
                                assert(!has_record(old_records, ids[q]));
                            }
                            lemma_assigned_absent(ids, sofar, id);
                        }
                        assert forall|id: Seq<char>|
                            #[trigger] entry_of(self@.records, id) is Some && entry_of(self@.records, id) != entry_of(
                                old_records,
                                id,
                            ) implies !has_record(old_records, id) && canonical_entries(registry, wanted).contains(
                            entry_of(self@.records, id)->Some_0,
                        ) by {
                            lemma_assigned_some(ids, sofar, id);
                            let q = choose|q: int| 0 <= q < ids.len() && ids[q] == id;
                            assert(!has_record(old_records, ids[q]));
                            let w = choose|w: int| 0 <= w < sofar.len() && sofar[w] == assigned(ids, sofar, id)->Some_0;
                            assert(canonical_entries(registry, wanted)[w] == sofar[w]);
                        }
                    }
                    return Err(e);
                },
            };
            let ghost new_id = receipt.record_identifier.0@;
            proof {
                let row = RecordView { identifier: new_id, entry: canonical_entry(registry, wanted[k as int])->Some_0 };
                assert forall|id: Seq<char>| #[trigger] entry_of(self@.records, id) == if id == new_id {
                    Some(row.entry)
                } else {
                    entry_of(before.records, id)
                } by {
                    lemma_entry_of_push(before.records, row, id);
                }
                assert(canonical_entries(registry, wanted).take(k + 1) =~= canonical_entries(registry, wanted).take(k as int).push(row.entry));
                assert(identifier_texts(record_identifiers@.push(receipt.record_identifier)) =~= before_ids.push(new_id));
                assert forall|id: Seq<char>| #[trigger] assigned(before_ids.push(new_id), canonical_entries(registry, wanted).take(k as int).push(row.entry), id)
                    == if id == new_id { Some(row.entry) } else { assigned(before_ids, canonical_entries(registry, wanted).take(k as int), id) } by {
                    lemma_assigned_push(before_ids, canonical_entries(registry, wanted).take(k as int), new_id, row.entry, id);
                }
                assert forall|j: int| 0 <= j < k implies before_ids[j] != new_id by {
                    assert(entry_of(before.records, before_ids[j]) is Some) by {
                        lemma_assigned_member(before_ids, canonical_entries(registry, wanted).take(k as int), j);
                    }
                }
                assert forall|id: Seq<char>| has_record(old_records, id) implies has_record(self@.records, id) by {
                    assert(has_record(before.records, id));
                    let p = record_position(before.records, id);
                    assert(self@.records[p] == before.records[p]);
                }
            }
            record_identifiers.push(receipt.record_identifier);
            k = k + 1;
            proof {
                let ids = identifier_texts(record_identifiers@);
                assert forall|a: int, b: int| 0 <= a < ids.len() && 0 <= b < ids.len() && a != b implies #[trigger] ids[a] != #[trigger] ids[b] by {
                    if a < before_ids.len() && b < before_ids.len() {
                        assert(ids[a] == before_ids[a] && ids[b] == before_ids[b]);
                    } else if a < before_ids.len() {
                        assert(ids[a] == before_ids[a]);
                    } else if b < before_ids.len() {
                        assert(ids[b] == before_ids[b]);
                    }
                }
                assert forall|j: int| 0 <= j < k implies !has_record(old_records, #[trigger] ids[j]) && well_formed_identifier(ids[j]) by {
                    if j < k - 1 {
                        assert(ids[j] == before_ids[j]);
                    } else {
                        assert(ids[j] == new_id);
                        if has_record(old_records, new_id) {
                            assert(has_record(before.records, new_id));
                        }
                    }
                }
            }
        }
        let ghost fresh = identifier_texts(record_identifiers@);
        let ghost placed = canonical_entries(registry, wanted);
        proof {
            assert(placed.take(k as int) =~= placed);
            assert forall|j: int| 0 <= j < wanted.len() implies (#[trigger] canonical_entry(registry, wanted[j])) is Some by {}
        }
        let ghost middle = self@.records;
        let ghost archive_path = archive_path_of(self.spec_path(), self.spec_archive_target());
        let mut a: usize = 0;
        while a < retired_identifiers.len()
            invariant
                a <= retired_identifiers.len(),
                self.well_formed(),
                self.same_settings(&base),
                base == *old(self),
                base@.referents == registry,
                wanted == supersession.replacements@.map_values(|e: Entry| e@),
                self@.referents == registry,
                self@.records == middle,
                self@.commit_sequence == base@.commit_sequence + wanted.len(),
                retired == identifier_texts(retired_identifiers@),
                forall|j: int| 0 <= j < retired.len() ==> has_record(middle, #[trigger] retired[j]),
                fresh.len() == placed.len(),
                placed == canonical_entries(registry, wanted),
                base@.records == old_records,
                forall|j: int| 0 <= j < fresh.len() ==> !has_record(old_records, #[trigger] fresh[j]),
                forall|id: Seq<char>| #[trigger] entry_of(middle, id) == match assigned(fresh, placed, id) {
                    Some(e) => Some(e),
                    None => entry_of(old_records, id),
                },
                forall|j: int| 0 <= j < retired.len() ==> has_record(old_records, #[trigger] retired[j]),
                archive_path == archive_path_of(base.spec_path(), base.spec_archive_target()),
                forall|j: int| 0 <= j < a ==> archive_copy_queued(
                    self.pending_writes(),
                    archive_path,
                    #[trigger] retired[j],
                    entry_of(old_records, retired[j])->Some_0,
                ),
            decreases retired_identifiers.len() - a,
        {
            let p = position_of(&self.records, retired_identifiers[a].0.as_str());
            assert(has_record(middle, retired[a as int]));
            let ghost queued = self.pending_writes();
            let ghost commit = self@.commit_sequence;
            match p {
                Some(pos) => self.archive_at(pos),
                None => {},
            }
            proof {
                let id = retired[a as int];
                assert(id == retired_identifiers@[a as int].0@);
                if fresh.contains(id) {
                    let q = choose|q: int| 0 <= q < fresh.len() && fresh[q] == id;
                    assert(!has_record(old_records, fresh[q]));
                }
                lemma_assigned_absent(fresh, placed, id);
                assert(entry_of(middle, id) == entry_of(old_records, id));
                let w = self.pending_writes();
                assert(w[queued.len() as int] == WriteView::ArchiveRecord(
                    archive_path,
                    RecordView { identifier: archive_identifier_text(id, commit), entry: entry_of(old_records, id)->Some_0 },
                ));
                assert(archive_copy_queued(w, archive_path, id, entry_of(old_records, id)->Some_0));
                assert forall|j: int| 0 <= j < a + 1 implies archive_copy_queued(
                    w,
                    archive_path,
                    #[trigger] retired[j],
                    entry_of(old_records, retired[j])->Some_0,
                ) by {
                    if j < a {
                        let rid = retired[j];
                        let e = entry_of(old_records, rid)->Some_0;
                        let (k, c) = choose|k: int, c: nat|
                            #![trigger queued[k], archive_identifier_text(rid, c)]
                            0 <= k < queued.len() && queued[k] == WriteView::ArchiveRecord(
                                archive_path,
                                RecordView { identifier: archive_identifier_text(rid, c), entry: e },
                            );
                        assert(w[k] == queued[k]);
                    }
                }
            }
            a = a + 1;
        }
        let ghost cs_mid = self@.commit_sequence;
        let mut d: usize = 0;
        while d < retired_identifiers.len()
            invariant
                d <= retired_identifiers.len(),
                self.well_formed(),
                self.same_settings(&base),
                base == *old(self),
                base@.referents == registry,
                wanted == supersession.replacements@.map_values(|e: Entry| e@),
                retired_list == retired_identifiers@,
                retired_list == supersession.retired_identifiers@,
                self@.referents == registry,
                retired == identifier_texts(retired_identifiers@),
                self@.commit_sequence <= cs_mid + d,
                forall|q: int| 0 <= q < supersession.retired_identifiers.len() ==> has_record(old(self)@.records, #[trigger] supersession.retired_identifiers@[q].0@),
                cs_mid == base@.commit_sequence + wanted.len(),
                fresh.len() == placed.len(),
                placed == canonical_entries(registry, wanted),
                base@.records == old_records,
                forall|j: int| 0 <= j < fresh.len() ==> !has_record(old_records, #[trigger] fresh[j]),
                forall|id: Seq<char>| #[trigger] entry_of(middle, id) == match assigned(fresh, placed, id) {
                    Some(e) => Some(e),
                    None => entry_of(old_records, id),
                },
                forall|id: Seq<char>| #[trigger] entry_of(self@.records, id) == if retired.take(d as int).contains(id) {
                    None
                } else {
                    entry_of(middle, id)
                },
                archive_path == archive_path_of(base.spec_path(), base.spec_archive_target()),
                forall|j: int| 0 <= j < retired.len() ==> archive_copy_queued(
                    self.pending_writes(),
                    archive_path,
                    #[trigger] retired[j],
                    entry_of(old_records, retired[j])->Some_0,
                ),
            decreases retired_identifiers.len() - d,
        {
            let ghost before = self@;
            let ghost queued = self.pending_writes();
            let removed = self.remove(retired_identifiers[d].0.as_str());
            proof {
                assert forall|j: int| 0 <= j < retired.len() implies archive_copy_queued(
                    self.pending_writes(),
                    archive_path,
                    #[trigger] retired[j],
                    entry_of(old_records, retired[j])->Some_0,
                ) by {
                    let rid = retired[j];
                    let e = entry_of(old_records, rid)->Some_0;
                    let (k, c) = choose|k: int, c: nat|
                        #![trigger queued[k], archive_identifier_text(rid, c)]
                        0 <= k < queued.len() && queued[k] == WriteView::ArchiveRecord(
                            archive_path,
                            RecordView { identifier: archive_identifier_text(rid, c), entry: e },
                        );
                    assert(self.pending_writes()[k] == queued[k]);
                }
            }
            proof {
                assert(retired[d as int] == retired_identifiers@[d as int].0@);
            }
            match removed {
                Ok(true) => {
                    proof {
                        let p = record_position(before.records, retired[d as int]);
                        assert forall|id: Seq<char>| #[trigger] entry_of(self@.records, id) == if retired.take(d + 1).contains(id) {
                            None
                        } else {
                            entry_of(middle, id)
                        } by {
                            lemma_entry_of_without(before.records, p, id);
                            lemma_take_push_contains(retired, d as int, id);
                        }
                    }
                },
                Ok(false) => {
                    proof {
                        assert forall|id: Seq<char>| #[trigger] entry_of(self@.records, id) == if retired.take(d + 1).contains(id) {
                            None
                        } else {
                            entry_of(middle, id)
                        } by {
                            lemma_take_push_contains(retired, d as int, id);
                        }
                    }
                },
                Err(e) => {
                    proof {
                        assert forall|id: Seq<char>|
                            has_record(old_records, id) && !retired.contains(id) implies #[trigger] entry_of(
                            self@.records,
                            id,
                        ) == entry_of(old_records, id) by {
                            if retired.take(d as int).contains(id) {
                                let q = choose|q: int| 0 <= q < retired.take(d as int).len() && retired.take(d as int)[q] == id;
                                assert(retired[q] == id);
                            }
                            if fresh.contains(id) {
                                let q = choose|q: int| 0 <= q < fresh.len() && fresh[q] == id;
                                assert(!has_record(old_records, fresh[q]));
                            }
                            lemma_assigned_absent(fresh, placed, id);
                        }
                        assert forall|id: Seq<char>|
                            #[trigger] entry_of(self@.records, id) is Some && entry_of(self@.records, id) != entry_of(
                                old_records,
                                id,
                            ) implies !has_record(old_records, id) && canonical_entries(registry, wanted).contains(
                            entry_of(self@.records, id)->Some_0,
                        ) by {
                            assert(entry_of(self@.records, id) == entry_of(middle, id));
                            lemma_assigned_some(fresh, placed, id);
                            let q = choose|q: int| 0 <= q < fresh.len() && fresh[q] == id;
                            assert(!has_record(old_records, fresh[q]));
                        }
                        assert forall|id: Seq<char>| has_record(old_records, id) && !#[trigger] has_record(
                            self@.records,
                            id,
                        ) implies archive_copy_queued(
                            self.pending_writes(),
                            archive_path,
                            id,
                            entry_of(old_records, id)->Some_0,
                        ) by {
                            if fresh.contains(id) {
                                let q = choose|q: int| 0 <= q < fresh.len() && fresh[q] == id;
                                assert(!has_record(old_records, fresh[q]));
                            }
                            lemma_assigned_absent(fresh, placed, id);
                            assert(entry_of(self@.records, id) is None);
                            let q = choose|q: int| 0 <= q < retired.take(d as int).len() && retired.take(d as int)[q] == id;
                            assert(retired[q] == id);
                        }
                    }
                    return Err(e);
                },
            }
            d = d + 1;
        }
        proof {
            assert(retired.take(retired.len() as int) =~= retired);
            assert forall|id: Seq<char>| #[trigger] entry_of(self@.records, id) == if retired.contains(id) {
                None
            } else {
                match assigned(fresh, placed, id) {
                    Some(e) => Some(e),
                    None => entry_of(old_records, id),
                }
            } by {}
            assert forall|id: Seq<char>| has_record(old_records, id) && !#[trigger] has_record(self@.records, id)
                implies archive_copy_queued(
                self.pending_writes(),
                archive_path,
                id,
                entry_of(old_records, id)->Some_0,
            ) by {
                if fresh.contains(id) {
                    let q = choose|q: int| 0 <= q < fresh.len() && fresh[q] == id;
                    assert(!has_record(old_records, fresh[q]));
                }
                lemma_assigned_absent(fresh, placed, id);
                assert(entry_of(self@.records, id) is None);
                let q = choose|q: int| 0 <= q < retired.len() && retired[q] == id;
                assert(retired[q] == id);
            }
        }
        Ok(Some(SupersessionReceipt { retired_identifiers, record_identifiers }))
    }
}

impl Store {
    /// Settle a clarification record. When it and every target are live,
    /// each target is archived, then takes its resolved description (the
    /// last one given for it), and the clarification record is removed;
    /// otherwise nothing happens and `None` comes back.
    #[verifier::rlimit(40)]
    pub fn resolve_clarification(&mut self, resolution: ClarificationResolution) -> (r: Result<
        Option<ClarificationResolutionReceipt>,
        StoreError,
    >)
        requires
            old(self).well_formed(),
        ensures
            resolution_outcome(old(self)@, final(self)@, resolution, r),
            final(self).well_formed(),
            final(self).same_settings(old(self)),
            final(self)@.referents == old(self)@.referents,
            match r {
                Ok(None) => (!has_record(old(self)@.records, resolution.clarification_record_identifier.0@)
                    || !targets_present(old(self)@.records, resolution.target_clarifications@))
                    && final(self)@ == old(self)@ && final(self).pending_writes() == old(self).pending_writes(),
                Ok(Some(receipt)) => {
                    let cid = resolution.clarification_record_identifier.0@;
                    let targets = resolution.target_clarifications@;
                    &&& has_record(old(self)@.records, cid)
                    &&& targets_present(old(self)@.records, targets)
                    &&& receipt.clarification_record_identifier == resolution.clarification_record_identifier
                    &&& identifier_texts(receipt.record_identifiers@) == targets.map_values(
                        |t: TargetClarification| t.record_identifier.0@,
                    )
                    &&& final(self)@.commit_sequence == old(self)@.commit_sequence + targets.len() + 1
                    &&& forall|id: Seq<char>| #[trigger] entry_of(final(self)@.records, id) == if id == cid {
                        None
                    } else {
                        match resolved_description(targets, id) {
                            Some(d) => Some(with_description(entry_of(old(self)@.records, id)->Some_0, d)),
                            None => entry_of(old(self)@.records, id),
                        }
                    }
                },
                Err(e) => e is Database && has_record(old(self)@.records, resolution.clarification_record_identifier.0@)
                    && targets_present(old(self)@.records, resolution.target_clarifications@)
                    && old(self)@.commit_sequence + resolution.target_clarifications.len() + 1 > u64::MAX,
            },
    {
        let ghost old_records = self@.records;
        let ghost registry = self@.referents;
        let ghost start = *self;
        let ghost targets = resolution.target_clarifications@;
        let clarification_identifier = resolution.clarification_record_identifier;
        let target_clarifications = resolution.target_clarifications;
        if position_of(&self.records, clarification_identifier.0.as_str()).is_none() {
            return Ok(None);
        }
        let mut i: usize = 0;
        while i < target_clarifications.len()
            invariant
                i <= target_clarifications.len(),
                *self == start,
                start == *old(self),
                targets == target_clarifications@,
                targets == resolution.target_clarifications@,
                old_records == self@.records,
                self.well_formed(),
                forall|k: int| 0 <= k < i ==> has_record(old_records, #[trigger] targets[k].record_identifier.0@),
            decreases target_clarifications.len() - i,
        {
            if position_of(&self.records, target_clarifications[i].record_identifier.0.as_str()).is_none() {
                assert(!has_record(old_records, targets[i as int].record_identifier.0@));
                return Ok(None);
            }
            i = i + 1;
        }
        let mut a: usize = 0;
        while a < target_clarifications.len()
            invariant
                a <= target_clarifications.len(),
                self.well_formed(),
                self.same_settings(&start),
                start == *old(self),
                self@ == start@,
                targets == target_clarifications@,
                old_records == self@.records,
                targets_present(old_records, targets),
            decreases target_clarifications.len() - a,
        {
            let p = position_of(&self.records, target_clarifications[a].record_identifier.0.as_str());
            assert(has_record(old_records, targets[a as int].record_identifier.0@));
            match p {
                Some(pos) => self.archive_at(pos),
                None => {},
            }
            a = a + 1;
        }
        let mut record_identifiers: Vec<RecordIdentifier> = Vec::new();
        let mut t: usize = 0;
        while t < target_clarifications.len()
            invariant
                t <= target_clarifications.len(),
                self.well_formed(),
                self.same_settings(&start),
                start == *old(self),
                self@.referents == registry,
                registry == start@.referents,
                targets == target_clarifications@,
                targets == resolution.target_clarifications@,
                clarification_identifier == resolution.clarification_record_identifier,
                old_records == start@.records,
                targets_present(old_records, targets),
                has_record(old_records, clarification_identifier.0@),
                self@.commit_sequence == start@.commit_sequence + t,
                identifier_texts(record_identifiers@) == targets.take(t as int).map_values(
                    |c: TargetClarification| c.record_identifier.0@,
                ),
                forall|id: Seq<char>| #[trigger] has_record(self@.records, id) == has_record(old_records, id),
                forall|id: Seq<char>| #[trigger] entry_of(self@.records, id) == match resolved_description(targets.take(t as int), id) {
                    Some(d) => Some(with_description(entry_of(old_records, id)->Some_0, d)),
                    None => entry_of(old_records, id),
                },
            decreases target_clarifications.len() - t,
        {
            let target = &target_clarifications[t];
            let ghost tid = target.record_identifier.0@;
            let p = position_of(&self.records, target.record_identifier.0.as_str());
            proof {
                assert(has_record(old_records, targets[t as int].record_identifier.0@));
            }
            match p {
                Some(pos) => {
                    let ghost before = self@;
                    let mut entry = self.records[pos].entry.clone();
                    entry.description = target.description.clone();
                    self.mutate_at(pos, entry)?;
                    proof {
                        assert(targets.take(t + 1) =~= targets.take(t as int).push(targets[t as int]));
                        assert forall|id: Seq<char>| #[trigger] entry_of(self@.records, id) == match resolved_description(targets.take(t + 1), id) {
                            Some(d) => Some(with_description(entry_of(old_records, id)->Some_0, d)),
                            None => entry_of(old_records, id),
                        } by {
                            lemma_entry_of_with_entry(before.records, pos as int, with_description(before.records[pos as int].entry, targets[t as int].description@), id);
                            lemma_resolved_push(targets.take(t as int), targets[t as int], id);
                            lemma_record_position(before.records, tid, pos as int);
                        }
                        assert forall|id: Seq<char>| #[trigger] has_record(self@.records, id) == has_record(old_records, id) by {
                            if has_record(before.records, id) {
                                let q = record_position(before.records, id);
                                assert(self@.records[q].identifier == id);
                            }
                            if has_record(self@.records, id) {
                                let q = choose|q: int| 0 <= q < self@.records.len() && #[trigger] self@.records[q].identifier == id;
                                assert(before.records[q].identifier == id);
                            }
                        }
                    }
                },
                None => {},
            }
            record_identifiers.push(target.record_identifier.clone());
            t = t + 1;
            proof {
                assert(targets.take(t as int).map_values(|c: TargetClarification| c.record_identifier.0@)
                    =~= targets.take(t - 1).map_values(|c: TargetClarification| c.record_identifier.0@).push(tid));
                assert(identifier_texts(record_identifiers@) =~= targets.take(t as int).map_values(
                    |c: TargetClarification| c.record_identifier.0@,
                ));
            }
        }
        let ghost mid = self@.records;
        let removed = self.remove(clarification_identifier.0.as_str())?;
        proof {
            assert(targets.take(targets.len() as int) =~= targets);
            let cid = clarification_identifier.0@;
            assert(has_record(mid, cid));
            let p = record_position(mid, cid);
            assert forall|id: Seq<char>| #[trigger] entry_of(self@.records, id) == if id == cid {
                None
            } else {
                match resolved_description(targets, id) {
                    Some(d) => Some(with_description(entry_of(old_records, id)->Some_0, d)),
                    None => entry_of(old_records, id),
                }
            } by {
                lemma_entry_of_without(mid, p, id);
            }
        }
        Ok(Some(ClarificationResolutionReceipt { clarification_record_identifier: clarification_identifier, record_identifiers }))
    }

    /// Sweep out every record the query matches, in store order: each is
    /// archived, then removed. The query is applied as given.
    #[verifier::rlimit(40)]
    pub fn collect_removal_candidates(&mut self, collection: RemovalCandidateCollection) -> (r: Result<
        RemovalCandidatesCollection,
        StoreError,
    >)
        requires
            old(self).well_formed(),
        ensures
            final(self).well_formed(),
            final(self).same_settings(old(self)),
            final(self)@.referents == old(self)@.referents,
            match r {
                Ok(c) => {
                    let chosen = selected(old(self)@.records, collection.record_query@);
                    &&& observed_view(c.removal_archive_records@) == chosen
                    &&& identifier_texts(c.removed_identifiers@) == identifier_list(chosen)
                    &&& c.skipped_removal_candidates@.len() == 0
                    &&& final(self)@.commit_sequence == old(self)@.commit_sequence + chosen.len()
                    &&& forall|id: Seq<char>| #[trigger] entry_of(final(self)@.records, id) == if identifier_list(chosen).contains(id) {
                        None
                    } else {
                        entry_of(old(self)@.records, id)
                    }
                },
                Err(e) => e is Database && old(self)@.commit_sequence + selected(
                    old(self)@.records,
                    collection.record_query@,
                ).len() > u64::MAX && final(self)@ == old(self)@ && final(self).pending_writes() == old(self).pending_writes(),
            },
    {
        let ghost old_records = self@.records;
        let ghost start = *self;
        let query = collection.record_query;
        let matched = selected_records(&self.records, &query);
        let ghost chosen = records_view(matched@);
        let ghost ids = identifier_list(chosen);
        proof {
            lemma_selected_rows(old_records, query@);
        }
        let m: u64 = matched.len() as u64;
        if m > u64::MAX - self.commit_sequence {
            return Err(StoreError::Database("commit sequence exhausted".to_string()));
        }
        let mut archived: Vec<ObservedRecord> = Vec::new();
        let mut removed: Vec<RecordIdentifier> = Vec::new();
        let mut k: usize = 0;
        while k < matched.len()
            invariant
                k <= matched.len(),
                self.well_formed(),
                self.same_settings(&start),
                start == *old(self),
                self@.referents == start@.referents,
                old_records == start@.records,
                chosen == records_view(matched@),
                chosen == selected(old_records, query@),
                ids == identifier_list(chosen),
                query@ == collection.record_query@,
                distinct_identifiers(chosen),
                forall|j: int| 0 <= j < chosen.len() ==> has_record(old_records, #[trigger] chosen[j].identifier),
                m == matched.len(),
                start@.commit_sequence + m <= u64::MAX,
                self@.commit_sequence == start@.commit_sequence + k,
                observed_view(archived@) == chosen.take(k as int),
                identifier_texts(removed@) == ids.take(k as int),
                forall|id: Seq<char>| #[trigger] entry_of(self@.records, id) == if ids.take(k as int).contains(id) {
                    None
                } else {
                    entry_of(old_records, id)
                },
            decreases matched.len() - k,
        {
            let identifier = matched[k].record_identifier.clone();
            let ghost before = self@;
            proof {
                assert(!ids.take(k as int).contains(ids[k as int])) by {
                    if ids.take(k as int).contains(ids[k as int]) {
                        let j = choose|j: int| 0 <= j < ids.take(k as int).len() && #[trigger] ids.take(k as int)[j] == ids[k as int];
                        assert(chosen[j].identifier == chosen[k as int].identifier);
                    }
                }
                assert(ids[k as int] == identifier@);
                assert(entry_of(before.records, identifier@) == entry_of(old_records, identifier@));
                assert(has_record(old_records, chosen[k as int].identifier));
            }
            let p = position_of(&self.records, identifier.as_str());
            match p {
                Some(pos) => self.archive_at(pos),
                None => {},
            }
            let ghost archived_at = self@;
            let gone = self.remove(identifier.as_str())?;
            proof {
                let q = record_position(archived_at.records, identifier@);
                assert forall|id: Seq<char>| #[trigger] entry_of(self@.records, id) == if ids.take(k + 1).contains(id) {
                    None
                } else {
                    entry_of(old_records, id)
                } by {
                    lemma_entry_of_without(archived_at.records, q, id);
                    lemma_take_push_contains(ids, k as int, id);
                }
            }
            let ghost archived_before = observed_view(archived@);
            let ghost removed_before = identifier_texts(removed@);
            archived.push(matched[k].clone().into_observed_record());
            removed.push(RecordIdentifier(identifier));
            proof {
                assert(observed_view(archived@) =~= archived_before.push(chosen[k as int]));
                assert(chosen.take(k + 1) =~= chosen.take(k as int).push(chosen[k as int]));
                assert(identifier_texts(removed@) =~= removed_before.push(ids[k as int]));
                assert(ids.take(k + 1) =~= ids.take(k as int).push(ids[k as int]));
            }
            k = k + 1;
        }
        proof {
            assert(chosen.take(chosen.len() as int) =~= chosen);
            assert(ids.take(ids.len() as int) =~= ids);
        }
        Ok(RemovalCandidatesCollection {
            removal_archive_records: archived,
            removed_identifiers: removed,
            skipped_removal_candidates: Vec::new(),
        })
    }
}

/// Reading an identifier after appending a fresh row: the new row answers
/// for its own identifier, every other identifier reads as before.
pub proof fn lemma_entry_of_push(records: Seq<RecordView>, row: RecordView, identifier: Seq<char>)
    requires
        distinct_identifiers(records),
        !has_record(records, row.identifier),
    ensures
        distinct_identifiers(records.push(row)),
        entry_of(records.push(row), identifier) == if identifier == row.identifier {
            Some(row.entry)
        } else {
            entry_of(records, identifier)
        },
{
    let after = records.push(row);
    assert forall|a: int, b: int|
        0 <= a < after.len() && 0 <= b < after.len() && a != b implies #[trigger] after[a].identifier
        != #[trigger] after[b].identifier by {
        if a < records.len() && b < records.len() {
            assert(after[a] == records[a] && after[b] == records[b]);
        } else if a < records.len() {
            assert(after[a] == records[a]);
        } else if b < records.len() {
            assert(after[b] == records[b]);
        }
    }
    if identifier == row.identifier {
        lemma_record_position(after, identifier, records.len() as int);
    } else if has_record(records, identifier) {
        let i = record_position(records, identifier);
        lemma_record_position(after, identifier, i);
    } else {
        if has_record(after, identifier) {
            let i = choose|i: int| 0 <= i < after.len() && #[trigger] after[i].identifier == identifier;
            assert(after[i] == records[i]);
        }
    }
}

/// Reading an identifier after deleting row `i`: that identifier reads as
/// absent, every other reads as before.
pub proof fn lemma_entry_of_without(records: Seq<RecordView>, i: int, identifier: Seq<char>)
    requires
        distinct_identifiers(records),
        0 <= i < records.len(),
    ensures
        distinct_identifiers(without(records, i)),
        entry_of(without(records, i), identifier) == if identifier == records[i].identifier {
            None
        } else {
            entry_of(records, identifier)
        },
{
    let after = without(records, i);
    assert forall|a: int, b: int|
        0 <= a < after.len() && 0 <= b < after.len() && a != b implies #[trigger] after[a].identifier
        != #[trigger] after[b].identifier by {
        let a0 = if a < i { a } else { a + 1 };
        let b0 = if b < i { b } else { b + 1 };
        assert(after[a] == records[a0] && after[b] == records[b0]);
    }
    if has_record(after, identifier) {
        let j = choose|j: int| 0 <= j < after.len() && #[trigger] after[j].identifier == identifier;
        let j0 = if j < i { j } else { j + 1 };
        assert(after[j] == records[j0]);
        lemma_record_position(records, identifier, j0);
        lemma_record_position(after, identifier, j);
    } else if has_record(records, identifier) {
        let k = record_position(records, identifier);
        if k != i {
            let k1 = if k < i { k } else { k - 1 };
            assert(after[k1] == records[k]);
        }
    }
}

/// Reading an identifier after replacing row `i`'s entry: that identifier
/// reads the new entry, every other reads as before.
pub proof fn lemma_entry_of_with_entry(
    records: Seq<RecordView>,
    i: int,
    entry: EntryView,
    identifier: Seq<char>,
)
    requires
        distinct_identifiers(records),
        0 <= i < records.len(),
    ensures
        distinct_identifiers(with_entry(records, i, entry)),
        entry_of(with_entry(records, i, entry), identifier) == if identifier
            == records[i].identifier {
            Some(entry)
        } else {
            entry_of(records, identifier)
        },
{
    let after = with_entry(records, i, entry);
    assert forall|a: int, b: int|
        0 <= a < after.len() && 0 <= b < after.len() && a != b implies #[trigger] after[a].identifier
        != #[trigger] after[b].identifier by {
        assert(after[a].identifier == records[a].identifier);
        assert(after[b].identifier == records[b].identifier);
    }
    if has_record(records, identifier) {
        let k = record_position(records, identifier);
        lemma_record_position(after, identifier, k);
        lemma_record_position(records, identifier, k);
    } else {
        if has_record(after, identifier) {
            let j = choose|j: int| 0 <= j < after.len() && #[trigger] after[j].identifier == identifier;
            assert(records[j].identifier == identifier);
        }
    }
}


/// What recording an entry did to the tables, by its result.
pub open spec fn record_outcome(
    before: StoreView,
    after: StoreView,
    entry: EntryView,
    r: Result<SemaReceipt, StoreError>,
) -> bool {
    match r {
        Ok(receipt) => {
            let id = receipt.record_identifier.0@;
            &&& !has_record(before.records, id)
            &&& well_formed_identifier(id)
            &&& canonical_entry(before.referents, entry) is Some
            &&& after.records == before.records.push(
                RecordView { identifier: id, entry: canonical_entry(before.referents, entry)->Some_0 },
            )
            &&& after.commit_sequence == before.commit_sequence + 1
        },
        Err(e) => after == before && (e is IdentifierMint || (e is UnregisteredReferent && canonical_entry(
            before.referents,
            entry,
        ).is_none()) || (e is Database && before.commit_sequence == u64::MAX)),
    }
}

/// What a clarification did to the tables, by its result.
pub open spec fn clarify_outcome(
    before: StoreView,
    after: StoreView,
    clarification: Clarification,
    r: Result<Option<ClarificationReceipt>, StoreError>,
) -> bool {
    let id = clarification.record_identifier.0@;
    match r {
        Ok(None) => !has_record(before.records, id) && after == before,
        Ok(Some(receipt)) => {
            let i = record_position(before.records, id);
            &&& receipt.0 == clarification.record_identifier
            &&& has_record(before.records, id)
            &&& after.records == with_entry(
                before.records,
                i,
                with_description(before.records[i].entry, clarification.description@),
            )
            &&& after.commit_sequence == before.commit_sequence + 1
        },
        Err(e) => e is Database && has_record(before.records, id) && before.commit_sequence == u64::MAX
            && after == before,
    }
}

/// What a retirement did to the tables, by its result.
pub open spec fn retire_outcome(
    before: StoreView,
    after: StoreView,
    retirement: Retirement,
    r: Result<Option<RetirementReceipt>, StoreError>,
) -> bool {
    let id = retirement.record_identifier.0@;
    match r {
        Ok(None) => !has_record(before.records, id) && after == before,
        Ok(Some(receipt)) => {
            &&& receipt.0 == retirement.record_identifier
            &&& has_record(before.records, id)
            &&& after.records == without(before.records, record_position(before.records, id))
            &&& after.commit_sequence == before.commit_sequence + 1
        },
        Err(e) => e is Database && has_record(before.records, id) && before.commit_sequence == u64::MAX
            && after == before,
    }
}

/// What an in-place change did to the tables, by its result.
pub open spec fn change_outcome(
    before: StoreView,
    after: StoreView,
    change: RecordChange,
    r: Result<Option<RecordChangeReceipt>, StoreError>,
) -> bool {
    let id = change.record_identifier.0@;
    match r {
        Ok(None) => !has_record(before.records, id) && after == before,
        Ok(Some(receipt)) => {
            &&& receipt.0 == change.record_identifier
            &&& has_record(before.records, id)
            &&& canonical_entry(before.referents, change.entry@) is Some
            &&& after.records == with_entry(
                before.records,
                record_position(before.records, id),
                canonical_entry(before.referents, change.entry@)->Some_0,
            )
            &&& after.commit_sequence == before.commit_sequence + 1
        },
        Err(e) => after == before && has_record(before.records, id) && ((e is UnregisteredReferent
            && canonical_entry(before.referents, change.entry@).is_none()) || (e is Database
            && before.commit_sequence == u64::MAX)),
    }
}

/// What a supersession did to the tables, by its result.
pub open spec fn supersede_outcome(
    before: StoreView,
    after: StoreView,
    supersession: Supersession,
    r: Result<Option<SupersessionReceipt>, StoreError>,
) -> bool {
    let retired = identifier_texts(supersession.retired_identifiers@);
    let all_present = forall|k: int|
        0 <= k < supersession.retired_identifiers.len() ==> has_record(
            before.records,
            #[trigger] supersession.retired_identifiers@[k].0@,
        );
    match r {
        Ok(None) => !all_present && after == before,
        Ok(Some(receipt)) => {
            let fresh = identifier_texts(receipt.record_identifiers@);
            let placed = canonical_entries(before.referents, supersession.replacements@.map_values(|e: Entry| e@));
            &&& receipt.retired_identifiers@ == supersession.retired_identifiers@
            &&& forall|k: int| 0 <= k < retired.len() ==> has_record(before.records, #[trigger] retired[k])
            &&& all_entries_registered(before.referents, supersession.replacements@.map_values(|e: Entry| e@))
            &&& fresh.len() == supersession.replacements.len()
            &&& distinct_texts(fresh)
            &&& forall|k: int| 0 <= k < fresh.len() ==> !has_record(before.records, #[trigger] fresh[k])
                && well_formed_identifier(fresh[k])
            &&& forall|id: Seq<char>| #[trigger] entry_of(after.records, id) == if retired.contains(id) {
                None
            } else {
                match assigned(fresh, placed, id) {
                    Some(e) => Some(e),
                    None => entry_of(before.records, id),
                }
            }
        },
        Err(e) => all_present && ((e is IdentifierMint && supersession.replacements.len() > 0) || (
        e is UnregisteredReferent && !all_entries_registered(
            before.referents,
            supersession.replacements@.map_values(|e: Entry| e@),
        )) || (e is Database && before.commit_sequence + supersession.replacements.len()
            + supersession.retired_identifiers.len() > u64::MAX)) && supersession_kept(before, after, supersession)
            && (e !is Database ==> forall|id: Seq<char>|
            has_record(before.records, id) ==> #[trigger] entry_of(after.records, id) == entry_of(before.records, id)),
    }
}

/// The rows name the committed state in order: one per record, under its
/// identifier, then one per referent, under its canonical name.
pub open spec fn rows_name_state(state: StoreView, records: Seq<ArchivedRow>, referents: Seq<ArchivedRow>) -> bool {
    &&& records.len() == state.records.len()
    &&& forall|i: int| 0 <= i < records.len() ==> #[trigger] records[i].key@ == state.records[i].identifier
    &&& referents.len() == state.referents.len()
    &&& forall|i: int| 0 <= i < referents.len() ==> #[trigger] referents[i].key@ == state.referents[i].referent
}

/// What a failed supersession leaves: no record is lost or altered except
/// a retired target, and any record that appeared is a new replacement.
pub open spec fn supersession_kept(before: StoreView, after: StoreView, supersession: Supersession) -> bool {
    let retired = identifier_texts(supersession.retired_identifiers@);
    let placed = canonical_entries(before.referents, supersession.replacements@.map_values(|e: Entry| e@));
    &&& after.referents == before.referents
    &&& forall|id: Seq<char>|
        has_record(before.records, id) && !retired.contains(id) ==> #[trigger] entry_of(after.records, id)
            == entry_of(before.records, id)
    &&& forall|id: Seq<char>|
        #[trigger] entry_of(after.records, id) is Some && entry_of(after.records, id) != entry_of(before.records, id)
            ==> !has_record(before.records, id) && placed.contains(entry_of(after.records, id)->Some_0)
}

/// A supersession with every target live and no replacement to mint, with
/// room in the commit sequence, succeeds.
pub open spec fn supersession_owed(before: StoreView, supersession: Supersession) -> bool {
    &&& supersession.replacements.len() == 0
    &&& forall|k: int|
        0 <= k < supersession.retired_identifiers.len() ==> has_record(
            before.records,
            #[trigger] supersession.retired_identifiers@[k].0@,
        )
    &&& before.commit_sequence + supersession.retired_identifiers.len() <= u64::MAX
}

/// What a clarification resolution did to the tables, by its result.
pub open spec fn resolution_outcome(
    before: StoreView,
    after: StoreView,
    resolution: ClarificationResolution,
    r: Result<Option<ClarificationResolutionReceipt>, StoreError>,
) -> bool {
    let cid = resolution.clarification_record_identifier.0@;
    let targets = resolution.target_clarifications@;
    match r {
        Ok(None) => (!has_record(before.records, cid) || !targets_present(before.records, targets)) && after
            == before,
        Ok(Some(receipt)) => {
            &&& has_record(before.records, cid)
            &&& targets_present(before.records, targets)
            &&& receipt.clarification_record_identifier == resolution.clarification_record_identifier
            &&& identifier_texts(receipt.record_identifiers@) == targets.map_values(
                |t: TargetClarification| t.record_identifier.0@,
            )
            &&& after.commit_sequence == before.commit_sequence + targets.len() + 1
            &&& forall|id: Seq<char>| #[trigger] entry_of(after.records, id) == if id == cid {
                None
            } else {
                match resolved_description(targets, id) {
                    Some(d) => Some(with_description(entry_of(before.records, id)->Some_0, d)),
                    None => entry_of(before.records, id),
                }
            }
        },
        Err(e) => e is Database && has_record(before.records, cid) && targets_present(before.records, targets)
            && before.commit_sequence + targets.len() + 1 > u64::MAX,
    }
}


/// A copy of a list of identifiers, equal element by element.
pub fn clone_identifier_list(ids: &Vec<RecordIdentifier>) -> (r: Vec<RecordIdentifier>)
    ensures
        r@ == ids@,
{
    let mut out: Vec<RecordIdentifier> = Vec::new();
    let mut i: usize = 0;
    while i < ids.len()
        invariant
            i <= ids.len(),
            out@ == ids@.subrange(0, i as int),
        decreases ids.len() - i,
    {
        out.push(ids[i].clone());
        i = i + 1;
        assert(out@ =~= ids@.subrange(0, i as int));
    }
    assert(out@ =~= ids@);
    out
}

impl Clone for Clarification {
    fn clone(&self) -> (r: Self)
        ensures
            r.record_identifier == self.record_identifier,
            r.description == self.description,
            r.justification@ == self.justification@,
    {
        Clarification {
            record_identifier: self.record_identifier.clone(),
            description: self.description.clone(),
            justification: self.justification.clone(),
        }
    }
}

impl Clone for Retirement {
    fn clone(&self) -> (r: Self)
        ensures
            r.record_identifier == self.record_identifier,
            r.justification@ == self.justification@,
    {
        Retirement { record_identifier: self.record_identifier.clone(), justification: self.justification.clone() }
    }
}

impl Clone for RecordChange {
    fn clone(&self) -> (r: Self)
        ensures
            r.record_identifier == self.record_identifier,
            r.entry@ == self.entry@,
            r.justification@ == self.justification@,
    {
        RecordChange {
            record_identifier: self.record_identifier.clone(),
            entry: self.entry.clone(),
            justification: self.justification.clone(),
        }
    }
}

impl Clone for TargetClarification {
    fn clone(&self) -> (r: Self)
        ensures
            r == *self,
    {
        TargetClarification {
            record_identifier: self.record_identifier.clone(),
            description: self.description.clone(),
        }
    }
}

impl Clone for Supersession {
    fn clone(&self) -> (r: Self)
        ensures
            r.retired_identifiers@ == self.retired_identifiers@,
            r.replacements@.map_values(|e: Entry| e@) == self.replacements@.map_values(|e: Entry| e@),
            r.justification@ == self.justification@,
    {
        let ghost wanted = self.replacements@.map_values(|e: Entry| e@);
        let mut replacements: Vec<Entry> = Vec::new();
        let mut i: usize = 0;
        while i < self.replacements.len()
            invariant
                i <= self.replacements.len(),
                wanted == self.replacements@.map_values(|e: Entry| e@),
                replacements@.map_values(|e: Entry| e@) == wanted.subrange(0, i as int),
            decreases self.replacements.len() - i,
        {
            let ghost before = replacements@.map_values(|e: Entry| e@);
            replacements.push(self.replacements[i].clone());
            assert(replacements@.map_values(|e: Entry| e@) =~= before.push(wanted[i as int]));
            assert(wanted.subrange(0, i + 1) =~= wanted.subrange(0, i as int).push(wanted[i as int]));
            i = i + 1;
        }
        assert(wanted.subrange(0, self.replacements.len() as int) =~= wanted);
        Supersession {
            retired_identifiers: clone_identifier_list(&self.retired_identifiers),
            replacements,
            justification: self.justification.clone(),
        }
    }
}

impl Clone for ClarificationResolution {
    fn clone(&self) -> (r: Self)
        ensures
            r.clarification_record_identifier == self.clarification_record_identifier,
            r.target_clarifications@ == self.target_clarifications@,
            r.justification@ == self.justification@,
    {
        let mut targets: Vec<TargetClarification> = Vec::new();
        let mut i: usize = 0;
        while i < self.target_clarifications.len()
            invariant
                i <= self.target_clarifications.len(),
                targets@ == self.target_clarifications@.subrange(0, i as int),
            decreases self.target_clarifications.len() - i,
        {
            targets.push(self.target_clarifications[i].clone());
            i = i + 1;
            assert(targets@ =~= self.target_clarifications@.subrange(0, i as int));
        }
        assert(targets@ =~= self.target_clarifications@);
        ClarificationResolution {
            clarification_record_identifier: self.clarification_record_identifier.clone(),
            target_clarifications: targets,
            justification: self.justification.clone(),
        }
    }
}


/// What a proposal that refuses duplicates did to the tables, by its result.
pub open spec fn deduplicated_outcome(
    before: StoreView,
    after: StoreView,
    entry: EntryView,
    r: Result<Result<SemaReceipt, crate::verdict::GuardianRejection>, StoreError>,
) -> bool {
    let canonical = canonical_entry(before.referents, entry)->Some_0;
    match r {
        Ok(Ok(receipt)) => {
            let id = receipt.record_identifier.0@;
            &&& canonical_entry(before.referents, entry) is Some
            &&& first_duplicate(before.records, canonical) is None
            &&& !has_record(before.records, id)
            &&& well_formed_identifier(id)
            &&& after.records == before.records.push(RecordView { identifier: id, entry: canonical })
            &&& after.commit_sequence == before.commit_sequence + 1
        },
        Ok(Err(rejection)) => {
            let k = first_duplicate(before.records, canonical)->Some_0;
            let bumped = with_bumped_importance(before.records[k].entry);
            &&& canonical_entry(before.referents, entry) is Some
            &&& first_duplicate(before.records, canonical) is Some
            &&& after.records == with_entry(before.records, k, bumped)
            &&& after.commit_sequence == before.commit_sequence + 1
            &&& rejection.guardian_rejection_reason == crate::verdict::GuardianRejectionReason::Duplicate
            &&& rejection.record_set.0@.len() == 1
            &&& rejection.record_set.0@[0]@ == RecordView { identifier: before.records[k].identifier, entry: bumped }
            &&& rejection.explanation.0@ == "proposal duplicates an existing forward arrow"@
        },
        Err(e) => after == before && ((e is IdentifierMint && canonical_entry(before.referents, entry) is Some
            && first_duplicate(before.records, canonical) is None) || (e is UnregisteredReferent && canonical_entry(
            before.referents,
            entry,
        ).is_none()) || (e is Database && before.commit_sequence == u64::MAX)),
    }
}

} // verus!
