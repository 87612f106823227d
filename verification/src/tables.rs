//! The Nexus plane's own small tables: archived observations under stash
//! handles, the observer taps with the log of admitted operations, and the
//! policy that turns a bare statement into a record request.

use std::collections::HashMap;

use vstd::prelude::*;

use crate::justification::Justification;
use crate::magnitude::{Certainty, Importance, Magnitude, Privacy};
use crate::query::{Entry, EntryView};
use crate::record::{Description, Domain, Domains, Kind, Referent, Referents};
use crate::store::{observed_view, DatabaseMarker, ObservedRecord, RecordView};

verus! {

broadcast use vstd::string::group_string_axioms, vstd::std_specs::hash::group_hash_axioms;

/// What kind of operation a signal input asks for.
#[derive(Debug, Clone, Copy, PartialEq, Eq, Structural)]
pub enum OperationKind {
    State,
    Record,
    Propose,
    Clarify,
    ResolveClarification,
    Supersede,
    Retire,
    Observe,
    PublicTextSearch,
    Lookup,
    Count,
    ChangeCertainty,
    BumpImportance,
    ChangeRecord,
    RegisterReferent,
    LookupStash,
    Tap,
    Untap,
    SubscribeIntent,
    Version,
    Marker,
    ApplyAuthorizedRecord,
}

/// Which logged operations an observer tap is shown.
#[derive(Debug, Clone, Copy, PartialEq, Eq, Structural)]
pub enum ObserverFilter {
    /// Every operation.
    AllOperations,
    /// Only operations of this kind.
    Only(OperationKind),
}

/// Whether the filter shows the operation.
pub open spec fn observes(filter: ObserverFilter, operation: OperationKind) -> bool {
    match filter {
        ObserverFilter::AllOperations => true,
        ObserverFilter::Only(kind) => kind == operation,
    }
}

/// The logged operations the filter shows, in log order.
pub open spec fn observed_operations(log: Seq<OperationKind>, filter: ObserverFilter) -> Seq<
    OperationKind,
>
    decreases log.len(),
{
    if log.len() == 0 {
        Seq::empty()
    } else {
        let rest = observed_operations(log.drop_last(), filter);
        if observes(filter, log.last()) {
            rest.push(log.last())
        } else {
            rest
        }
    }
}

impl ObserverFilter {
    /// Whether the filter shows the operation.
    pub fn observes_operation(&self, operation: &OperationKind) -> (r: bool)
        ensures
            r == observes(*self, *operation),
    {
        match self {
            ObserverFilter::AllOperations => true,
            ObserverFilter::Only(kind) => *kind == *operation,
        }
    }
}

/// One archived observation.
#[derive(Debug)]
pub struct StashEntry {
    pub records: Vec<ObservedRecord>,
    pub database_marker: DatabaseMarker,
}

/// What a stash reports: the new handle, how many records, the marker and
/// the records themselves.
#[derive(Debug)]
pub struct StashResult {
    pub stash_handle: u64,
    pub record_count: u64,
    pub database_marker: DatabaseMarker,
    pub records: Vec<ObservedRecord>,
}

/// One put on a stash table: it minted the handle after the last one and
/// archived the observation under it.
pub open spec fn stash_put_step(
    before: StashTable,
    after: StashTable,
    handle: u64,
    stashed: (Seq<RecordView>, DatabaseMarker),
) -> bool {
    &&& handle == before.last_handle() + 1
    &&& after.last_handle() == handle
    &&& after.archived() == before.archived().insert(handle, stashed)
}

/// One call on an observer tap table, as its history records it: an open
/// under the token it minted, a close of a token (and whether a tap was
/// open under it), or an operation logged.
pub enum TapCall {
    Open(ObserverFilter, u64),
    Close(u64, bool),
    Observe(OperationKind),
}

/// How many of the calls are opens.
pub open spec fn opens_in(calls: Seq<TapCall>) -> nat
    decreases calls.len(),
{
    if calls.len() == 0 {
        0
    } else {
        opens_in(calls.drop_last()) + if calls.last() is Open {
            1nat
        } else {
            0nat
        }
    }
}

/// How many of the calls are closes that found their tap.
pub open spec fn closes_in(calls: Seq<TapCall>) -> nat
    decreases calls.len(),
{
    if calls.len() == 0 {
        0
    } else {
        closes_in(calls.drop_last()) + if calls.last() matches TapCall::Close(_, true) {
            1nat
        } else {
            0nat
        }
    }
}

/// The operations the calls logged, in order.
pub open spec fn logged_in(calls: Seq<TapCall>) -> Seq<OperationKind>
    decreases calls.len(),
{
    if calls.len() == 0 {
        Seq::empty()
    } else {
        match calls.last() {
            TapCall::Observe(operation) => logged_in(calls.drop_last()).push(operation),
            _ => logged_in(calls.drop_last()),
        }
    }
}

/// What one call did to an observer tap table.
pub open spec fn tap_step(before: ObserverTapTable, after: ObserverTapTable, call: TapCall) -> bool {
    match call {
        TapCall::Open(filter, token) => {
            &&& token == before.last_token() + 1
            &&& after.last_token() == token
            &&& after.taps() == before.taps().insert(token, filter)
            &&& after.log() == before.log()
        },
        TapCall::Close(token, closed) => {
            &&& closed == before.taps().contains_key(token)
            &&& after.taps() == before.taps().remove(token)
            &&& after.log() == before.log()
            &&& after.last_token() == before.last_token()
        },
        TapCall::Observe(operation) => {
            &&& after.log() == before.log().push(operation)
            &&& after.taps() == before.taps()
            &&& after.last_token() == before.last_token()
        },
    }
}

/// The stash table: observations archived under freshly minted handles.
#[derive(Debug)]
pub struct StashTable {
    next_handle: u64,
    entries: HashMap<u64, StashEntry>,
}

impl StashTable {
    /// The archived observations by handle.
    pub closed spec fn archived(&self) -> Map<u64, (Seq<RecordView>, DatabaseMarker)> {
        Map::new(
            |h: u64| self.entries@.contains_key(h),
            |h: u64| (observed_view(self.entries@[h].records@), self.entries@[h].database_marker),
        )
    }

    /// The last handle minted; zero before the first.
    pub closed spec fn last_handle(&self) -> u64 {
        self.next_handle
    }

    /// Every handle in the table has been minted.
    pub closed spec fn well_formed(&self) -> bool {
        forall|h: u64| #[trigger] self.entries@.contains_key(h) ==> 1 <= h <= self.next_handle
    }

    /// Whether another handle can still be minted.
    pub fn can_mint(&self) -> (r: bool)
        ensures
            r == (self.last_handle() < u64::MAX),
    {
        self.next_handle < u64::MAX
    }

    /// An empty table.
    pub fn new() -> (r: Self)
        ensures
            r.well_formed(),
            r.archived() == Map::<u64, (Seq<RecordView>, DatabaseMarker)>::empty(),
            r.last_handle() == 0,
    {
        let r = StashTable { next_handle: 0, entries: HashMap::new() };
        assert(r.archived() =~= Map::<u64, (Seq<RecordView>, DatabaseMarker)>::empty());
        r
    }

    /// Mint a fresh handle and archive the records under it. The reply
    /// carries the handle, the count, the marker and the records.
    pub fn put(&mut self, records: Vec<ObservedRecord>, database_marker: DatabaseMarker) -> (r:
        StashResult)
        requires
            old(self).well_formed(),
            old(self).last_handle() < u64::MAX,
        ensures
            final(self).well_formed(),
            r.stash_handle == old(self).last_handle() + 1,
            final(self).last_handle() == r.stash_handle,
            !old(self).archived().contains_key(r.stash_handle),
            final(self).archived() == old(self).archived().insert(
                r.stash_handle,
                (observed_view(records@), database_marker),
            ),
            r.record_count == records.len(),
            r.database_marker == database_marker,
            observed_view(r.records@) == observed_view(records@),
            final(self).archived().dom().finite(),
            final(self).archived().len() == old(self).archived().len() + 1,
            stash_put_step(*old(self), *final(self), r.stash_handle, (observed_view(records@), database_marker)),
    {
        proof {
            vstd::std_specs::hash::axiom_hashmap_view_finite_dom(self.entries);
            assert(old(self).archived().dom() =~= old(self).entries@.dom());
        }
        self.next_handle = self.next_handle + 1;
        let handle = self.next_handle;
        let record_count = records.len() as u64;
        let observed_records = clone_records(&records);
        let ghost before = old(self).entries@;
        self.entries.insert(handle, StashEntry { records, database_marker });
        assert(self.archived() =~= old(self).archived().insert(
            handle,
            (observed_view(records@), database_marker),
        ));
        proof {
            vstd::std_specs::hash::axiom_hashmap_view_finite_dom(self.entries);
            assert(self.archived().dom() =~= self.entries@.dom());
        }
        StashResult {
            stash_handle: handle,
            record_count,
            database_marker,
            records: observed_records,
        }
    }

    /// The records archived under the handle, with the marker they were
    /// sealed under; `None` for a handle never minted here.
    pub fn lookup(&self, handle: &u64) -> (r: Option<(Vec<ObservedRecord>, DatabaseMarker)>)
        ensures
            match r {
                Some((records, marker)) => self.archived().contains_key(*handle) && self.archived()[*handle] == (
                    observed_view(records@),
                    marker,
                ),
                None => !self.archived().contains_key(*handle),
            },
    {
        match self.entries.get(handle) {
            Some(entry) => Some((clone_records(&entry.records), entry.database_marker)),
            None => None,
        }
    }

    /// How many observations are archived.
    pub fn len(&self) -> (r: usize)
        ensures
            r == self.archived().len(),
            self.archived().dom().finite(),
    {
        proof {
            vstd::std_specs::hash::axiom_hashmap_view_finite_dom(self.entries);
            assert(self.archived().dom() =~= self.entries@.dom());
        }
        self.entries.len()
    }

    /// Whether nothing is archived.
    pub fn is_empty(&self) -> (r: bool)
        ensures
            r == (self.archived().len() == 0),
    {
        proof {
            assert(self.archived().dom() =~= self.entries@.dom());
        }
        self.entries.len() == 0
    }
}

/// A copy of the records, equal by content.
pub fn clone_records(records: &Vec<ObservedRecord>) -> (r: Vec<ObservedRecord>)
    ensures
        observed_view(r@) == observed_view(records@),
{
    let mut out: Vec<ObservedRecord> = Vec::new();
    let mut i: usize = 0;
    while i < records.len()
        invariant
            i <= records.len(),
            observed_view(out@) == observed_view(records@).take(i as int),
        decreases records.len() - i,
    {
        let record = ObservedRecord {
            record_identifier: records[i].record_identifier.clone(),
            entry: records[i].entry.clone(),
        };
        let ghost before = observed_view(out@);
        out.push(record);
        assert(observed_view(out@) =~= before.push(records@[i as int]@));
        assert(observed_view(records@).take(i + 1) =~= observed_view(records@).take(i as int).push(records@[i as int]@));
        i = i + 1;
    }
    assert(observed_view(records@).take(records.len() as int) =~= observed_view(records@));
    out
}

/// The observer taps and the log of every admitted operation.
#[derive(Debug)]
pub struct ObserverTapTable {
    next_token: u64,
    operation_log: Vec<OperationKind>,
    taps: HashMap<u64, ObserverFilter>,
}

impl ObserverTapTable {
    /// The admitted operations, in order.
    pub closed spec fn log(&self) -> Seq<OperationKind> {
        self.operation_log@
    }

    /// The open taps by token.
    pub closed spec fn taps(&self) -> Map<u64, ObserverFilter> {
        self.taps@
    }

    /// The last token minted; zero before the first.
    pub closed spec fn last_token(&self) -> u64 {
        self.next_token
    }

    /// Every open tap's token has been minted.
    pub closed spec fn well_formed(&self) -> bool {
        forall|t: u64| #[trigger] self.taps@.contains_key(t) ==> 1 <= t <= self.next_token
    }

    /// Whether another token can still be minted.
    pub fn can_mint(&self) -> (r: bool)
        ensures
            r == (self.last_token() < u64::MAX),
    {
        self.next_token < u64::MAX
    }

    /// No taps and an empty log.
    pub fn new() -> (r: Self)
        ensures
            r.well_formed(),
            r.log() == Seq::<OperationKind>::empty(),
            r.taps() == Map::<u64, ObserverFilter>::empty(),
            r.last_token() == 0,
    {
        ObserverTapTable { next_token: 0, operation_log: Vec::new(), taps: HashMap::new() }
    }

    /// Record one admitted operation in the log.
    pub fn observe_operation(&mut self, operation: OperationKind)
        ensures
            final(self).log() == old(self).log().push(operation),
            final(self).taps() == old(self).taps(),
            final(self).last_token() == old(self).last_token(),
            final(self).well_formed() == old(self).well_formed(),
            tap_step(*old(self), *final(self), TapCall::Observe(operation)),
    {
        self.operation_log.push(operation);
        assert(self.taps@ == old(self).taps@ && self.next_token == old(self).next_token);
    }

    fn observed_operations(&self, filter: &ObserverFilter) -> (r: Vec<OperationKind>)
        ensures
            r@ == observed_operations(self.log(), *filter),
    {
        let mut out: Vec<OperationKind> = Vec::new();
        let mut i: usize = 0;
        assert(self.operation_log@.take(0) =~= Seq::<OperationKind>::empty());
        while i < self.operation_log.len()
            invariant
                i <= self.operation_log.len(),
                out@ == observed_operations(self.operation_log@.take(i as int), *filter),
            decreases self.operation_log.len() - i,
        {
            let operation = self.operation_log[i];
            assert(self.operation_log@.take(i + 1).drop_last() =~= self.operation_log@.take(i as int));
            if filter.observes_operation(&operation) {
                out.push(operation);
            }
            i = i + 1;
        }
        assert(self.operation_log@.take(self.operation_log.len() as int) =~= self.operation_log@);
        out
    }

    /// Open a tap under a freshly minted token; it is shown the operations
    /// logged so far that its filter admits.
    pub fn open(&mut self, filter: ObserverFilter) -> (r: (u64, ObserverFilter, Vec<OperationKind>))
        requires
            old(self).well_formed(),
            old(self).last_token() < u64::MAX,
        ensures
            final(self).well_formed(),
            r.0 == old(self).last_token() + 1,
            final(self).last_token() == r.0,
            !old(self).taps().contains_key(r.0),
            final(self).taps() == old(self).taps().insert(r.0, filter),
            final(self).log() == old(self).log(),
            r.1 == filter,
            r.2@ == observed_operations(old(self).log(), filter),
            final(self).taps().dom().finite(),
            final(self).taps().len() == old(self).taps().len() + 1,
            tap_step(*old(self), *final(self), TapCall::Open(filter, r.0)),
    {
        proof {
            vstd::std_specs::hash::axiom_hashmap_view_finite_dom(self.taps);
        }
        self.next_token = self.next_token + 1;
        let token = self.next_token;
        self.taps.insert(token, filter);
        (token, filter, self.observed_operations(&filter))
    }

    /// Close a tap: its final observations when the token was open, `None`
    /// when it was not.
    pub fn close(&mut self, token: u64) -> (r: Option<Vec<OperationKind>>)
        requires
            old(self).well_formed(),
        ensures
            final(self).well_formed(),
            final(self).taps() == old(self).taps().remove(token),
            final(self).log() == old(self).log(),
            final(self).last_token() == old(self).last_token(),
            match r {
                Some(observed) => old(self).taps().contains_key(token) && observed@
                    == observed_operations(old(self).log(), old(self).taps()[token]),
                None => !old(self).taps().contains_key(token),
            },
            final(self).taps().dom().finite(),
            final(self).taps().len() == if r is Some {
                old(self).taps().len() - 1
            } else {
                old(self).taps().len() as int
            },
            tap_step(*old(self), *final(self), TapCall::Close(token, r is Some)),
    {
        proof {
            vstd::std_specs::hash::axiom_hashmap_view_finite_dom(self.taps);
            if !self.taps@.contains_key(token) {
                assert(self.taps@.remove(token) =~= self.taps@);
            }
        }
        match self.taps.remove(&token) {
            Some(filter) => Some(self.observed_operations(&filter)),
            None => None,
        }
    }

    /// How many taps are open.
    pub fn len(&self) -> (r: usize)
        ensures
            r == self.taps().len(),
            self.taps().dom().finite(),
    {
        proof {
            vstd::std_specs::hash::axiom_hashmap_view_finite_dom(self.taps);
        }
        self.taps.len()
    }

    /// Whether no tap is open.
    pub fn is_empty(&self) -> (r: bool)
        ensures
            r == (self.taps().len() == 0),
    {
        self.taps.len() == 0
    }
}

/// A statement to be filed, as the owner said it.
#[derive(Debug)]
pub struct Statement(pub String);

/// A request to file a record, with why.
#[derive(Debug)]
pub struct RecordRequest {
    pub entry: Entry,
    pub justification: Justification,
}

/// A proposal to file a record, with why; a near-duplicate of a live
/// record is refused.
#[derive(Debug)]
pub struct Proposal {
    pub entry: Entry,
    pub justification: Justification,
}

impl Clone for RecordRequest {
    fn clone(&self) -> (r: Self)
        ensures
            r.entry@ == self.entry@,
            r.justification@ == self.justification@,
    {
        RecordRequest { entry: self.entry.clone(), justification: self.justification.clone() }
    }
}

impl Clone for Proposal {
    fn clone(&self) -> (r: Self)
        ensures
            r.entry@ == self.entry@,
            r.justification@ == self.justification@,
    {
        Proposal { entry: self.entry.clone(), justification: self.justification.clone() }
    }
}

/// The defaults a bare statement is filed under.
#[derive(Debug)]
pub struct ClassificationPolicy {
    fallback_domain: Domain,
    fallback_kind: Kind,
    fallback_magnitude: Magnitude,
    fallback_privacy: Magnitude,
}

/// The entry a statement is filed as under the default policy: documentation
/// information, a clarification of minimum certainty and importance,
/// public, about `state`.
pub open spec fn classified_entry(statement: Seq<char>) -> EntryView {
    EntryView {
        domains: seq![seq!["Information"@, "Documentation"@]],
        kind: "Clarification"@,
        description: statement,
        certainty: Certainty(Magnitude::Minimum),
        importance: Importance(Magnitude::Minimum),
        privacy: Privacy(Magnitude::Zero),
        referents: seq!["state"@],
    }
}

impl Default for ClassificationPolicy {
    /// The default policy: documentation information, a clarification of
    /// minimum certainty, public.
    fn default() -> (r: Self)
        ensures
            r.is_default(),
    {
        ClassificationPolicy::default_policy()
    }
}

impl ClassificationPolicy {
    /// The default policy.
    pub fn default_policy() -> (r: Self)
        ensures
            r.is_default(),
    {
        let mut path: Vec<String> = Vec::new();
        path.push("Information".to_string());
        path.push("Documentation".to_string());
        let r = ClassificationPolicy {
            fallback_domain: Domain(path),
            fallback_kind: Kind("Clarification".to_string()),
            fallback_magnitude: Magnitude::Minimum,
            fallback_privacy: Magnitude::Zero,
        };
        proof {
            reveal_strlit("Information");
            reveal_strlit("Documentation");
            reveal_strlit("Clarification");
            assert(r.fallback_domain@ =~= seq!["Information"@, "Documentation"@]);
        }
        r
    }

    /// Whether this is the default policy.
    pub closed spec fn is_default(&self) -> bool {
        &&& self.fallback_domain@ == seq!["Information"@, "Documentation"@]
        &&& self.fallback_kind@ == "Clarification"@
        &&& self.fallback_magnitude == Magnitude::Minimum
        &&& self.fallback_privacy == Magnitude::Zero
    }

    /// File a statement: the entry carries the statement as its
    /// description under the policy's defaults, and the statement is its
    /// own testimony and reasoning.
    pub fn classify(&self, statement: Statement) -> (r: RecordRequest)
        ensures
            self.is_default() ==> r.entry@ == classified_entry(statement.0@),
            r.entry@.description == statement.0@,
            r.justification@.testimony.len() == 1,
            r.justification@.testimony[0].quote_text == statement.0@,
            r.justification@.testimony[0].source.is_none(),
            r.justification@.reasoning == statement.0@,
    {
        let description = statement.0;
        let justification = Justification::from_statement(&description);
        let mut domains: Vec<Domain> = Vec::new();
        domains.push(self.fallback_domain.clone());
        let mut referents: Vec<Referent> = Vec::new();
        referents.push(Referent("state".to_string()));
        let entry = Entry {
            domains: Domains(domains),
            kind: self.fallback_kind.clone(),
            description: Description(description),
            certainty: Certainty(self.fallback_magnitude),
            importance: Importance(Magnitude::Minimum),
            privacy: Privacy(self.fallback_privacy),
            referents: Referents(referents),
        };
        proof {
            reveal_strlit("state");
            reveal_strlit("Information");
            reveal_strlit("Documentation");
            reveal_strlit("Clarification");
            if self.is_default() {
                assert(entry@.domains =~= seq![seq!["Information"@, "Documentation"@]]);
                assert(entry@.referents =~= seq!["state"@]);
            }
        }
        RecordRequest { entry, justification }
    }
}

} // verus!
