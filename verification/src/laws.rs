//! What holds of the library across its operations: reads give back what
//! writes wrote, observations come most certain first, the stash, the
//! observer taps and the mail ledger keep their whole history (fresh
//! handles and tokens, nothing stashed or logged is lost, counts add up),
//! registered names resolve, a public text search returns only publicly
//! active matches in rank order, every handled request leaves one handoff
//! line and one reply line in the ledger, and a write whose judgement
//! could not be had fails closed.

use vstd::prelude::*;

use crate::ledger::{
    count_processed, count_sent, lemma_ledger_counts_partition, processed_event, sent_event, MailLedgerEvent,
};
use crate::magnitude::magnitude_rank;
use crate::query::{EntryView, QueryView};
use crate::referent::{canonical_name, merged_aliases, StoredReferentView};
use crate::store::{
    canonical_position, distinct_identifiers, entry_of, has_canonical, has_record, observation,
    rank_key, ranked, record_position, selected, with_entry, with_rank_key,
    without, DatabaseMarker, RecordView,
};
use crate::tables::{
    closes_in, logged_in, opens_in, stash_put_step, tap_step, ObserverFilter, ObserverTapTable,
    OperationKind, StashTable, TapCall,
};
use crate::query::publicly_active;
use crate::error::StoreError;
use crate::guardian::{admission_verdict_view, AgentGuardianError, SpiritJudgeReply};
use crate::guardian_journal::GuardianOperation;
use crate::nexus::{guard_journaled, guard_outcome, guarded, last_write_verdict, refused_as_duplicate_or, Nexus};
use crate::store::SemaReceipt;
use crate::nexus::{cycle_reply, cycle_run, cycle_step, Input, NexusWork, Output, Turn, CONTINUATION_LIMIT};
use crate::store::{entry_of as store_entry_of, RecordIdentifier};
use crate::verdict::{is_harness_reason, GuardianRejection};
use crate::search::{
    capped, entry_score, in_search_order, needle_text, needle_tokens, search_results,
    PUBLIC_TEXT_SEARCH_LIMIT,
};
use crate::store::{canonical_query, duplicates, first_duplicate};
use crate::guardian::{admission_reason, AdmissionRejectionReason};
use crate::verdict::{atom_of, GuardianRejectionReason};
use crate::criome_gate::{advances_head, CriomeAuthorization};
use crate::nexus::{arrival_route, NexusAction};
use crate::query::Query;

verus! {

/// A recorded entry reads back under its new identifier, and every other
/// identifier reads as it did: the read-after-write law of `record_entry`,
/// `propose` and `import_record`, whose results append one fresh row.
pub proof fn law_recorded_entry_reads_back(
    before: Seq<RecordView>,
    identifier: Seq<char>,
    entry: EntryView,
    other: Seq<char>,
)
    requires
        distinct_identifiers(before),
        !has_record(before, identifier),
    ensures
        entry_of(before.push(RecordView { identifier, entry }), identifier) == Some(entry),
        other != identifier ==> entry_of(before.push(RecordView { identifier, entry }), other)
            == entry_of(before, other),
{
    crate::store::lemma_entry_of_push(before, RecordView { identifier, entry }, identifier);
    crate::store::lemma_entry_of_push(before, RecordView { identifier, entry }, other);
}

/// A removed or retired record reads as absent, every other as before.
pub proof fn law_removed_entry_reads_absent(before: Seq<RecordView>, identifier: Seq<char>, other: Seq<char>)
    requires
        distinct_identifiers(before),
        has_record(before, identifier),
    ensures
        entry_of(without(before, record_position(before, identifier)), identifier) is None,
        other != identifier ==> entry_of(without(before, record_position(before, identifier)), other)
            == entry_of(before, other),
{
    let i = record_position(before, identifier);
    crate::store::lemma_entry_of_without(before, i, identifier);
    crate::store::lemma_entry_of_without(before, i, other);
}

/// A changed, clarified, re-rated or bumped record reads its new entry
/// under the same identifier, every other as before.
pub proof fn law_changed_entry_reads_back(
    before: Seq<RecordView>,
    identifier: Seq<char>,
    entry: EntryView,
    other: Seq<char>,
)
    requires
        distinct_identifiers(before),
        has_record(before, identifier),
    ensures
        entry_of(with_entry(before, record_position(before, identifier), entry), identifier) == Some(
            entry,
        ),
        other != identifier ==> entry_of(
            with_entry(before, record_position(before, identifier), entry),
            other,
        ) == entry_of(before, other),
{
    let i = record_position(before, identifier);
    crate::store::lemma_entry_of_with_entry(before, i, entry, identifier);
    crate::store::lemma_entry_of_with_entry(before, i, entry, other);
}

proof fn lemma_with_rank_key_members(records: Seq<RecordView>, key: nat)
    ensures
        forall|i: int| 0 <= i < with_rank_key(records, key).len() ==> rank_key(
            #[trigger] with_rank_key(records, key)[i].entry,
        ) == key && records.contains(with_rank_key(records, key)[i]),
    decreases records.len(),
{
    if records.len() > 0 {
        let rest = with_rank_key(records.drop_last(), key);
        lemma_with_rank_key_members(records.drop_last(), key);
        assert forall|i: int| 0 <= i < with_rank_key(records, key).len() implies rank_key(
            #[trigger] with_rank_key(records, key)[i].entry,
        ) == key && records.contains(with_rank_key(records, key)[i]) by {
            if i < rest.len() {
                assert(with_rank_key(records, key)[i] == rest[i]);
                let j = choose|j: int| 0 <= j < records.drop_last().len() && records.drop_last()[j] == rest[i];
                assert(records[j] == rest[i]);
            } else {
                assert(with_rank_key(records, key)[i] == records.last());
                assert(records[records.len() - 1] == records.last());
            }
        }
    }
}

proof fn lemma_ranked_sorted(records: Seq<RecordView>, n: nat)
    requires
        n <= 64,
    ensures
        forall|i: int| 0 <= i < ranked(records, n).len() ==> rank_key(#[trigger] ranked(records, n)[i].entry)
            >= 64 - n && records.contains(ranked(records, n)[i]),
        forall|i: int, j: int|
            0 <= i < j < ranked(records, n).len() ==> rank_key(#[trigger] ranked(records, n)[i].entry)
                >= rank_key(#[trigger] ranked(records, n)[j].entry),
    decreases n,
{
    if n > 0 {
        let prior = ranked(records, (n - 1) as nat);
        let group = with_rank_key(records, (64 - n) as nat);
        lemma_ranked_sorted(records, (n - 1) as nat);
        lemma_with_rank_key_members(records, (64 - n) as nat);
        let all = ranked(records, n);
        assert(all == prior + group);
        assert forall|i: int| 0 <= i < all.len() implies rank_key(#[trigger] all[i].entry) >= 64 - n
            && records.contains(all[i]) by {
            if i < prior.len() {
                assert(all[i] == prior[i]);
            } else {
                assert(all[i] == group[i - prior.len()]);
            }
        }
        assert forall|i: int, j: int| 0 <= i < j < all.len() implies rank_key(#[trigger] all[i].entry)
            >= rank_key(#[trigger] all[j].entry) by {
            if j < prior.len() {
                assert(all[i] == prior[i] && all[j] == prior[j]);
            } else if i < prior.len() {
                assert(all[i] == prior[i] && all[j] == group[j - prior.len()]);
            } else {
                assert(all[i] == group[i - prior.len()] && all[j] == group[j - prior.len()]);
            }
        }
    }
}

/// An observation comes most certain first, then most important: of two
/// records in it, the earlier is more certain, or as certain and at least
/// as important. Every record in it is one the query selects.
pub proof fn law_observation_most_certain_first(records: Seq<RecordView>, q: QueryView, i: int, j: int)
    requires
        0 <= i < j < observation(records, q).len(),
    ensures
        ({
            let a = observation(records, q)[i].entry;
            let b = observation(records, q)[j].entry;
            magnitude_rank(a.certainty.0) > magnitude_rank(b.certainty.0) || (magnitude_rank(
                a.certainty.0,
            ) == magnitude_rank(b.certainty.0) && magnitude_rank(a.importance.0) >= magnitude_rank(
                b.importance.0,
            ))
        }),
        selected(records, q).contains(observation(records, q)[i]),
{
    let sel = selected(records, q);
    lemma_ranked_sorted(sel, 64);
    let a = observation(records, q)[i].entry;
    let b = observation(records, q)[j].entry;
    assert(rank_key(a) >= rank_key(b));
    assert(magnitude_rank(a.importance.0) < 8 && magnitude_rank(b.importance.0) < 8);
    assert(magnitude_rank(a.certainty.0) < 8 && magnitude_rank(b.certainty.0) < 8);
}

/// A stash table that starts empty and takes a run of puts: the k-th put
/// is answered with handle k, never one an earlier put returned; at the
/// end every put's observation still reads back under its handle, no other
/// handle holds anything, and the table holds as many observations as
/// there were puts. Nothing stashed is dropped or overwritten.
pub proof fn law_stash_history(
    tables: Seq<StashTable>,
    handles: Seq<u64>,
    stashed: Seq<(Seq<RecordView>, DatabaseMarker)>,
)
    requires
        tables.len() == handles.len() + 1,
        stashed.len() == handles.len(),
        tables[0].archived() == Map::<u64, (Seq<RecordView>, DatabaseMarker)>::empty(),
        tables[0].last_handle() == 0,
        forall|i: int|
            0 <= i < handles.len() ==> #[trigger] stash_put_step(tables[i], tables[i + 1], handles[i], stashed[i]),
    ensures
        forall|i: int| 0 <= i < handles.len() ==> #[trigger] handles[i] == i + 1,
        forall|i: int|
            0 <= i < handles.len() ==> tables.last().archived().contains_key(#[trigger] handles[i])
                && tables.last().archived()[handles[i]] == stashed[i],
        forall|h: u64| #[trigger] tables.last().archived().contains_key(h) <==> 1 <= h <= handles.len(),
        tables.last().archived().dom().finite(),
        tables.last().archived().len() == handles.len(),
        tables.last().last_handle() == handles.len(),
    decreases handles.len(),
{
    let n = handles.len() as int;
    if n == 0 {
        assert(tables.last().archived().dom() =~= Set::<u64>::empty());
    } else {
        let pre_t = tables.take(n);
        let pre_h = handles.take(n - 1);
        let pre_s = stashed.take(n - 1);
        assert forall|i: int| 0 <= i < pre_h.len() implies #[trigger] stash_put_step(
            pre_t[i],
            pre_t[i + 1],
            pre_h[i],
            pre_s[i],
        ) by {
            assert(stash_put_step(tables[i], tables[i + 1], handles[i], stashed[i]));
        }
        law_stash_history(pre_t, pre_h, pre_s);
        let before = tables[n - 1];
        let after = tables[n];
        assert(pre_t.last() == before);
        assert(stash_put_step(before, after, handles[n - 1], stashed[n - 1]));
        assert forall|i: int| 0 <= i < n implies #[trigger] handles[i] == i + 1 by {
            if i < n - 1 {
                assert(pre_h[i] == handles[i]);
            }
        }
        assert forall|i: int| 0 <= i < n implies after.archived().contains_key(#[trigger] handles[i])
            && after.archived()[handles[i]] == stashed[i] by {
            if i < n - 1 {
                assert(pre_h[i] == handles[i]);
                assert(pre_s[i] == stashed[i]);
                assert(before.archived().contains_key(pre_h[i]));
            }
        }
        assert(!before.archived().contains_key(handles[n - 1]));
        assert(after.archived().dom() =~= before.archived().dom().insert(handles[n - 1]));
    }
}

/// An observer tap table that starts with no taps and an empty log, then
/// takes a run of opens, closes and logged operations: each open mints the
/// token after the last, so never one issued before; the log holds the
/// logged operations in order; and the open taps number the opens less
/// the closes that found their tap. (Each open and close is shown the
/// operations of the log at that point that its filter admits.)
pub proof fn law_tap_history(tables: Seq<ObserverTapTable>, calls: Seq<TapCall>)
    requires
        tables.len() == calls.len() + 1,
        tables[0].taps() == Map::<u64, ObserverFilter>::empty(),
        tables[0].log() == Seq::<OperationKind>::empty(),
        tables[0].last_token() == 0,
        forall|i: int| 0 <= i < calls.len() ==> #[trigger] tap_step(tables[i], tables[i + 1], calls[i]),
    ensures
        forall|i: int|
            0 <= i < calls.len() && #[trigger] calls[i] is Open ==> calls[i]->Open_1 == opens_in(calls.take(i)) + 1,
        tables.last().last_token() == opens_in(calls),
        tables.last().log() == logged_in(calls),
        tables.last().taps().dom().finite(),
        forall|t: u64| #[trigger] tables.last().taps().contains_key(t) ==> 1 <= t <= tables.last().last_token(),
        tables.last().taps().len() == opens_in(calls) - closes_in(calls),
    decreases calls.len(),
{
    let n = calls.len() as int;
    if n == 0 {
        assert(tables.last().taps().dom() =~= Set::<u64>::empty());
    } else {
        let pre_t = tables.take(n);
        let pre_c = calls.take(n - 1);
        assert forall|i: int| 0 <= i < pre_c.len() implies #[trigger] tap_step(pre_t[i], pre_t[i + 1], pre_c[i]) by {
            assert(tap_step(tables[i], tables[i + 1], calls[i]));
        }
        law_tap_history(pre_t, pre_c);
        let before = tables[n - 1];
        let after = tables[n];
        assert(pre_t.last() == before);
        assert(calls.drop_last() =~= pre_c);
        assert(tap_step(before, after, calls[n - 1]));
        assert forall|i: int| 0 <= i < n && #[trigger] calls[i] is Open implies calls[i]->Open_1 == opens_in(
            calls.take(i),
        ) + 1 by {
            if i < n - 1 {
                assert(pre_c[i] == calls[i]);
                assert(pre_c.take(i) =~= calls.take(i));
            } else {
                assert(calls.take(i) =~= pre_c);
            }
        }
        match calls[n - 1] {
            TapCall::Open(filter, token) => {
                assert(!before.taps().contains_key(token));
                assert(after.taps().dom() =~= before.taps().dom().insert(token));
            },
            TapCall::Close(token, closed) => {
                assert(after.taps().dom() =~= before.taps().dom().remove(token));
                if !closed {
                    assert(before.taps().dom().remove(token) =~= before.taps().dom());
                }
            },
            TapCall::Observe(operation) => {},
        }
    }
}

/// Handoffs and replies counted over two stretches of lines add up.
pub proof fn lemma_ledger_counts_concat(a: Seq<MailLedgerEvent>, b: Seq<MailLedgerEvent>)
    ensures
        count_sent(a + b) == count_sent(a) + count_sent(b),
        count_processed(a + b) == count_processed(a) + count_processed(b),
    decreases b.len(),
{
    if b.len() == 0 {
        assert(a + b =~= a);
    } else {
        lemma_ledger_counts_concat(a, b.drop_last());
        assert((a + b).drop_last() =~= a + b.drop_last());
        assert((a + b).last() == b.last());
    }
}

/// The mail ledger only grows: a run of appends, each one line of a
/// handoff or of a reply (what the ledger's hook and the Nexus's
/// `record_sent` and `record_processed` do), leaves each ledger along the
/// way equal to the first followed by the lines appended so far, so no
/// line is ever changed or dropped; the handoff count grows by the
/// handoffs appended and the reply count by the replies; and the two
/// counts add up to the ledger's length.
pub proof fn law_ledger_history(ledgers: Seq<Seq<MailLedgerEvent>>, appended: Seq<MailLedgerEvent>)
    requires
        ledgers.len() == appended.len() + 1,
        forall|i: int| 0 <= i < appended.len() ==> ledgers[i + 1] == ledgers[i].push(#[trigger] appended[i]),
    ensures
        forall|i: int| 0 <= i < ledgers.len() ==> #[trigger] ledgers[i] == ledgers[0] + appended.take(i),
        count_sent(ledgers.last()) == count_sent(ledgers[0]) + count_sent(appended),
        count_processed(ledgers.last()) == count_processed(ledgers[0]) + count_processed(appended),
        count_sent(ledgers.last()) + count_processed(ledgers.last()) == ledgers.last().len(),
    decreases appended.len(),
{
    let n = appended.len() as int;
    if n == 0 {
        assert(ledgers[0] + appended.take(0) =~= ledgers[0]);
    } else {
        let pre_l = ledgers.take(n);
        let pre_a = appended.take(n - 1);
        assert forall|i: int| 0 <= i < pre_a.len() implies pre_l[i + 1] == pre_l[i].push(#[trigger] pre_a[i]) by {
            assert(ledgers[i + 1] == ledgers[i].push(appended[i]));
        }
        law_ledger_history(pre_l, pre_a);
        assert forall|i: int| 0 <= i < ledgers.len() implies #[trigger] ledgers[i] == ledgers[0] + appended.take(i) by {
            if i < n {
                assert(pre_l[i] == ledgers[i]);
                assert(pre_a.take(i) =~= appended.take(i));
            } else {
                assert(pre_l[n - 1] == ledgers[n - 1]);
                assert(pre_a.take(n - 1) =~= pre_a);
                assert(ledgers[n] == ledgers[n - 1].push(appended[n - 1]));
                assert(appended.take(n) =~= pre_a.push(appended[n - 1]));
                assert(ledgers[0] + pre_a.push(appended[n - 1]) =~= (ledgers[0] + pre_a).push(appended[n - 1]));
            }
        }
        assert(appended.take(n) =~= appended);
    }
    lemma_ledger_counts_concat(ledgers[0], appended);
    lemma_ledger_counts_partition(ledgers.last());
}

/// A registration that some referent already covers (it answers to every
/// name of it) is settled as it stands, and its name resolves.
pub proof fn law_settled_registration_resolves(
    registry: Seq<StoredReferentView>,
    referent: Seq<char>,
    aliases: Seq<Seq<char>>,
    k: int,
)
    requires
        0 <= k < registry.len(),
        crate::referent::covers_registration(registry[k], referent, aliases),
    ensures
        canonical_name(registry, referent) is Some,
{
    lemma_answering_resolves(registry, referent, k);
}

/// A registration merged into the referent of the same canonical name
/// leaves its name resolving.
pub proof fn law_merged_registration_resolves(
    before: Seq<StoredReferentView>,
    referent: Seq<char>,
    aliases: Seq<Seq<char>>,
)
    requires
        has_canonical(before, referent),
    ensures
        canonical_name(
            before.update(
                canonical_position(before, referent),
                StoredReferentView {
                    referent,
                    aliases: merged_aliases(before[canonical_position(before, referent)].aliases, referent, aliases),
                },
            ),
            referent,
        ) is Some,
{
    let k = canonical_position(before, referent);
    let after = before.update(
        k,
        StoredReferentView { referent, aliases: merged_aliases(before[k].aliases, referent, aliases) },
    );
    assert(after[k].referent == referent);
    lemma_answering_resolves(after, referent, k);
}

/// A brand-new registration leaves its name resolving.
pub proof fn law_new_registration_resolves(
    before: Seq<StoredReferentView>,
    referent: Seq<char>,
    aliases: Seq<Seq<char>>,
)
    ensures
        canonical_name(before.push(StoredReferentView { referent, aliases }), referent) is Some,
{
    let after = before.push(StoredReferentView { referent, aliases });
    assert(after[before.len() as int].referent == referent);
    lemma_answering_resolves(after, referent, before.len() as int);
}

proof fn lemma_answering_resolves(registry: Seq<StoredReferentView>, name: Seq<char>, i: int)
    requires
        0 <= i < registry.len(),
        crate::referent::answers_to(registry[i], name),
    ensures
        canonical_name(registry, name) is Some,
{
    assert(exists|j: int| 0 <= j < registry.len() && crate::referent::answers_to(#[trigger] registry[j], name));
}

/// Each handled request adds exactly one handoff line and one reply line
/// to the ledger.
pub proof fn law_handled_request_balances_ledger(
    before: Seq<MailLedgerEvent>,
    sent: crate::ledger::MessageSent,
    identifier: crate::ledger::MessageIdentifier,
    origin_route: crate::ledger::OriginRoute,
)
    ensures
        count_sent(before.push(sent_event(sent)).push(processed_event(identifier, origin_route)))
            == count_sent(before) + 1,
        count_processed(before.push(sent_event(sent)).push(processed_event(identifier, origin_route)))
            == count_processed(before) + 1,
{
    let once = before.push(sent_event(sent));
    let twice = once.push(processed_event(identifier, origin_route));
    assert(twice.drop_last() =~= once);
    assert(once.drop_last() =~= before);
    assert(count_sent(once) == count_sent(before) + 1);
    assert(count_processed(once) == count_processed(before));
    assert(count_sent(twice) == count_sent(once));
    assert(count_processed(twice) == count_processed(once) + 1);
}


/// A public text search returns at most `PUBLIC_TEXT_SEARCH_LIMIT` records,
/// each of them one of the store's records, publicly active and matching
/// the search; they come best match first (by score, then certainty, then
/// importance).
pub proof fn law_search_returns_ranked_public_matches(records: Seq<RecordView>, search: Seq<char>)
    ensures
        search_results(records, search).len() <= PUBLIC_TEXT_SEARCH_LIMIT,
        forall|i: int|
            0 <= i < search_results(records, search).len() ==> {
                let row = #[trigger] search_results(records, search)[i];
                &&& records.contains(row)
                &&& publicly_active(row.entry)
                &&& entry_score(needle_text(search), needle_tokens(search), row.entry) > 0
            },
        in_search_order(needle_text(search), needle_tokens(search), search_results(records, search)),
{
    let full = needle_text(search);
    let tokens = needle_tokens(search);
    if full.len() > 0 {
        let candidates = crate::search::search_candidates(full, tokens, records);
        let ranked = crate::search::ranked_by_score(full, tokens, candidates);
        crate::search::lemma_candidates(full, tokens, records);
        crate::search::lemma_ranked_members(full, tokens, candidates);
        crate::search::lemma_ranked_in_order(full, tokens, candidates);
        let results = search_results(records, search);
        assert forall|i: int| 0 <= i < results.len() implies {
            let row = #[trigger] results[i];
            &&& records.contains(row)
            &&& publicly_active(row.entry)
            &&& entry_score(full, tokens, row.entry) > 0
        } by {
            assert(results[i] == ranked[i]);
            assert(ranked.contains(ranked[i]));
            assert(candidates.contains(ranked[i]));
        }
        assert forall|i: int, j: int| 0 <= i < j < results.len() implies crate::search::ranks_at_least(
            full,
            tokens,
            #[trigger] results[i].entry,
            #[trigger] results[j].entry,
        ) by {
            assert(results[i] == ranked[i] && results[j] == ranked[j]);
        }
    }
}

/// The judge's reply is no judgement: the judge could not be reached or
/// timed out, refused the request, or answered about a referent.
pub open spec fn judgment_failed(reply: Result<SpiritJudgeReply, AgentGuardianError>) -> bool {
    ||| reply is Err
    ||| reply matches Ok(SpiritJudgeReply::RequestRejected(_))
    ||| reply matches Ok(SpiritJudgeReply::ReferentRegistrationJudged(_))
}

/// A guarded write whose judgement could not be had (no guardian agent is
/// installed though one is required, or the judge failed) fails closed: it
/// is refused with a harness reason, the refusal is the journaled verdict,
/// and the store's records are untouched. This holds of the guarded new
/// writes (`guard_record`, and `guard_propose` with an agent installed),
/// whose `ensures` give the two facts required here for every result that
/// is not a store error.
pub proof fn law_failed_judgment_fails_closed(
    before: Nexus,
    after: Nexus,
    operation: GuardianOperation,
    entry: EntryView,
    judge_reply: Option<Result<SpiritJudgeReply, AgentGuardianError>>,
    r: Result<Result<SemaReceipt, GuardianRejection>, StoreError>,
)
    requires
        guarded(before),
        before.spec_guardian() is Some ==> (judge_reply matches Some(reply) && judgment_failed(reply)),
        r is Ok,
        r matches Ok(Ok(_)) ==> guard_outcome(before, after.spec_store().guardian_decisions(), operation, judge_reply, None),
        refused_as_duplicate_or(before, after, operation, entry, judge_reply, r),
    ensures
        r matches Ok(Err(refusal)) && is_harness_reason(refusal.guardian_rejection_reason)
            && admission_verdict_view(last_write_verdict(after.spec_store().guardian_decisions())) == Some((
            refusal.guardian_rejection_reason,
            refusal.explanation.0@,
        )),
        after.spec_store()@ == before.spec_store()@,
{
}

/// An edit of live records (`guard_clarify`, `guard_resolve_clarification`,
/// `guard_supersede`, `guard_retire`, `guard_change_record`) whose
/// judgement could not be had fails closed in the same way: refused with a
/// harness reason that is the journaled verdict, the store untouched.
pub proof fn law_failed_judgment_refuses_edits<T>(
    before: Nexus,
    after: Nexus,
    operation: GuardianOperation,
    judge_reply: Option<Result<SpiritJudgeReply, AgentGuardianError>>,
    r: Result<Result<T, GuardianRejection>, StoreError>,
)
    requires
        guarded(before),
        before.spec_guardian() is Some ==> (judge_reply matches Some(reply) && judgment_failed(reply)),
        r is Ok,
        r matches Ok(Ok(_)) ==> guard_outcome(before, after.spec_store().guardian_decisions(), operation, judge_reply, None),
        r matches Ok(Err(refusal)) ==> guard_outcome(
            before,
            after.spec_store().guardian_decisions(),
            operation,
            judge_reply,
            Some(refusal),
        ) && after.spec_store()@ == before.spec_store()@,
    ensures
        r matches Ok(Err(refusal)) && is_harness_reason(refusal.guardian_rejection_reason)
            && admission_verdict_view(last_write_verdict(after.spec_store().guardian_decisions())) == Some((
            refusal.guardian_rejection_reason,
            refusal.explanation.0@,
        )),
        after.spec_store()@ == before.spec_store()@,
{
}

/// A lookup is answered from the store: with the record under the asked
/// identifier when the store holds it, else with the not-found error; the
/// store is untouched.
pub proof fn law_lookup_reply_follows_the_store(
    before: Nexus,
    after: Nexus,
    identifier: RecordIdentifier,
    r: Output,
)
    requires
        cycle_reply(before, after, NexusWork::SignalArrived(Input::Lookup(identifier)), r),
    ensures
        after.spec_store() == before.spec_store(),
        match store_entry_of(before.spec_store()@.records, identifier.0@) {
            Some(e) => r is RecordFound && r->RecordFound_0.record_identifier == identifier
                && r->RecordFound_0.entry@ == e,
            None => r is Error && r->Error_0@ == crate::sema::not_found_text(),
        },
{
    let work = NexusWork::SignalArrived(Input::Lookup(identifier));
    let (states, works) = choose|states: Seq<Nexus>, works: Seq<NexusWork>|
        #[trigger] cycle_run(states, works, r) && states[0] == before && states.last() == after && works[0] == work;
    let n = works.len() as int;
    assert(CONTINUATION_LIMIT == 64);
    if n == 1 {
        assert(cycle_step(states[0], states[1], works[0], Turn::Reply(r)));
        assert(false);
    }
    let first = 0int;
    assert(cycle_step(states[first], states[first + 1], works[first], Turn::Next(works[first + 1])));
    if n > 2 {
        let second = 1int;
        assert(cycle_step(states[second], states[second + 1], works[second], Turn::Next(works[second + 1])));
        assert(false);
    }
    assert(n == 2);
    assert(cycle_step(states[1], states[2], works[1], Turn::Reply(r)));
}

/// A stashed observation survives every later put: a put archives under a
/// handle no earlier put returned, so what an earlier handle looks up is
/// unchanged, and the table holds one more observation.
pub proof fn law_stash_survives_later_puts(
    before: StashTable,
    after: StashTable,
    handle: u64,
    records: Seq<RecordView>,
    marker: DatabaseMarker,
    earlier: u64,
)
    requires
        !before.archived().contains_key(handle),
        after.archived() == before.archived().insert(handle, (records, marker)),
        before.archived().dom().finite(),
        before.archived().contains_key(earlier),
    ensures
        after.archived().contains_key(earlier),
        after.archived()[earlier] == before.archived()[earlier],
        after.archived()[handle] == (records, marker),
        after.archived().len() == before.archived().len() + 1,
{
}

/// Two entries are duplicates only when they state the same arrow: the
/// same kind under the same domains. An entry with different domains (or a
/// different kind) is never a duplicate, so it is recorded rather than
/// refused. Descriptions of different trimmed lengths never match. Every
/// entry duplicates itself, and duplication goes both ways.
pub proof fn law_duplicates_share_kind_and_domains(existing: EntryView, proposed: EntryView)
    ensures
        duplicates(existing, proposed) ==> existing.domains == proposed.domains && existing.kind == proposed.kind,
        existing.domains != proposed.domains ==> !duplicates(existing, proposed),
        duplicates(existing, existing),
        duplicates(existing, proposed) ==> duplicates(proposed, existing),
        duplicates(existing, proposed) ==> crate::text::trimmed_text(existing.description).len()
            == crate::text::trimmed_text(proposed.description).len(),
{
    reveal(duplicates);
}

/// Some record duplicates the proposal: then there is a first one.
proof fn lemma_least_duplicate(records: Seq<RecordView>, proposed: EntryView, i: int)
    requires
        0 <= i < records.len(),
        duplicates(records[i].entry, proposed),
    ensures
        exists|k: int|
            0 <= k < records.len() && duplicates(#[trigger] records[k].entry, proposed) && forall|j: int|
                0 <= j < k ==> !duplicates(#[trigger] records[j].entry, proposed),
    decreases i,
{
    if exists|j: int| 0 <= j < i && duplicates(#[trigger] records[j].entry, proposed) {
        let j = choose|j: int| 0 <= j < i && duplicates(#[trigger] records[j].entry, proposed);
        lemma_least_duplicate(records, proposed, j);
    } else {
        assert(forall|j: int| 0 <= j < i ==> !duplicates(#[trigger] records[j].entry, proposed));
    }
}

/// The record a proposal is refused as a duplicate of has the proposal's
/// kind and domains; and a proposal already stored as it stands is always
/// found as a duplicate.
pub proof fn law_duplicate_found_shares_domains(records: Seq<RecordView>, proposed: EntryView)
    ensures
        first_duplicate(records, proposed) matches Some(k) ==> 0 <= k < records.len()
            && records[k].entry.domains == proposed.domains && records[k].entry.kind == proposed.kind,
        (exists|i: int| 0 <= i < records.len() && #[trigger] records[i].entry == proposed)
            ==> first_duplicate(records, proposed) is Some,
{
    if exists|i: int| 0 <= i < records.len() && duplicates(#[trigger] records[i].entry, proposed) {
        let i = choose|i: int| 0 <= i < records.len() && duplicates(#[trigger] records[i].entry, proposed);
        lemma_least_duplicate(records, proposed, i);
        reveal(first_duplicate);
        let k = first_duplicate(records, proposed)->Some_0;
        law_duplicates_share_kind_and_domains(records[k].entry, proposed);
    } else {
        reveal(first_duplicate);
        if exists|i: int| 0 <= i < records.len() && #[trigger] records[i].entry == proposed {
            let i = choose|i: int| 0 <= i < records.len() && #[trigger] records[i].entry == proposed;
            law_duplicates_share_kind_and_domains(proposed, proposed);
            assert(duplicates(records[i].entry, proposed));
        }
    }
}

/// Search results come best first: of two results, the earlier scores at
/// least as high; at equal score it is at least as certain; at equal score
/// and certainty it is at least as important.
pub proof fn law_search_ties_break_by_certainty_then_importance(
    records: Seq<RecordView>,
    search: Seq<char>,
    i: int,
    j: int,
)
    requires
        0 <= i < j < search_results(records, search).len(),
    ensures
        ({
            let full = needle_text(search);
            let tokens = needle_tokens(search);
            let a = search_results(records, search)[i].entry;
            let b = search_results(records, search)[j].entry;
            let sa = capped(entry_score(full, tokens, a));
            let sb = capped(entry_score(full, tokens, b));
            &&& sa >= sb
            &&& sa == sb ==> magnitude_rank(a.certainty.0) >= magnitude_rank(b.certainty.0)
            &&& sa == sb && magnitude_rank(a.certainty.0) == magnitude_rank(b.certainty.0) ==> magnitude_rank(
                a.importance.0,
            ) >= magnitude_rank(b.importance.0)
        }),
{
    law_search_returns_ranked_public_matches(records, search);
    let rows = search_results(records, search);
    assert(crate::search::ranks_at_least(needle_text(search), needle_tokens(search), rows[i].entry, rows[j].entry));
}

/// The wire name of the guardian reason each admission refusal becomes: a
/// refusal the judge names keeps its name; the judge's own failures become
/// the harness reasons.
pub open spec fn admission_reason_name(reason: AdmissionRejectionReason) -> &'static str {
    match reason {
        AdmissionRejectionReason::Duplicate => "Duplicate",
        AdmissionRejectionReason::Contradiction => "Contradiction",
        AdmissionRejectionReason::Compound => "Compound",
        AdmissionRejectionReason::NonIntent => "NonIntent",
        AdmissionRejectionReason::NegativeGuideline => "NegativeGuideline",
        AdmissionRejectionReason::Matter => "Matter",
        AdmissionRejectionReason::UnclearPrivacy => "UnclearPrivacy",
        AdmissionRejectionReason::UnclearDomain => "UnclearDomain",
        AdmissionRejectionReason::ClarifyTramples => "ClarifyTramples",
        AdmissionRejectionReason::ClarifyLosesMeaning => "ClarifyLosesMeaning",
        AdmissionRejectionReason::SupersedeTargetMissing => "SupersedeTargetMissing",
        AdmissionRejectionReason::RetrievalInsufficient => "RetrievalInsufficient",
        AdmissionRejectionReason::MissingTestimony => "MissingTestimony",
        AdmissionRejectionReason::TestimonyFabricated => "TestimonyFabricated",
        AdmissionRejectionReason::InsufficientWarrant => "InsufficientWarrant",
        AdmissionRejectionReason::Overstated => "Overstated",
        AdmissionRejectionReason::ImportanceUnsupported => "ImportanceUnsupported",
        AdmissionRejectionReason::JudgeUnavailable => "HarnessUnavailable",
        AdmissionRejectionReason::JudgeMalformed => "HarnessMalformed",
        AdmissionRejectionReason::JudgeTimedOut => "HarnessTimedOut",
    }
}

/// An admission refusal comes back under the guardian reason of the same
/// name; no two admission reasons become the same guardian reason; and a
/// harness reason comes back exactly when the judge itself failed.
pub proof fn law_admission_reason_keeps_its_name(a: AdmissionRejectionReason, b: AdmissionRejectionReason)
    ensures
        atom_of(admission_reason(a)) == admission_reason_name(a),
        admission_reason(a) == admission_reason(b) ==> a == b,
        is_harness_reason(admission_reason(a)) <==> (a == AdmissionRejectionReason::JudgeUnavailable || a
            == AdmissionRejectionReason::JudgeMalformed || a == AdmissionRejectionReason::JudgeTimedOut),
{
}

/// A request the Nexus answers with a read never advances the log head, so
/// an enabled criome gate admits it; a request it answers with a SEMA write
/// always advances the head, so an enabled gate refuses it.
pub proof fn law_reads_pass_the_gate_and_writes_do_not(input: Input, marker: DatabaseMarker)
    ensures
        arrival_route(input, marker) matches Some(NexusAction::CommandSemaRead(_)) ==> !advances_head(input)
            && (CriomeAuthorization::Enabled == CriomeAuthorization::Disabled || !advances_head(input)),
        arrival_route(input, marker) matches Some(NexusAction::CommandSemaWrite(_)) ==> advances_head(input),
{
}

/// A count request is answered with the number of records the query
/// observes, after putting its referents in canonical form, or with an
/// error when a referent it names is not registered; the store is untouched.
pub proof fn law_count_reply_counts_the_observation(before: Nexus, after: Nexus, query: Query, r: Output)
    requires
        cycle_reply(before, after, NexusWork::SignalArrived(Input::Count(query)), r),
    ensures
        after.spec_store() == before.spec_store(),
        match canonical_query(before.spec_store()@.referents, query@) {
            Some(q) => r == Output::RecordsCounted(observation(before.spec_store()@.records, q).len() as u64),
            None => r is Error,
        },
{
    let work = NexusWork::SignalArrived(Input::Count(query));
    let (states, works) = choose|states: Seq<Nexus>, works: Seq<NexusWork>|
        #[trigger] cycle_run(states, works, r) && states[0] == before && states.last() == after && works[0] == work;
    let n = works.len() as int;
    assert(CONTINUATION_LIMIT == 64);
    if n == 1 {
        assert(cycle_step(states[0], states[1], works[0], Turn::Reply(r)));
        assert(false);
    }
    let first = 0int;
    assert(cycle_step(states[first], states[first + 1], works[first], Turn::Next(works[first + 1])));
    if n > 2 {
        let second = 1int;
        assert(cycle_step(states[second], states[second + 1], works[second], Turn::Next(works[second + 1])));
        assert(false);
    }
    assert(n == 2);
    assert(cycle_step(states[1], states[2], works[1], Turn::Reply(r)));
}

} // verus!
