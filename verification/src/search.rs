//! Public text search: the publicly active records whose description or
//! referents mention a search text, best match first.
//!
//! A search text is trimmed and lowercased; its whitespace-separated pieces
//! are its tokens. A description scores 100 when it holds the whole text and
//! 10 per token it holds. A referent scores 120 when it is the whole text
//! (60 when it only holds it) and, per token, 30 when it is the token (15
//! when it only holds it). Records scoring nothing are left out; the rest
//! come highest score first, then most certain, then most important, ties in
//! store order, at most `PUBLIC_TEXT_SEARCH_LIMIT` of them.

use vstd::prelude::*;

use crate::magnitude::magnitude_rank;
use crate::query::{publicly_active, Entry, EntryView};
use crate::record::{texts_view, Description, Referents, SearchText};
use crate::store::{observed_view, records_view, ObservedRecord, RecordView, Store, StoredRecord};
use crate::text::{contains_text, lowercase, lowercase_text, seq_contains, trimmed, trimmed_text};

verus! {

broadcast use vstd::string::group_string_axioms;

/// The most records a public text search returns.
pub const PUBLIC_TEXT_SEARCH_LIMIT: usize = 25;

/// How many characters a text starts with before its first whitespace.
pub open spec fn leading_run(s: Seq<char>) -> nat
    decreases s.len(),
{
    if s.len() == 0 || crate::text::unicode_whitespace(s[0]) {
        0
    } else {
        1 + leading_run(s.drop_first())
    }
}

/// A text's leading run is no longer than the text, and not empty when
/// the text starts with a non-whitespace character.
pub proof fn lemma_leading_run_bound(s: Seq<char>)
    ensures
        leading_run(s) <= s.len(),
        s.len() > 0 && !crate::text::unicode_whitespace(s[0]) ==> leading_run(s) >= 1,
    decreases s.len(),
{
    if s.len() > 0 && !crate::text::unicode_whitespace(s[0]) {
        lemma_leading_run_bound(s.drop_first());
    }
}

/// Trimming the start shortens a text and leaves it starting with a
/// non-whitespace character.
pub proof fn lemma_trimmed_start_shorter(s: Seq<char>)
    ensures
        crate::text::trimmed_start(s).len() <= s.len(),
        crate::text::trimmed_start(s).len() > 0 ==> !crate::text::unicode_whitespace(
            crate::text::trimmed_start(s)[0],
        ),
    decreases s.len(),
{
    if s.len() > 0 && crate::text::unicode_whitespace(s[0]) {
        lemma_trimmed_start_shorter(s.drop_first());
    }
}

/// What `str::split_whitespace` returns for a text: its maximal runs of
/// non-whitespace characters, in order.
pub open spec fn whitespace_tokens_text(s: Seq<char>) -> Seq<Seq<char>>
    decreases s.len(),
{
    let t = crate::text::trimmed_start(s);
    if t.len() == 0 {
        Seq::empty()
    } else {
        proof {
            lemma_trimmed_start_shorter(s);
            lemma_leading_run_bound(t);
        }
        let k = leading_run(t) as int;
        seq![t.take(k)] + whitespace_tokens_text(t.skip(k))
    }
}

/// The whitespace-separated pieces of a text, as `str::split_whitespace`
/// yields them (its documentation: the maximal runs of characters without
/// the Unicode `White_Space` property, in order).
#[verifier::external_body]
fn whitespace_tokens(s: &str) -> (r: Vec<String>)
    ensures
        texts_view(r@) == whitespace_tokens_text(s@),
{
    s.split_whitespace().map(String::from).collect()
}

/// The comparison form of a search text: trimmed, then lowercased.
pub open spec fn needle_text(search: Seq<char>) -> Seq<char> {
    lowercase_text(trimmed_text(search))
}

/// The pieces that stay non-empty once trimmed, trimmed, in order.
pub open spec fn kept_tokens(pieces: Seq<Seq<char>>) -> Seq<Seq<char>>
    decreases pieces.len(),
{
    if pieces.len() == 0 {
        Seq::empty()
    } else {
        let rest = kept_tokens(pieces.drop_last());
        let piece = trimmed_text(pieces.last());
        if piece.len() > 0 {
            rest.push(piece)
        } else {
            rest
        }
    }
}

/// The tokens of a search text.
pub open spec fn needle_tokens(search: Seq<char>) -> Seq<Seq<char>> {
    kept_tokens(whitespace_tokens_text(needle_text(search)))
}

/// Ten points for each token the text holds.
pub open spec fn token_hits_score(haystack: Seq<char>, tokens: Seq<Seq<char>>) -> nat
    decreases tokens.len(),
{
    if tokens.len() == 0 {
        0
    } else {
        token_hits_score(haystack, tokens.drop_last()) + if seq_contains(
            haystack,
            tokens.last(),
        ) {
            10nat
        } else {
            0nat
        }
    }
}

/// How well a description matches: 100 when its lowercase form holds the
/// whole search text, plus ten per token it holds.
pub open spec fn description_score(full: Seq<char>, tokens: Seq<Seq<char>>, description: Seq<
    char,
>) -> nat {
    let haystack = lowercase_text(description);
    (if seq_contains(haystack, full) {
        100nat
    } else {
        0nat
    }) + token_hits_score(haystack, tokens)
}

/// Per token: 30 when the referent is the token, 15 when it holds it.
pub open spec fn referent_token_score(candidate: Seq<char>, tokens: Seq<Seq<char>>) -> nat
    decreases tokens.len(),
{
    if tokens.len() == 0 {
        0
    } else {
        referent_token_score(candidate, tokens.drop_last()) + if candidate == tokens.last() {
            30nat
        } else if seq_contains(candidate, tokens.last()) {
            15nat
        } else {
            0nat
        }
    }
}

/// How well one referent matches, by its lowercase form.
pub open spec fn referent_score(full: Seq<char>, tokens: Seq<Seq<char>>, referent: Seq<char>) -> nat {
    let candidate = lowercase_text(referent);
    (if candidate == full {
        120nat
    } else if seq_contains(candidate, full) {
        60nat
    } else {
        0nat
    }) + referent_token_score(candidate, tokens)
}

/// The scores of all referents, summed.
pub open spec fn referents_score(full: Seq<char>, tokens: Seq<Seq<char>>, referents: Seq<
    Seq<char>,
>) -> nat
    decreases referents.len(),
{
    if referents.len() == 0 {
        0
    } else {
        referents_score(full, tokens, referents.drop_last()) + referent_score(
            full,
            tokens,
            referents.last(),
        )
    }
}

/// How well an entry matches a search.
pub open spec fn entry_score(full: Seq<char>, tokens: Seq<Seq<char>>, e: EntryView) -> nat {
    description_score(full, tokens, e.description) + referents_score(full, tokens, e.referents)
}

/// A score as a `u64` holds it: sums stop at `u64::MAX`.
pub open spec fn capped(n: nat) -> nat {
    if n > u64::MAX {
        u64::MAX as nat
    } else {
        n
    }
}

/// `a` (scoring `sa`) ranks at least as high as `b` (scoring `sb`): by
/// score, then certainty rank, then importance rank.
pub open spec fn outranks_or_ties(sa: nat, a: EntryView, sb: nat, b: EntryView) -> bool {
    ||| sa > sb
    ||| sa == sb && magnitude_rank(a.certainty.0) > magnitude_rank(b.certainty.0)
    ||| sa == sb && magnitude_rank(a.certainty.0) == magnitude_rank(b.certainty.0)
        && magnitude_rank(a.importance.0) >= magnitude_rank(b.importance.0)
}

/// `a` ranks at least as high as `b` in a search.
pub open spec fn ranks_at_least(full: Seq<char>, tokens: Seq<Seq<char>>, a: EntryView, b: EntryView) -> bool {
    outranks_or_ties(capped(entry_score(full, tokens, a)), a, capped(entry_score(full, tokens, b)), b)
}

/// A ranked sequence with one more record, placed after every record that
/// ranks at least as high as it.
pub open spec fn insert_ranked(
    full: Seq<char>,
    tokens: Seq<Seq<char>>,
    ranked: Seq<RecordView>,
    row: RecordView,
) -> Seq<RecordView>
    decreases ranked.len(),
{
    if ranked.len() == 0 {
        seq![row]
    } else if ranks_at_least(full, tokens, ranked.last().entry, row.entry) {
        ranked.push(row)
    } else {
        insert_ranked(full, tokens, ranked.drop_last(), row).push(ranked.last())
    }
}

/// Records sorted best match first, ties in their given order.
pub open spec fn ranked_by_score(full: Seq<char>, tokens: Seq<Seq<char>>, records: Seq<RecordView>) -> Seq<
    RecordView,
>
    decreases records.len(),
{
    if records.len() == 0 {
        Seq::empty()
    } else {
        insert_ranked(full, tokens, ranked_by_score(full, tokens, records.drop_last()), records.last())
    }
}

/// A record a search can return: publicly active, with a positive score.
pub open spec fn search_candidate(full: Seq<char>, tokens: Seq<Seq<char>>, e: EntryView) -> bool {
    publicly_active(e) && entry_score(full, tokens, e) > 0
}

/// The candidates among the records, in store order.
pub open spec fn search_candidates(full: Seq<char>, tokens: Seq<Seq<char>>, records: Seq<RecordView>) -> Seq<
    RecordView,
>
    decreases records.len(),
{
    if records.len() == 0 {
        Seq::empty()
    } else {
        let rest = search_candidates(full, tokens, records.drop_last());
        if search_candidate(full, tokens, records.last().entry) {
            rest.push(records.last())
        } else {
            rest
        }
    }
}

/// What a public text search returns over the given records: nothing for a
/// blank search; else the candidates best match first, at most
/// `PUBLIC_TEXT_SEARCH_LIMIT` of them.
pub open spec fn search_results(records: Seq<RecordView>, search: Seq<char>) -> Seq<RecordView> {
    let full = needle_text(search);
    let tokens = needle_tokens(search);
    if full.len() == 0 {
        Seq::empty()
    } else {
        let ranked = ranked_by_score(full, tokens, search_candidates(full, tokens, records));
        if ranked.len() <= PUBLIC_TEXT_SEARCH_LIMIT {
            ranked
        } else {
            ranked.take(PUBLIC_TEXT_SEARCH_LIMIT as int)
        }
    }
}

/// Inserting at the first position after every row that ranks at least as
/// high is what `insert_ranked` does.
proof fn lemma_insert_ranked(
    full: Seq<char>,
    tokens: Seq<Seq<char>>,
    ranked: Seq<RecordView>,
    row: RecordView,
    p: int,
)
    requires
        0 <= p <= ranked.len(),
        p == 0 || ranks_at_least(full, tokens, ranked[p - 1].entry, row.entry),
        forall|j: int|
            p <= j < ranked.len() ==> !ranks_at_least(full, tokens, #[trigger] ranked[j].entry, row.entry),
    ensures
        insert_ranked(full, tokens, ranked, row) == ranked.insert(p, row),
    decreases ranked.len(),
{
    if ranked.len() == 0 {
        assert(ranked.insert(p, row) =~= seq![row]);
    } else if p == ranked.len() {
        assert(ranked.insert(p, row) =~= ranked.push(row));
    } else {
        let last = ranked.len() - 1;
        assert(!ranks_at_least(full, tokens, ranked[last].entry, row.entry));
        let shorter = ranked.drop_last();
        assert forall|j: int| p <= j < shorter.len() implies !ranks_at_least(
            full,
            tokens,
            #[trigger] shorter[j].entry,
            row.entry,
        ) by {
            assert(shorter[j] == ranked[j]);
        }
        if p > 0 {
            assert(shorter[p - 1] == ranked[p - 1]);
        }
        lemma_insert_ranked(full, tokens, shorter, row, p);
        assert(ranked.insert(p, row) =~= shorter.insert(p, row).push(ranked.last()));
    }
}

/// Inserting a row adds exactly that row.
pub proof fn lemma_insert_ranked_members(
    full: Seq<char>,
    tokens: Seq<Seq<char>>,
    ranked: Seq<RecordView>,
    row: RecordView,
)
    ensures
        insert_ranked(full, tokens, ranked, row).len() == ranked.len() + 1,
        forall|x: RecordView|
            #[trigger] insert_ranked(full, tokens, ranked, row).contains(x) <==> (ranked.contains(x)
                || x == row),
    decreases ranked.len(),
{
    let out = insert_ranked(full, tokens, ranked, row);
    if ranked.len() == 0 {
        assert forall|x: RecordView| #[trigger] out.contains(x) <==> (ranked.contains(x) || x == row) by {
            if out.contains(x) {
                let k = choose|k: int| 0 <= k < out.len() && out[k] == x;
                assert(k == 0);
            }
            if x == row {
                assert(out[0] == row);
            }
        }
    } else if ranks_at_least(full, tokens, ranked.last().entry, row.entry) {
        assert forall|x: RecordView| #[trigger] out.contains(x) <==> (ranked.contains(x) || x == row) by {
            if out.contains(x) {
                let k = choose|k: int| 0 <= k < out.len() && out[k] == x;
                if k < ranked.len() {
                    assert(ranked[k] == x);
                }
            }
            if ranked.contains(x) {
                let k = choose|k: int| 0 <= k < ranked.len() && ranked[k] == x;
                assert(out[k] == x);
            }
            if x == row {
                assert(out[ranked.len() as int] == row);
            }
        }
    } else {
        let shorter = ranked.drop_last();
        let inner = insert_ranked(full, tokens, shorter, row);
        lemma_insert_ranked_members(full, tokens, shorter, row);
        assert forall|x: RecordView| #[trigger] out.contains(x) <==> (ranked.contains(x) || x == row) by {
            if out.contains(x) {
                let k = choose|k: int| 0 <= k < out.len() && out[k] == x;
                if k < inner.len() {
                    assert(inner[k] == x);
                    assert(inner.contains(x));
                    if shorter.contains(x) {
                        let m = choose|m: int| 0 <= m < shorter.len() && shorter[m] == x;
                        assert(ranked[m] == x);
                    }
                } else {
                    assert(x == ranked.last());
                    assert(ranked[ranked.len() - 1] == x);
                }
            }
            if ranked.contains(x) {
                let k = choose|k: int| 0 <= k < ranked.len() && ranked[k] == x;
                if k < ranked.len() - 1 {
                    assert(shorter[k] == x);
                    assert(shorter.contains(x));
                    assert(inner.contains(x));
                    let m = choose|m: int| 0 <= m < inner.len() && inner[m] == x;
                    assert(out[m] == x);
                } else {
                    assert(out[inner.len() as int] == x);
                }
            }
            if x == row {
                assert(inner.contains(row));
                let m = choose|m: int| 0 <= m < inner.len() && inner[m] == row;
                assert(out[m] == row);
            }
        }
    }
}

/// Ranking keeps exactly the rows it is given.
pub proof fn lemma_ranked_members(full: Seq<char>, tokens: Seq<Seq<char>>, records: Seq<RecordView>)
    ensures
        ranked_by_score(full, tokens, records).len() == records.len(),
        forall|x: RecordView|
            #[trigger] ranked_by_score(full, tokens, records).contains(x) <==> records.contains(x),
    decreases records.len(),
{
    if records.len() > 0 {
        let shorter = records.drop_last();
        lemma_ranked_members(full, tokens, shorter);
        let prior = ranked_by_score(full, tokens, shorter);
        lemma_insert_ranked_members(full, tokens, prior, records.last());
        assert forall|x: RecordView|
            #[trigger] ranked_by_score(full, tokens, records).contains(x) <==> records.contains(x) by {
            if records.contains(x) {
                let k = choose|k: int| 0 <= k < records.len() && records[k] == x;
                if k < records.len() - 1 {
                    assert(shorter[k] == x);
                    assert(shorter.contains(x));
                }
            }
            if shorter.contains(x) {
                let k = choose|k: int| 0 <= k < shorter.len() && shorter[k] == x;
                assert(records[k] == x);
            }
        }
    }
}

/// Every candidate is publicly active, scores above nothing, and is one of
/// the records.
pub proof fn lemma_candidates(full: Seq<char>, tokens: Seq<Seq<char>>, records: Seq<RecordView>)
    ensures
        forall|x: RecordView|
            #[trigger] search_candidates(full, tokens, records).contains(x) ==> search_candidate(
                full,
                tokens,
                x.entry,
            ) && records.contains(x),
    decreases records.len(),
{
    if records.len() > 0 {
        let shorter = records.drop_last();
        lemma_candidates(full, tokens, shorter);
        let rest = search_candidates(full, tokens, shorter);
        assert forall|x: RecordView| #[trigger] search_candidates(full, tokens, records).contains(x)
            implies search_candidate(full, tokens, x.entry) && records.contains(x) by {
            let out = search_candidates(full, tokens, records);
            let k = choose|k: int| 0 <= k < out.len() && out[k] == x;
            if k < rest.len() {
                assert(rest[k] == x);
                assert(rest.contains(x));
                let m = choose|m: int| 0 <= m < shorter.len() && shorter[m] == x;
                assert(records[m] == x);
            } else {
                assert(x == records.last());
                assert(records[records.len() - 1] == x);
            }
        }
    }
}

/// Rows are in search order: each ranks at least as high as every later one.
pub open spec fn in_search_order(full: Seq<char>, tokens: Seq<Seq<char>>, rows: Seq<RecordView>) -> bool {
    forall|i: int, j: int|
        0 <= i < j < rows.len() ==> ranks_at_least(full, tokens, #[trigger] rows[i].entry, #[trigger] rows[j].entry)
}

/// Inserting a row keeps a ranked sequence in search order.
pub proof fn lemma_insert_keeps_order(
    full: Seq<char>,
    tokens: Seq<Seq<char>>,
    ranked: Seq<RecordView>,
    row: RecordView,
)
    requires
        in_search_order(full, tokens, ranked),
    ensures
        in_search_order(full, tokens, insert_ranked(full, tokens, ranked, row)),
    decreases ranked.len(),
{
    let out = insert_ranked(full, tokens, ranked, row);
    if ranked.len() == 0 {
    } else if ranks_at_least(full, tokens, ranked.last().entry, row.entry) {
        assert forall|i: int, j: int| 0 <= i < j < out.len() implies ranks_at_least(
            full,
            tokens,
            #[trigger] out[i].entry,
            #[trigger] out[j].entry,
        ) by {
            if j == ranked.len() {
                if i < ranked.len() - 1 {
                    assert(ranks_at_least(full, tokens, ranked[i].entry, ranked[ranked.len() - 1].entry));
                }
            } else {
                assert(out[i] == ranked[i] && out[j] == ranked[j]);
            }
        }
    } else {
        let shorter = ranked.drop_last();
        let inner = insert_ranked(full, tokens, shorter, row);
        let last = ranked.last();
        assert(in_search_order(full, tokens, shorter)) by {
            assert forall|i: int, j: int| 0 <= i < j < shorter.len() implies ranks_at_least(
                full,
                tokens,
                #[trigger] shorter[i].entry,
                #[trigger] shorter[j].entry,
            ) by {
                assert(shorter[i] == ranked[i] && shorter[j] == ranked[j]);
            }
        }
        lemma_insert_keeps_order(full, tokens, shorter, row);
        lemma_insert_ranked_members(full, tokens, shorter, row);
        assert forall|i: int, j: int| 0 <= i < j < out.len() implies ranks_at_least(
            full,
            tokens,
            #[trigger] out[i].entry,
            #[trigger] out[j].entry,
        ) by {
            if j == inner.len() {
                let x = inner[i];
                assert(inner.contains(x));
                if x == row {
                } else {
                    assert(shorter.contains(x));
                    let m = choose|m: int| 0 <= m < shorter.len() && shorter[m] == x;
                    assert(ranked[m] == x);
                    assert(ranks_at_least(full, tokens, ranked[m].entry, ranked[ranked.len() - 1].entry));
                }
            } else {
                assert(out[i] == inner[i] && out[j] == inner[j]);
            }
        }
    }
}

/// Ranking puts rows in search order.
pub proof fn lemma_ranked_in_order(full: Seq<char>, tokens: Seq<Seq<char>>, records: Seq<RecordView>)
    ensures
        in_search_order(full, tokens, ranked_by_score(full, tokens, records)),
    decreases records.len(),
{
    if records.len() > 0 {
        lemma_ranked_in_order(full, tokens, records.drop_last());
        lemma_insert_keeps_order(
            full,
            tokens,
            ranked_by_score(full, tokens, records.drop_last()),
            records.last(),
        );
    }
}

/// A search text prepared for scoring: its comparison form and its tokens.
pub struct SearchNeedle {
    pub full_text: String,
    pub tokens: Vec<String>,
}

impl SearchNeedle {
    /// Trim and lowercase the search text and split it into tokens.
    pub fn new(search_text: &SearchText) -> (r: Self)
        ensures
            r.full_text@ == needle_text(search_text@),
            texts_view(r.tokens@) == needle_tokens(search_text@),
    {
        let full_text = lowercase(trimmed(search_text.0.as_str()));
        let pieces = whitespace_tokens(full_text.as_str());
        let ghost pv = texts_view(pieces@);
        let mut tokens: Vec<String> = Vec::new();
        let mut i: usize = 0;
        assert(pv.subrange(0, 0) =~= Seq::<Seq<char>>::empty());
        assert(texts_view(tokens@) =~= Seq::<Seq<char>>::empty());
        while i < pieces.len()
            invariant
                i <= pieces.len(),
                pv == texts_view(pieces@),
                texts_view(tokens@) == kept_tokens(pv.subrange(0, i as int)),
            decreases pieces.len() - i,
        {
            assert(pv.subrange(0, i + 1).drop_last() =~= pv.subrange(0, i as int));
            assert(pv.subrange(0, i + 1).last() == pieces@[i as int]@);
            let piece = trimmed(pieces[i].as_str());
            if !piece.is_empty() {
                let ghost before = texts_view(tokens@);
                tokens.push(piece.to_owned());
                assert(texts_view(tokens@) =~= before.push(piece@));
            }
            i = i + 1;
        }
        assert(pv.subrange(0, pieces.len() as int) =~= pv);
        SearchNeedle { full_text, tokens }
    }

    /// A blank search text matches nothing.
    pub fn is_empty(&self) -> (r: bool)
        ensures
            r == (self.full_text@.len() == 0),
    {
        self.full_text.as_str().is_empty()
    }

    /// The description's score.
    pub fn score_description(&self, description: &Description) -> (r: u64)
        ensures
            r == capped(description_score(self.full_text@, texts_view(self.tokens@), description@)),
    {
        let ghost tv = texts_view(self.tokens@);
        let haystack = lowercase(description.0.as_str());
        let mut score: u64 = 0;
        if contains_text(haystack.as_str(), self.full_text.as_str()) {
            score = 100;
        }
        let ghost base: nat = score as nat;
        let mut k: usize = 0;
        assert(tv.subrange(0, 0) =~= Seq::<Seq<char>>::empty());
        while k < self.tokens.len()
            invariant
                k <= self.tokens.len(),
                tv == texts_view(self.tokens@),
                haystack@ == lowercase_text(description@),
                base == (if seq_contains(haystack@, self.full_text@) {
                    100nat
                } else {
                    0nat
                }),
                score == capped(base + token_hits_score(haystack@, tv.subrange(0, k as int))),
            decreases self.tokens.len() - k,
        {
            assert(tv.subrange(0, k + 1).drop_last() =~= tv.subrange(0, k as int));
            assert(tv.subrange(0, k + 1).last() == self.tokens@[k as int]@);
            if contains_text(haystack.as_str(), self.tokens[k].as_str()) {
                score = score.saturating_add(10);
            }
            k = k + 1;
        }
        assert(tv.subrange(0, self.tokens.len() as int) =~= tv);
        score
    }

    /// One referent's score, by its lowercase form.
    fn score_referent(&self, referent: &String) -> (r: u64)
        ensures
            r == capped(referent_score(self.full_text@, texts_view(self.tokens@), referent@)),
    {
        let ghost tv = texts_view(self.tokens@);
        let candidate = lowercase(referent.as_str());
        let mut score: u64 = 0;
        if candidate == self.full_text {
            score = 120;
        } else if contains_text(candidate.as_str(), self.full_text.as_str()) {
            score = 60;
        }
        let ghost base: nat = score as nat;
        let mut k: usize = 0;
        assert(tv.subrange(0, 0) =~= Seq::<Seq<char>>::empty());
        while k < self.tokens.len()
            invariant
                k <= self.tokens.len(),
                tv == texts_view(self.tokens@),
                candidate@ == lowercase_text(referent@),
                base == (if candidate@ == self.full_text@ {
                    120nat
                } else if seq_contains(candidate@, self.full_text@) {
                    60nat
                } else {
                    0nat
                }),
                score == capped(base + referent_token_score(candidate@, tv.subrange(0, k as int))),
            decreases self.tokens.len() - k,
        {
            assert(tv.subrange(0, k + 1).drop_last() =~= tv.subrange(0, k as int));
            assert(tv.subrange(0, k + 1).last() == self.tokens@[k as int]@);
            if candidate == self.tokens[k] {
                score = score.saturating_add(30);
            } else if contains_text(candidate.as_str(), self.tokens[k].as_str()) {
                score = score.saturating_add(15);
            }
            k = k + 1;
        }
        assert(tv.subrange(0, self.tokens.len() as int) =~= tv);
        score
    }

    /// The referents' score, summed over all of them.
    pub fn score_referents(&self, referents: &Referents) -> (r: u64)
        ensures
            r == capped(referents_score(self.full_text@, texts_view(self.tokens@), referents@)),
    {
        let ghost rv = referents@;
        let mut score: u64 = 0;
        let mut i: usize = 0;
        assert(rv.subrange(0, 0) =~= Seq::<Seq<char>>::empty());
        while i < referents.0.len()
            invariant
                i <= referents.0.len(),
                rv == referents@,
                rv.len() == referents.0.len(),
                score == capped(
                    referents_score(self.full_text@, texts_view(self.tokens@), rv.subrange(0, i as int)),
                ),
            decreases referents.0.len() - i,
        {
            assert(rv.subrange(0, i + 1).drop_last() =~= rv.subrange(0, i as int));
            assert(rv.subrange(0, i + 1).last() == referents.0@[i as int]@);
            let one = self.score_referent(&referents.0[i].0);
            score = score.saturating_add(one);
            i = i + 1;
        }
        assert(rv.subrange(0, referents.0.len() as int) =~= rv);
        score
    }

    /// An entry's score, or `None` when it scores nothing.
    pub fn score_entry(&self, entry: &Entry) -> (r: Option<u64>)
        ensures
            match r {
                Some(s) => s == capped(entry_score(self.full_text@, texts_view(self.tokens@), entry@))
                    && s > 0,
                None => entry_score(self.full_text@, texts_view(self.tokens@), entry@) == 0,
            },
    {
        let score = self.score_description(&entry.description).saturating_add(
            self.score_referents(&entry.referents),
        );
        if score > 0 {
            Some(score)
        } else {
            None
        }
    }
}

/// `a` (scoring `sa`) ranks at least as high as `b` (scoring `sb`).
fn ranks_at_least_exec(sa: u64, a: &Entry, sb: u64, b: &Entry) -> (r: bool)
    ensures
        r == outranks_or_ties(sa as nat, a@, sb as nat, b@),
{
    if sa != sb {
        return sa > sb;
    }
    let ca = a.certainty_rank();
    let cb = b.certainty_rank();
    if ca != cb {
        return ca > cb;
    }
    a.importance_rank() >= b.importance_rank()
}

impl Store {
    /// The publicly active records that match a search text, best match
    /// first, then most certain, then most important, ties in store order;
    /// at most `PUBLIC_TEXT_SEARCH_LIMIT` of them. A blank search finds
    /// nothing.
    pub fn public_text_search(&self, search_text: &SearchText) -> (r: Vec<ObservedRecord>)
        ensures
            observed_view(r@) == search_results(self@.records, search_text@),
    {
        let needle = SearchNeedle::new(search_text);
        if needle.is_empty() {
            return Vec::new();
        }
        let ghost full = needle.full_text@;
        let ghost tokens = texts_view(needle.tokens@);
        let records = self.records();
        let ghost rv = records_view(records@);
        let mut ranked: Vec<StoredRecord> = Vec::new();
        let mut scores: Vec<u64> = Vec::new();
        let mut i: usize = 0;
        assert(rv.subrange(0, 0) =~= Seq::<RecordView>::empty());
        assert(records_view(ranked@) =~= Seq::<RecordView>::empty());
        while i < records.len()
            invariant
                i <= records.len(),
                rv == records_view(records@),
                full == needle.full_text@,
                tokens == texts_view(needle.tokens@),
                scores.len() == ranked.len(),
                forall|j: int|
                    0 <= j < scores.len() ==> #[trigger] scores@[j] == capped(
                        entry_score(full, tokens, ranked@[j]@.entry),
                    ),
                records_view(ranked@) == ranked_by_score(
                    full,
                    tokens,
                    search_candidates(full, tokens, rv.subrange(0, i as int)),
                ),
            decreases records.len() - i,
        {
            assert(rv.subrange(0, i + 1).drop_last() =~= rv.subrange(0, i as int));
            assert(rv.subrange(0, i + 1).last() == records@[i as int]@);
            let record = &records[i];
            if record.entry.is_public_active() {
                if let Some(score) = needle.score_entry(&record.entry) {
                    let ghost before = records_view(ranked@);
                    let ghost prior = search_candidates(full, tokens, rv.subrange(0, i as int));
                    let mut p: usize = ranked.len();
                    loop
                        invariant
                            p <= ranked.len(),
                            scores.len() == ranked.len(),
                            before == records_view(ranked@),
                            forall|j: int|
                                0 <= j < scores.len() ==> #[trigger] scores@[j] == capped(
                                    entry_score(full, tokens, ranked@[j]@.entry),
                                ),
                            score == capped(entry_score(full, tokens, record@.entry)),
                            forall|j: int|
                                p <= j < before.len() ==> !ranks_at_least(
                                    full,
                                    tokens,
                                    #[trigger] before[j].entry,
                                    record@.entry,
                                ),
                        ensures
                            p <= ranked.len(),
                            p == 0 || ranks_at_least(full, tokens, before[p - 1].entry, record@.entry),
                            forall|j: int|
                                p <= j < before.len() ==> !ranks_at_least(
                                    full,
                                    tokens,
                                    #[trigger] before[j].entry,
                                    record@.entry,
                                ),
                        decreases p,
                    {
                        if p == 0 {
                            break;
                        }
                        assert(scores@[p - 1] == capped(entry_score(full, tokens, ranked@[p - 1]@.entry)));
                        assert(before[p - 1] == ranked@[p - 1]@);
                        if ranks_at_least_exec(scores[p - 1], &ranked[p - 1].entry, score, &record.entry) {
                            break;
                        }
                        p = p - 1;
                    }
                    proof {
                        lemma_insert_ranked(full, tokens, before, record@, p as int);
                        assert(search_candidates(full, tokens, rv.subrange(0, i + 1)) =~= prior.push(record@));
                        assert(prior.push(record@).drop_last() =~= prior);
                    }
                    let ghost old_scores = scores@;
                    let ghost old_ranked = ranked@;
                    let copy = record.clone();
                    ranked.insert(p, copy);
                    scores.insert(p, score);
                    proof {
                        old_scores.insert_ensures(p as int, score);
                        old_ranked.insert_ensures(p as int, copy);
                        assert(records_view(ranked@) =~= before.insert(p as int, record@));
                        assert forall|j: int| 0 <= j < scores.len() implies #[trigger] scores@[j]
                            == capped(entry_score(full, tokens, ranked@[j]@.entry)) by {
                            if j < p {
                                assert(scores@[j] == old_scores[j]);
                                assert(ranked@[j] == old_ranked[j]);
                            } else if j > p {
                                assert(scores@[j] == old_scores[j - 1]);
                                assert(ranked@[j] == old_ranked[j - 1]);
                            }
                        }
                    }
                }
            }
            i = i + 1;
        }
        assert(rv.subrange(0, records.len() as int) =~= rv);
        let mut out: Vec<ObservedRecord> = Vec::new();
        let mut k: usize = 0;
        let ghost all = records_view(ranked@);
        while k < ranked.len() && k < PUBLIC_TEXT_SEARCH_LIMIT
            invariant
                k <= ranked.len(),
                k <= PUBLIC_TEXT_SEARCH_LIMIT,
                all == records_view(ranked@),
                observed_view(out@) == all.take(k as int),
            decreases ranked.len() - k,
        {
            let ghost before = observed_view(out@);
            out.push(ranked[k].clone().into_observed_record());
            assert(observed_view(out@) =~= before.push(all[k as int]));
            assert(all.take(k + 1) =~= all.take(k as int).push(all[k as int]));
            k = k + 1;
        }
        assert(all.take(all.len() as int) =~= all);
        out
    }
}

} // verus!
