//! The textual parts of an intent record: domains, kind, description,
//! referents, and the keywords a description marks.

use vstd::prelude::*;

use crate::magnitude::{
    magnitude_rank, Certainty, CertaintySelection, Importance, ImportanceSelection, Magnitude,
    Privacy, PrivacySelection, certainty_admitted, importance_admitted, privacy_admitted,
};
use crate::text::{
    chars_of, lowercase, lowercase_text, trimmed, trimmed_text, contains_text, seq_contains,
};

verus! {

broadcast use vstd::string::group_string_axioms;

/// The characters of each text, in order.
pub open spec fn texts_view(v: Seq<String>) -> Seq<Seq<char>> {
    v.map_values(|s: String| s@)
}

/// Equality of two lists of texts, by content.
pub fn texts_equal(a: &Vec<String>, b: &Vec<String>) -> (r: bool)
    ensures
        r == (texts_view(a@) == texts_view(b@)),
{
    if a.len() != b.len() {
        assert(texts_view(a@).len() != texts_view(b@).len());
        return false;
    }
    let mut i: usize = 0;
    while i < a.len()
        invariant
            a.len() == b.len(),
            i <= a.len(),
            forall|k: int| 0 <= k < i ==> (#[trigger] a@[k])@ == b@[k]@,
        decreases a.len() - i,
    {
        if a[i] != b[i] {
            assert(texts_view(a@)[i as int] != texts_view(b@)[i as int]);
            return false;
        }
        i = i + 1;
    }
    assert(texts_view(a@) =~= texts_view(b@));
    true
}

pub fn clone_texts(v: &Vec<String>) -> (r: Vec<String>)
    ensures
        r@ == v@,
{
    let mut out: Vec<String> = Vec::new();
    let mut i: usize = 0;
    while i < v.len()
        invariant
            i <= v.len(),
            out@ == v@.subrange(0, i as int),
        decreases v.len() - i,
    {
        out.push(v[i].clone());
        i = i + 1;
        assert(out@ =~= v@.subrange(0, i as int));
    }
    assert(out@ =~= v@);
    out
}

/// A named particular a record is about (a project, a tool, a person).
#[derive(Debug)]
pub struct Referent(pub String);

/// The referents of a record, in order.
#[derive(Debug)]
pub struct Referents(pub Vec<Referent>);

/// What kind of intent a record carries.
#[derive(Debug)]
pub struct Kind(pub String);

/// The prose of a record; `*stars*` mark its keywords.
#[derive(Debug)]
pub struct Description(pub String);

/// One keyword.
#[derive(Debug)]
pub struct Keyword(pub String);

/// A list of keywords.
#[derive(Debug)]
pub struct Keywords(pub Vec<Keyword>);

/// Text searched for inside descriptions.
#[derive(Debug)]
pub struct SearchText(pub String);

/// A subject, written as its path from the broadest scope down, such as
/// `Technology`, `Software`, `Data`.
#[derive(Debug)]
pub struct Domain(pub Vec<String>);

/// The domains of a record, in order.
#[derive(Debug)]
pub struct Domains(pub Vec<Domain>);

impl View for Referent {
    type V = Seq<char>;

    open spec fn view(&self) -> Seq<char> {
        self.0@
    }
}

impl View for Kind {
    type V = Seq<char>;

    open spec fn view(&self) -> Seq<char> {
        self.0@
    }
}

impl View for Description {
    type V = Seq<char>;

    open spec fn view(&self) -> Seq<char> {
        self.0@
    }
}

impl View for Keyword {
    type V = Seq<char>;

    open spec fn view(&self) -> Seq<char> {
        self.0@
    }
}

impl View for SearchText {
    type V = Seq<char>;

    open spec fn view(&self) -> Seq<char> {
        self.0@
    }
}

impl View for Domain {
    type V = Seq<Seq<char>>;

    open spec fn view(&self) -> Seq<Seq<char>> {
        texts_view(self.0@)
    }
}

impl View for Referents {
    type V = Seq<Seq<char>>;

    open spec fn view(&self) -> Seq<Seq<char>> {
        self.0@.map_values(|r: Referent| r@)
    }
}

impl View for Keywords {
    type V = Seq<Seq<char>>;

    open spec fn view(&self) -> Seq<Seq<char>> {
        self.0@.map_values(|k: Keyword| k@)
    }
}

impl View for Domains {
    type V = Seq<Seq<Seq<char>>>;

    open spec fn view(&self) -> Seq<Seq<Seq<char>>> {
        self.0@.map_values(|d: Domain| d@)
    }
}

impl Clone for Referent {
    fn clone(&self) -> (r: Self)
        ensures
            r == *self,
    {
        Referent(self.0.clone())
    }
}

impl Clone for Kind {
    fn clone(&self) -> (r: Self)
        ensures
            r == *self,
    {
        Kind(self.0.clone())
    }
}

impl Clone for Description {
    fn clone(&self) -> (r: Self)
        ensures
            r == *self,
    {
        Description(self.0.clone())
    }
}

impl Clone for Keyword {
    fn clone(&self) -> (r: Self)
        ensures
            r == *self,
    {
        Keyword(self.0.clone())
    }
}

impl Clone for SearchText {
    fn clone(&self) -> (r: Self)
        ensures
            r == *self,
    {
        SearchText(self.0.clone())
    }
}

impl Clone for Domain {
    fn clone(&self) -> (r: Self)
        ensures
            r.0@ == self.0@,
    {
        Domain(clone_texts(&self.0))
    }
}

impl Clone for Referents {
    fn clone(&self) -> (r: Self)
        ensures
            r.0@ == self.0@,
    {
        let mut out: Vec<Referent> = Vec::new();
        let mut i: usize = 0;
        while i < self.0.len()
            invariant
                i <= self.0.len(),
                out@ == self.0@.subrange(0, i as int),
            decreases self.0.len() - i,
        {
            out.push(self.0[i].clone());
            i = i + 1;
            assert(out@ =~= self.0@.subrange(0, i as int));
        }
        assert(out@ =~= self.0@);
        Referents(out)
    }
}

impl Clone for Keywords {
    fn clone(&self) -> (r: Self)
        ensures
            r.0@ == self.0@,
    {
        let mut out: Vec<Keyword> = Vec::new();
        let mut i: usize = 0;
        while i < self.0.len()
            invariant
                i <= self.0.len(),
                out@ == self.0@.subrange(0, i as int),
            decreases self.0.len() - i,
        {
            out.push(self.0[i].clone());
            i = i + 1;
            assert(out@ =~= self.0@.subrange(0, i as int));
        }
        assert(out@ =~= self.0@);
        Keywords(out)
    }
}

impl Clone for Domains {
    fn clone(&self) -> (r: Self)
        ensures
            r@ == self@,
    {
        let mut out: Vec<Domain> = Vec::new();
        let mut i: usize = 0;
        while i < self.0.len()
            invariant
                i <= self.0.len(),
                out.len() == i,
                forall|k: int| 0 <= k < i ==> (#[trigger] out@[k])@ == self.0@[k]@,
            decreases self.0.len() - i,
        {
            out.push(self.0[i].clone());
            i = i + 1;
        }
        let r = Domains(out);
        assert(r@ =~= self@);
        r
    }
}

impl Referent {
    pub fn new(name: &str) -> (r: Self)
        ensures
            r@ == name@,
    {
        Referent(name.to_string())
    }

    pub fn payload(&self) -> (r: &String)
        ensures
            r@ == self@,
    {
        &self.0
    }

    pub fn same_as(&self, other: &Referent) -> (r: bool)
        ensures
            r == (self@ == other@),
    {
        self.0 == other.0
    }
}

impl Kind {
    pub fn new(name: &str) -> (r: Self)
        ensures
            r@ == name@,
    {
        Kind(name.to_string())
    }

    pub fn same_as(&self, other: &Kind) -> (r: bool)
        ensures
            r == (self@ == other@),
    {
        self.0 == other.0
    }
}

impl SearchText {
    pub fn new(text: &str) -> (r: Self)
        ensures
            r@ == text@,
    {
        SearchText(text.to_string())
    }
}

impl Keyword {
    pub fn new(text: &str) -> (r: Self)
        ensures
            r@ == text@,
    {
        Keyword(text.to_string())
    }
}

impl Domain {
    pub fn new(path: Vec<String>) -> (r: Self)
        ensures
            r.0@ == path@,
    {
        Domain(path)
    }

    pub fn same_as(&self, other: &Domain) -> (r: bool)
        ensures
            r == (self@ == other@),
    {
        texts_equal(&self.0, &other.0)
    }
}

impl Referents {
    pub fn new(referents: Vec<Referent>) -> (r: Self)
        ensures
            r.0@ == referents@,
    {
        Referents(referents)
    }

    pub fn payload(&self) -> (r: &Vec<Referent>)
        ensures
            r@ == self.0@,
    {
        &self.0
    }

    /// Whether a referent with the same name is listed.
    pub fn contains(&self, referent: &Referent) -> (r: bool)
        ensures
            r == self@.contains(referent@),
    {
        let mut i: usize = 0;
        while i < self.0.len()
            invariant
                i <= self.0.len(),
                forall|k: int| 0 <= k < i ==> (#[trigger] self.0@[k])@ != referent@,
            decreases self.0.len() - i,
        {
            if self.0[i].same_as(referent) {
                assert(self@[i as int] == referent@);
                return true;
            }
            i = i + 1;
        }
        assert(!self@.contains(referent@)) by {
            if self@.contains(referent@) {
                let k = choose|k: int| 0 <= k < self@.len() && self@[k] == referent@;
                assert(self.0@[k]@ == referent@);
            }
        }
        false
    }
}

impl Domains {
    pub fn new(domains: Vec<Domain>) -> (r: Self)
        ensures
            r.0@ == domains@,
    {
        Domains(domains)
    }

    pub fn same_as(&self, other: &Domains) -> (r: bool)
        ensures
            r == (self@ == other@),
    {
        if self.0.len() != other.0.len() {
            assert(self@.len() != other@.len());
            return false;
        }
        let mut i: usize = 0;
        while i < self.0.len()
            invariant
                self.0.len() == other.0.len(),
                i <= self.0.len(),
                forall|k: int| 0 <= k < i ==> (#[trigger] self.0@[k])@ == other.0@[k]@,
            decreases self.0.len() - i,
        {
            if !self.0[i].same_as(&other.0[i]) {
                assert(self@[i as int] != other@[i as int]);
                return false;
            }
            i = i + 1;
        }
        assert(self@ =~= other@);
        true
    }
}

// ---------------------------------------------------------------- keywords

/// The positions of the `*` marks in a text, in increasing order.
pub open spec fn star_positions(s: Seq<char>) -> Seq<int>
    decreases s.len(),
{
    if s.len() == 0 {
        Seq::empty()
    } else {
        let rest = star_positions(s.drop_last());
        if s.last() == '*' {
            rest.push(s.len() - 1)
        } else {
            rest
        }
    }
}

/// The texts enclosed by each pair of marks: between the first and second
/// `*`, between the third and fourth, and so on. An unpaired last mark
/// encloses nothing.
pub open spec fn enclosed_texts(s: Seq<char>) -> Seq<Seq<char>> {
    let p = star_positions(s);
    Seq::new(p.len() / 2, |k: int| s.subrange(p[2 * k] + 1, p[2 * k + 1]))
}

/// A keyword's comparison form: trimmed, then lowercased.
pub open spec fn keyword_normalized(k: Seq<char>) -> Seq<char> {
    lowercase_text(trimmed_text(k))
}

/// The non-empty texts of a list, each kept at its first occurrence only.
pub open spec fn distinct_nonempty(s: Seq<Seq<char>>) -> Seq<Seq<char>>
    decreases s.len(),
{
    if s.len() == 0 {
        Seq::empty()
    } else {
        let rest = distinct_nonempty(s.drop_last());
        if s.last().len() > 0 && !rest.contains(s.last()) {
            rest.push(s.last())
        } else {
            rest
        }
    }
}

/// The keywords a description marks: each enclosed text, normalized, with
/// blanks and repeats left out.
pub open spec fn description_keywords(d: Seq<char>) -> Seq<Seq<char>> {
    distinct_nonempty(enclosed_texts(d).map_values(|t: Seq<char>| keyword_normalized(t)))
}

proof fn lemma_star_positions_ordered(s: Seq<char>)
    ensures
        forall|k: int|
            0 <= k < star_positions(s).len() ==> 0 <= #[trigger] star_positions(s)[k] < s.len()
                && s[star_positions(s)[k]] == '*',
        forall|a: int, b: int|
            0 <= a < b < star_positions(s).len() ==> #[trigger] star_positions(s)[a]
                < #[trigger] star_positions(s)[b],
    decreases s.len(),
{
    if s.len() > 0 {
        let t = s.drop_last();
        lemma_star_positions_ordered(t);
        assert forall|k: int| 0 <= k < star_positions(t).len() implies t[star_positions(t)[k]]
            == s[star_positions(t)[k]] by {}
    }
}

proof fn lemma_enclosed_step(s: Seq<char>, i: int)
    requires
        0 <= i < s.len(),
    ensures
        s.subrange(0, i + 1).drop_last() == s.subrange(0, i),
        s[i] != '*' ==> enclosed_texts(s.subrange(0, i + 1)) == enclosed_texts(s.subrange(0, i)),
        s[i] == '*' && star_positions(s.subrange(0, i)).len() % 2 == 0 ==> enclosed_texts(
            s.subrange(0, i + 1),
        ) == enclosed_texts(s.subrange(0, i)),
        s[i] == '*' && star_positions(s.subrange(0, i)).len() % 2 == 1 ==> enclosed_texts(
            s.subrange(0, i + 1),
        ) == enclosed_texts(s.subrange(0, i)).push(
            s.subrange(star_positions(s.subrange(0, i)).last() + 1, i),
        ),
{
    let a = s.subrange(0, i);
    let b = s.subrange(0, i + 1);
    assert(b.drop_last() =~= a);
    lemma_star_positions_ordered(a);
    let p = star_positions(a);
    let q = star_positions(b);
    assert(b.last() == s[i]);
    if s[i] != '*' {
        assert(q == p);
        assert forall|k: int| 0 <= k < enclosed_texts(a).len() implies #[trigger] enclosed_texts(
            b,
        )[k] == enclosed_texts(a)[k] by {
            assert(p[2 * k] < p[2 * k + 1]);
            assert(b.subrange(p[2 * k] + 1, p[2 * k + 1]) =~= a.subrange(
                p[2 * k] + 1,
                p[2 * k + 1],
            ));
        }
        assert(enclosed_texts(b) =~= enclosed_texts(a));
    } else {
        assert(q == p.push(i));
        assert forall|k: int| 0 <= k < enclosed_texts(a).len() implies #[trigger] enclosed_texts(
            b,
        )[k] == enclosed_texts(a)[k] by {
            assert(q[2 * k] == p[2 * k]);
            assert(q[2 * k + 1] == p[2 * k + 1]);
            assert(p[2 * k] < p[2 * k + 1]);
            assert(b.subrange(p[2 * k] + 1, p[2 * k + 1]) =~= a.subrange(
                p[2 * k] + 1,
                p[2 * k + 1],
            ));
        }
        if p.len() % 2 == 0 {
            assert(enclosed_texts(b) =~= enclosed_texts(a));
        } else {
            let k: int = (p.len() / 2) as int;
            assert(q[2 * k] == p.last());
            assert(q[2 * k + 1] == i);
            assert(b.subrange(p.last() + 1, i) =~= s.subrange(p.last() + 1, i));
            assert(enclosed_texts(b) =~= enclosed_texts(a).push(s.subrange(p.last() + 1, i)));
        }
    }
}

fn keyword_listed(listed: &Vec<Keyword>, text: &String) -> (r: bool)
    ensures
        r == listed@.map_values(|k: Keyword| k@).contains(text@),
{
    let ghost view = listed@.map_values(|k: Keyword| k@);
    let mut i: usize = 0;
    while i < listed.len()
        invariant
            i <= listed.len(),
            view == listed@.map_values(|k: Keyword| k@),
            forall|k: int| 0 <= k < i ==> (#[trigger] listed@[k])@ != text@,
        decreases listed.len() - i,
    {
        if listed[i].0 == *text {
            assert(view[i as int] == text@);
            return true;
        }
        i = i + 1;
    }
    assert(!view.contains(text@)) by {
        if view.contains(text@) {
            let k = choose|k: int| 0 <= k < view.len() && view[k] == text@;
            assert(listed@[k]@ == text@);
        }
    }
    false
}

impl Description {
    pub fn new(text: &str) -> (r: Self)
        ensures
            r@ == text@,
    {
        Description(text.to_string())
    }

    pub fn payload(&self) -> (r: &String)
        ensures
            r@ == self@,
    {
        &self.0
    }

    /// The keywords this description marks between pairs of `*`.
    pub fn keywords(&self) -> (r: Keywords)
        ensures
            r@ == description_keywords(self@),
    {
        let text = self.0.as_str();
        let chars = chars_of(text);
        let ghost s = self@;
        let mut out: Vec<Keyword> = Vec::new();
        let mut inside = false;
        let mut start: usize = 0;
        let mut i: usize = 0;
        assert(s.subrange(0, 0) =~= Seq::<char>::empty());
        assert(enclosed_texts(s.subrange(0, 0)) =~= Seq::<Seq<char>>::empty());
        assert(enclosed_texts(s.subrange(0, 0)).map_values(|t: Seq<char>| keyword_normalized(t))
            =~= Seq::<Seq<char>>::empty());
        assert(out@.map_values(|k: Keyword| k@) =~= Seq::<Seq<char>>::empty());
        while i < chars.len()
            invariant
                chars@ == s,
                text@ == s,
                i <= chars.len(),
                inside == (star_positions(s.subrange(0, i as int)).len() % 2 == 1),
                inside ==> start == star_positions(s.subrange(0, i as int)).last() + 1 && start
                    <= i,
                out@.map_values(|k: Keyword| k@) == distinct_nonempty(
                    enclosed_texts(s.subrange(0, i as int)).map_values(
                        |t: Seq<char>| keyword_normalized(t),
                    ),
                ),
            decreases chars.len() - i,
        {
            proof {
                lemma_enclosed_step(s, i as int);
                lemma_star_positions_ordered(s.subrange(0, i as int));
            }
            let ghost before = enclosed_texts(s.subrange(0, i as int)).map_values(
                |t: Seq<char>| keyword_normalized(t),
            );
            let ghost after = enclosed_texts(s.subrange(0, i + 1)).map_values(
                |t: Seq<char>| keyword_normalized(t),
            );
            let ghost prefix_next = s.subrange(0, i + 1);
            assert(star_positions(prefix_next) == if s[i as int] == '*' {
                star_positions(s.subrange(0, i as int)).push(i as int)
            } else {
                star_positions(s.subrange(0, i as int))
            });
            if chars[i] == '*' {
                if inside {
                    let piece = text.substring_char(start, i);
                    let normalized = lowercase(trimmed(piece));
                    proof {
                        assert(after =~= before.push(keyword_normalized(s.subrange(start as int, i as int))));
                        assert(after.drop_last() =~= before);
                    }
                    let ghost old_view = out@.map_values(|k: Keyword| k@);
                    if normalized.unicode_len() > 0 && !keyword_listed(&out, &normalized) {
                        let ghost n = normalized@;
                        out.push(Keyword(normalized));
                        assert(out@.map_values(|k: Keyword| k@) =~= old_view.push(n));
                    }
                    inside = false;
                } else {
                    inside = true;
                    start = i + 1;
                    assert(after =~= before);
                }
            } else {
                assert(after =~= before);
            }
            i = i + 1;
        }
        assert(s.subrange(0, chars.len() as int) =~= s);
        Keywords(out)
    }

    /// Whether the description holds the search text, ignoring case and the
    /// search text's surrounding whitespace.
    pub fn contains_search_text(&self, search_text: &SearchText) -> (r: bool)
        ensures
            r == search_text_found(self@, search_text@),
    {
        let haystack = lowercase(self.0.as_str());
        let needle = lowercase(trimmed(search_text.0.as_str()));
        contains_text(haystack.as_str(), needle.as_str())
    }

    /// Whether this description holds the other one's (trimmed, non-blank)
    /// text.
    pub fn contains_description_text(&self, other: &Description) -> (r: bool)
        ensures
            r == (trimmed_text(other@).len() > 0 && search_text_found(
                self@,
                trimmed_text(other@),
            )),
    {
        let other_text = trimmed(other.0.as_str());
        if other_text.unicode_len() == 0 {
            return false;
        }
        self.contains_search_text(&SearchText::new(other_text))
    }
}

/// The search text occurs in the lowercased description, after trimming and
/// lowercasing the search text.
pub open spec fn search_text_found(description: Seq<char>, search: Seq<char>) -> bool {
    seq_contains(lowercase_text(description), lowercase_text(trimmed_text(search)))
}

/// Some listed keyword has the same normalized form as `expected`.
pub open spec fn keywords_contain(listed: Seq<Seq<char>>, expected: Seq<char>) -> bool {
    exists|i: int|
        0 <= i < listed.len() && keyword_normalized(#[trigger] listed[i]) == keyword_normalized(
            expected,
        )
}

pub open spec fn keywords_contain_any(listed: Seq<Seq<char>>, expected: Seq<Seq<char>>) -> bool {
    exists|j: int| 0 <= j < expected.len() && keywords_contain(listed, #[trigger] expected[j])
}

pub open spec fn keywords_contain_all(listed: Seq<Seq<char>>, expected: Seq<Seq<char>>) -> bool {
    forall|j: int| 0 <= j < expected.len() ==> keywords_contain(listed, #[trigger] expected[j])
}

impl Keyword {
    /// The comparison form of the keyword: trimmed, then lowercased.
    pub fn normalized(&self) -> (r: String)
        ensures
            r@ == keyword_normalized(self@),
    {
        lowercase(trimmed(self.0.as_str()))
    }
}

impl Keywords {
    pub fn new(keywords: Vec<Keyword>) -> (r: Self)
        ensures
            r.0@ == keywords@,
    {
        Keywords(keywords)
    }

    pub fn payload(&self) -> (r: &Vec<Keyword>)
        ensures
            r@ == self.0@,
    {
        &self.0
    }

    pub fn contains_keyword(&self, expected: &Keyword) -> (r: bool)
        ensures
            r == keywords_contain(self@, expected@),
    {
        let target = expected.normalized();
        let mut i: usize = 0;
        while i < self.0.len()
            invariant
                i <= self.0.len(),
                target@ == keyword_normalized(expected@),
                forall|k: int|
                    0 <= k < i ==> keyword_normalized(#[trigger] self.0@[k]@) != target@,
            decreases self.0.len() - i,
        {
            let candidate = self.0[i].normalized();
            if candidate == target {
                assert(self@[i as int] == self.0@[i as int]@);
                return true;
            }
            i = i + 1;
        }
        assert(!keywords_contain(self@, expected@)) by {
            if keywords_contain(self@, expected@) {
                let k = choose|k: int|
                    0 <= k < self@.len() && keyword_normalized(#[trigger] self@[k])
                        == keyword_normalized(expected@);
                assert(self@[k] == self.0@[k]@);
            }
        }
        false
    }

    pub fn contains_any(&self, expected: &Keywords) -> (r: bool)
        ensures
            r == keywords_contain_any(self@, expected@),
    {
        let mut j: usize = 0;
        while j < expected.0.len()
            invariant
                j <= expected.0.len(),
                forall|k: int|
                    0 <= k < j ==> !keywords_contain(self@, #[trigger] expected.0@[k]@),
            decreases expected.0.len() - j,
        {
            if self.contains_keyword(&expected.0[j]) {
                assert(expected@[j as int] == expected.0@[j as int]@);
                return true;
            }
            j = j + 1;
        }
        assert(!keywords_contain_any(self@, expected@)) by {
            if keywords_contain_any(self@, expected@) {
                let k = choose|k: int|
                    0 <= k < expected@.len() && keywords_contain(self@, #[trigger] expected@[k]);
                assert(expected@[k] == expected.0@[k]@);
            }
        }
        false
    }

    pub fn contains_all(&self, expected: &Keywords) -> (r: bool)
        ensures
            r == keywords_contain_all(self@, expected@),
    {
        let mut j: usize = 0;
        while j < expected.0.len()
            invariant
                j <= expected.0.len(),
                forall|k: int| 0 <= k < j ==> keywords_contain(self@, #[trigger] expected@[k]),
            decreases expected.0.len() - j,
        {
            if !self.contains_keyword(&expected.0[j]) {
                assert(expected@[j as int] == expected.0@[j as int]@);
                return false;
            }
            j = j + 1;
        }
        true
    }
}

} // verus!
