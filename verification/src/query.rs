//! Records and the query predicates that select them.

use vstd::prelude::*;

use crate::magnitude::{
    magnitude_rank, Certainty, CertaintySelection, Importance, ImportanceSelection, Magnitude,
    Privacy, PrivacySelection, certainty_admitted, importance_admitted, privacy_admitted,
};
use crate::record::{
    description_keywords, keywords_contain_all, keywords_contain_any, search_text_found,
    texts_view, Description, Domain, Domains, Keywords, Kind, Referent, Referents, SearchText,
};

verus! {

broadcast use vstd::string::group_string_axioms;

/// One intent record: its domains, kind, prose, the three magnitudes, and
/// the referents it is about.
#[derive(Debug)]
pub struct Entry {
    pub domains: Domains,
    pub kind: Kind,
    pub description: Description,
    pub certainty: Certainty,
    pub importance: Importance,
    pub privacy: Privacy,
    pub referents: Referents,
}

/// The content of a record, with every text taken by its characters.
pub struct EntryView {
    pub domains: Seq<Seq<Seq<char>>>,
    pub kind: Seq<char>,
    pub description: Seq<char>,
    pub certainty: Certainty,
    pub importance: Importance,
    pub privacy: Privacy,
    pub referents: Seq<Seq<char>>,
}

impl View for Entry {
    type V = EntryView;

    open spec fn view(&self) -> EntryView {
        EntryView {
            domains: self.domains@,
            kind: self.kind@,
            description: self.description@,
            certainty: self.certainty,
            importance: self.importance,
            privacy: self.privacy,
            referents: self.referents@,
        }
    }
}

impl Clone for Entry {
    fn clone(&self) -> (r: Self)
        ensures
            r@ == self@,
    {
        let domains = self.domains.clone();
        let referents = self.referents.clone();
        let r = Entry {
            domains,
            kind: self.kind.clone(),
            description: self.description.clone(),
            certainty: self.certainty,
            importance: self.importance,
            privacy: self.privacy,
            referents,
        };
        assert(r.referents@ =~= self.referents@);
        r
    }
}

/// Which referents a query admits.
#[derive(Debug)]
pub enum ReferentSelection {
    Any,
    AnyReferent(Referents),
    AllReferents(Referents),
}

/// Which marked keywords a query admits.
#[derive(Debug)]
pub enum KeywordMatch {
    Any,
    AnyKeyword(Keywords),
    AllKeywords(Keywords),
}

/// Which description text a query admits.
#[derive(Debug)]
pub enum TextMatch {
    Any,
    ContainsText(SearchText),
}

/// Which domains a query admits: any, or those lying under one of the
/// listed scopes.
#[derive(Debug)]
pub enum DomainMatch {
    Any,
    Full(Domains),
}

/// A read over the records: every predicate must hold.
#[derive(Debug)]
pub struct Query {
    pub domain_match: DomainMatch,
    pub keyword_match: KeywordMatch,
    pub text_match: TextMatch,
    pub referent_selection: ReferentSelection,
    pub selected_kind: Option<Kind>,
    pub privacy_selection: PrivacySelection,
    pub certainty_selection: CertaintySelection,
    pub importance_selection: ImportanceSelection,
}

/// Some expected name is among the listed ones.
pub open spec fn lists_any(listed: Seq<Seq<char>>, expected: Seq<Seq<char>>) -> bool {
    exists|j: int| 0 <= j < expected.len() && listed.contains(#[trigger] expected[j])
}

/// Every expected name is among the listed ones.
pub open spec fn lists_all(listed: Seq<Seq<char>>, expected: Seq<Seq<char>>) -> bool {
    forall|j: int| 0 <= j < expected.len() ==> listed.contains(#[trigger] expected[j])
}

/// The content of a referent selection.
pub enum ReferentSelectionView {
    Any,
    AnyReferent(Seq<Seq<char>>),
    AllReferents(Seq<Seq<char>>),
}

/// The content of a keyword match.
pub enum KeywordMatchView {
    Any,
    AnyKeyword(Seq<Seq<char>>),
    AllKeywords(Seq<Seq<char>>),
}

/// The content of a text match.
pub enum TextMatchView {
    Any,
    ContainsText(Seq<char>),
}

/// The content of a domain match.
pub enum DomainMatchView {
    Any,
    Full(Seq<Seq<Seq<char>>>),
}

/// The content of a query.
pub struct QueryView {
    pub domain_match: DomainMatchView,
    pub keyword_match: KeywordMatchView,
    pub text_match: TextMatchView,
    pub referent_selection: ReferentSelectionView,
    pub selected_kind: Option<Seq<char>>,
    pub privacy_selection: PrivacySelection,
    pub certainty_selection: CertaintySelection,
    pub importance_selection: ImportanceSelection,
}

impl View for ReferentSelection {
    type V = ReferentSelectionView;

    open spec fn view(&self) -> ReferentSelectionView {
        match self {
            ReferentSelection::Any => ReferentSelectionView::Any,
            ReferentSelection::AnyReferent(expected) => ReferentSelectionView::AnyReferent(
                expected@,
            ),
            ReferentSelection::AllReferents(expected) => ReferentSelectionView::AllReferents(
                expected@,
            ),
        }
    }
}

impl View for KeywordMatch {
    type V = KeywordMatchView;

    open spec fn view(&self) -> KeywordMatchView {
        match self {
            KeywordMatch::Any => KeywordMatchView::Any,
            KeywordMatch::AnyKeyword(expected) => KeywordMatchView::AnyKeyword(expected@),
            KeywordMatch::AllKeywords(expected) => KeywordMatchView::AllKeywords(expected@),
        }
    }
}

impl View for TextMatch {
    type V = TextMatchView;

    open spec fn view(&self) -> TextMatchView {
        match self {
            TextMatch::Any => TextMatchView::Any,
            TextMatch::ContainsText(search) => TextMatchView::ContainsText(search@),
        }
    }
}

impl View for DomainMatch {
    type V = DomainMatchView;

    open spec fn view(&self) -> DomainMatchView {
        match self {
            DomainMatch::Any => DomainMatchView::Any,
            DomainMatch::Full(scopes) => DomainMatchView::Full(scopes@),
        }
    }
}

impl View for Query {
    type V = QueryView;

    open spec fn view(&self) -> QueryView {
        QueryView {
            domain_match: self.domain_match@,
            keyword_match: self.keyword_match@,
            text_match: self.text_match@,
            referent_selection: self.referent_selection@,
            selected_kind: match self.selected_kind {
                Some(kind) => Some(kind@),
                None => None,
            },
            privacy_selection: self.privacy_selection,
            certainty_selection: self.certainty_selection,
            importance_selection: self.importance_selection,
        }
    }
}

pub open spec fn referents_admitted(selection: ReferentSelectionView, referents: Seq<Seq<char>>) -> bool {
    match selection {
        ReferentSelectionView::Any => true,
        ReferentSelectionView::AnyReferent(expected) => lists_any(referents, expected),
        ReferentSelectionView::AllReferents(expected) => lists_all(referents, expected),
    }
}

pub open spec fn keywords_admitted(selection: KeywordMatchView, description: Seq<char>) -> bool {
    match selection {
        KeywordMatchView::Any => true,
        KeywordMatchView::AnyKeyword(expected) => keywords_contain_any(
            description_keywords(description),
            expected,
        ),
        KeywordMatchView::AllKeywords(expected) => keywords_contain_all(
            description_keywords(description),
            expected,
        ),
    }
}

pub open spec fn text_admitted(selection: TextMatchView, description: Seq<char>) -> bool {
    match selection {
        TextMatchView::Any => true,
        TextMatchView::ContainsText(search) => search_text_found(description, search),
    }
}

/// `scope` is a leading part of the domain path `domain`.
pub open spec fn domain_under(scope: Seq<Seq<char>>, domain: Seq<Seq<char>>) -> bool {
    scope.len() <= domain.len() && domain.subrange(0, scope.len() as int) == scope
}

/// Some listed domain lies under some scope.
pub open spec fn some_domain_under(scopes: Seq<Seq<Seq<char>>>, domains: Seq<Seq<Seq<char>>>) -> bool {
    exists|s: int, d: int|
        0 <= s < scopes.len() && 0 <= d < domains.len() && domain_under(
            #[trigger] scopes[s],
            #[trigger] domains[d],
        )
}

pub open spec fn domains_admitted(selection: DomainMatchView, domains: Seq<Seq<Seq<char>>>) -> bool {
    match selection {
        DomainMatchView::Any => true,
        DomainMatchView::Full(scopes) => some_domain_under(scopes, domains),
    }
}

pub open spec fn kind_admitted(selected: Option<Seq<char>>, kind: Seq<char>) -> bool {
    match selected {
        None => true,
        Some(k) => k == kind,
    }
}

/// The query admits the record: every one of its eight predicates holds.
pub open spec fn query_admits(q: QueryView, e: EntryView) -> bool {
    &&& domains_admitted(q.domain_match, e.domains)
    &&& keywords_admitted(q.keyword_match, e.description)
    &&& text_admitted(q.text_match, e.description)
    &&& referents_admitted(q.referent_selection, e.referents)
    &&& kind_admitted(q.selected_kind, e.kind)
    &&& privacy_admitted(q.privacy_selection, e.privacy)
    &&& certainty_admitted(q.certainty_selection, e.certainty)
    &&& importance_admitted(q.importance_selection, e.importance)
}

/// A record is publicly active when it is public (privacy `Zero`) and at
/// least minimally certain.
pub open spec fn publicly_active(e: EntryView) -> bool {
    privacy_admitted(PrivacySelection::Exact(Privacy(Magnitude::Zero)), e.privacy)
        && certainty_admitted(
        CertaintySelection::AtLeastCertainty(Certainty(Magnitude::Minimum)),
        e.certainty,
    )
}


impl Clone for ReferentSelection {
    fn clone(&self) -> (r: Self)
        ensures
            r@ == self@,
    {
        match self {
            ReferentSelection::Any => ReferentSelection::Any,
            ReferentSelection::AnyReferent(expected) => {
                let c = expected.clone();
                assert(c@ =~= expected@);
                ReferentSelection::AnyReferent(c)
            },
            ReferentSelection::AllReferents(expected) => {
                let c = expected.clone();
                assert(c@ =~= expected@);
                ReferentSelection::AllReferents(c)
            },
        }
    }
}

impl Clone for KeywordMatch {
    fn clone(&self) -> (r: Self)
        ensures
            r@ == self@,
    {
        match self {
            KeywordMatch::Any => KeywordMatch::Any,
            KeywordMatch::AnyKeyword(expected) => {
                let c = expected.clone();
                assert(c@ =~= expected@);
                KeywordMatch::AnyKeyword(c)
            },
            KeywordMatch::AllKeywords(expected) => {
                let c = expected.clone();
                assert(c@ =~= expected@);
                KeywordMatch::AllKeywords(c)
            },
        }
    }
}

impl Clone for TextMatch {
    fn clone(&self) -> (r: Self)
        ensures
            r@ == self@,
    {
        match self {
            TextMatch::Any => TextMatch::Any,
            TextMatch::ContainsText(search) => TextMatch::ContainsText(search.clone()),
        }
    }
}

impl Clone for DomainMatch {
    fn clone(&self) -> (r: Self)
        ensures
            r@ == self@,
    {
        match self {
            DomainMatch::Any => DomainMatch::Any,
            DomainMatch::Full(scopes) => DomainMatch::Full(scopes.clone()),
        }
    }
}

impl Clone for Query {
    fn clone(&self) -> (r: Self)
        ensures
            r@ == self@,
    {
        Query {
            domain_match: self.domain_match.clone(),
            keyword_match: self.keyword_match.clone(),
            text_match: self.text_match.clone(),
            referent_selection: self.referent_selection.clone(),
            selected_kind: match &self.selected_kind {
                Some(kind) => Some(kind.clone()),
                None => None,
            },
            privacy_selection: self.privacy_selection,
            certainty_selection: self.certainty_selection,
            importance_selection: self.importance_selection,
        }
    }
}

impl ReferentSelection {
    pub fn any_referent(referents: Referents) -> (r: Self)
        ensures
            r == ReferentSelection::AnyReferent(referents),
    {
        ReferentSelection::AnyReferent(referents)
    }

    pub fn all_referents(referents: Referents) -> (r: Self)
        ensures
            r == ReferentSelection::AllReferents(referents),
    {
        ReferentSelection::AllReferents(referents)
    }

    pub fn matches(&self, entry_referents: &Referents) -> (r: bool)
        ensures
            r == referents_admitted(self@, entry_referents@),
    {
        match self {
            ReferentSelection::Any => true,
            ReferentSelection::AnyReferent(expected) => {
                let mut j: usize = 0;
                while j < expected.0.len()
                    invariant
                        j <= expected.0.len(),
                        referents_admitted(self@, entry_referents@) == lists_any(
                            entry_referents@,
                            expected@,
                        ),
                        forall|k: int|
                            0 <= k < j ==> !entry_referents@.contains(#[trigger] expected@[k]),
                    decreases expected.0.len() - j,
                {
                    if entry_referents.contains(&expected.0[j]) {
                        assert(expected@[j as int] == expected.0@[j as int]@);
                        assert(entry_referents@.contains(expected@[j as int]));
                        assert(lists_any(entry_referents@, expected@));
                        return true;
                    }
                    assert(expected@[j as int] == expected.0@[j as int]@);
                    j = j + 1;
                }
                false
            },
            ReferentSelection::AllReferents(expected) => {
                let mut j: usize = 0;
                while j < expected.0.len()
                    invariant
                        j <= expected.0.len(),
                        referents_admitted(self@, entry_referents@) == lists_all(
                            entry_referents@,
                            expected@,
                        ),
                        forall|k: int|
                            0 <= k < j ==> entry_referents@.contains(#[trigger] expected@[k]),
                    decreases expected.0.len() - j,
                {
                    assert(expected@[j as int] == expected.0@[j as int]@);
                    if !entry_referents.contains(&expected.0[j]) {
                        assert(!entry_referents@.contains(expected@[j as int]));
                        assert(!lists_all(entry_referents@, expected@));
                        return false;
                    }
                    j = j + 1;
                }
                true
            },
        }
    }
}

impl KeywordMatch {
    pub fn matches(&self, description: &Description) -> (r: bool)
        ensures
            r == keywords_admitted(self@, description@),
    {
        match self {
            KeywordMatch::Any => true,
            KeywordMatch::AnyKeyword(expected) => description.keywords().contains_any(expected),
            KeywordMatch::AllKeywords(expected) => description.keywords().contains_all(expected),
        }
    }
}

impl TextMatch {
    pub fn matches(&self, description: &Description) -> (r: bool)
        ensures
            r == text_admitted(self@, description@),
    {
        match self {
            TextMatch::Any => true,
            TextMatch::ContainsText(search_text) => description.contains_search_text(search_text),
        }
    }
}

fn domain_is_under(scope: &Domain, domain: &Domain) -> (r: bool)
    ensures
        r == domain_under(scope@, domain@),
{
    if scope.0.len() > domain.0.len() {
        return false;
    }
    let mut i: usize = 0;
    while i < scope.0.len()
        invariant
            scope.0.len() <= domain.0.len(),
            i <= scope.0.len(),
            forall|k: int| 0 <= k < i ==> (#[trigger] scope.0@[k])@ == domain.0@[k]@,
        decreases scope.0.len() - i,
    {
        if scope.0[i] != domain.0[i] {
            assert(domain@.subrange(0, scope@.len() as int)[i as int] != scope@[i as int]);
            return false;
        }
        i = i + 1;
    }
    assert(domain@.subrange(0, scope@.len() as int) =~= scope@);
    true
}

impl DomainMatch {
    pub fn full(scopes: Domains) -> (r: Self)
        ensures
            r == DomainMatch::Full(scopes),
    {
        DomainMatch::Full(scopes)
    }

    pub fn matches(&self, domains: &Domains) -> (r: bool)
        ensures
            r == domains_admitted(self@, domains@),
    {
        match self {
            DomainMatch::Any => true,
            DomainMatch::Full(scopes) => {
                let mut s: usize = 0;
                while s < scopes.0.len()
                    invariant
                        s <= scopes.0.len(),
                        domains_admitted(self@, domains@) == some_domain_under(scopes@, domains@),
                        forall|a: int, d: int|
                            0 <= a < s && 0 <= d < domains@.len() ==> !domain_under(
                                #[trigger] scopes@[a],
                                #[trigger] domains@[d],
                            ),
                    decreases scopes.0.len() - s,
                {
                    let mut d: usize = 0;
                    while d < domains.0.len()
                        invariant
                            s < scopes.0.len(),
                            domains_admitted(self@, domains@) == some_domain_under(
                                scopes@,
                                domains@,
                            ),
                            d <= domains.0.len(),
                            forall|a: int, e: int|
                                0 <= a < s && 0 <= e < domains@.len() ==> !domain_under(
                                    #[trigger] scopes@[a],
                                    #[trigger] domains@[e],
                                ),
                            forall|e: int|
                                0 <= e < d ==> !domain_under(scopes@[s as int], #[trigger] domains@[e]),
                        decreases domains.0.len() - d,
                    {
                        assert(scopes@[s as int] == scopes.0@[s as int]@);
                        assert(domains@[d as int] == domains.0@[d as int]@);
                        if domain_is_under(&scopes.0[s], &domains.0[d]) {
                            assert(domain_under(scopes@[s as int], domains@[d as int]));
                            assert(some_domain_under(scopes@, domains@));
                            return true;
                        }
                        d = d + 1;
                    }
                    s = s + 1;
                }
                false
            },
        }
    }
}

impl Query {
    pub fn matches(&self, entry: &Entry) -> (r: bool)
        ensures
            r == query_admits(self@, entry@),
    {
        let kind_ok = match &self.selected_kind {
            None => true,
            Some(kind) => entry.kind.same_as(kind),
        };
        self.domain_match.matches(&entry.domains) && self.keyword_match.matches(&entry.description)
            && self.text_match.matches(&entry.description) && self.referent_selection.matches(
            &entry.referents,
        ) && kind_ok && self.privacy_selection.matches(&entry.privacy)
            && self.certainty_selection.matches(&entry.certainty)
            && self.importance_selection.matches(&entry.importance)
    }

    /// The guardian's context read: records in the given domains and about
    /// the given referents, at the ordinary observation bar.
    pub fn guardian_context(domain_match: DomainMatch, referent_selection: ReferentSelection) -> (r:
        Self)
        ensures
            r.domain_match == domain_match,
            r.referent_selection == referent_selection,
            r.keyword_match == KeywordMatch::Any,
            r.text_match == TextMatch::Any,
            r.selected_kind.is_none(),
            r.privacy_selection == PrivacySelection::Any,
            r.certainty_selection == CertaintySelection::AtLeastCertainty(
                Certainty(Magnitude::Minimum),
            ),
            r.importance_selection == ImportanceSelection::Any,
    {
        Query {
            domain_match,
            keyword_match: KeywordMatch::Any,
            text_match: TextMatch::Any,
            referent_selection,
            selected_kind: None,
            privacy_selection: PrivacySelection::Any,
            certainty_selection: CertaintySelection::default_observation_certainty(),
            importance_selection: ImportanceSelection::default_observation_importance(),
        }
    }

    /// The guardian's read of one domain scope.
    pub fn guardian_domain_scope(scope: Domain) -> (r: Self)
        ensures
            r.domain_match matches DomainMatch::Full(scopes) && scopes.0@ == seq![scope],
            r.referent_selection == ReferentSelection::Any,
            r.keyword_match == KeywordMatch::Any,
            r.text_match == TextMatch::Any,
            r.selected_kind.is_none(),
            r.privacy_selection == PrivacySelection::Any,
            r.certainty_selection == CertaintySelection::AtLeastCertainty(
                Certainty(Magnitude::Minimum),
            ),
            r.importance_selection == ImportanceSelection::Any,
    {
        let mut scopes: Vec<Domain> = Vec::new();
        scopes.push(scope);
        assert(scopes@ =~= seq![scope]);
        Query::guardian_context(DomainMatch::full(Domains::new(scopes)), ReferentSelection::Any)
    }

    /// The guardian's read of records naming any of the given referents.
    pub fn guardian_referents(referents: Referents) -> (r: Self)
        ensures
            r.domain_match == DomainMatch::Any,
            r.referent_selection == ReferentSelection::AnyReferent(referents),
            r.keyword_match == KeywordMatch::Any,
            r.text_match == TextMatch::Any,
            r.selected_kind.is_none(),
            r.privacy_selection == PrivacySelection::Any,
            r.certainty_selection == CertaintySelection::AtLeastCertainty(
                Certainty(Magnitude::Minimum),
            ),
            r.importance_selection == ImportanceSelection::Any,
    {
        Query::guardian_context(DomainMatch::Any, ReferentSelection::any_referent(referents))
    }
}

impl Entry {
    pub fn matches(&self, query: &Query) -> (r: bool)
        ensures
            r == query_admits(query@, self@),
    {
        query.matches(self)
    }

    pub fn certainty_rank(&self) -> (r: u64)
        ensures
            r == magnitude_rank(self.certainty.0),
    {
        self.certainty.payload().rank()
    }

    pub fn importance_rank(&self) -> (r: u64)
        ensures
            r == magnitude_rank(self.importance.0),
    {
        self.importance.payload().rank()
    }

    /// Public (privacy `Zero`) and at least minimally certain; importance is
    /// not constrained.
    pub fn is_public_active(&self) -> (r: bool)
        ensures
            r == publicly_active(self@),
    {
        PrivacySelection::default_observation_privacy().matches(&self.privacy)
            && CertaintySelection::default_observation_certainty().matches(&self.certainty)
            && ImportanceSelection::default_observation_importance().matches(&self.importance)
    }

    /// Whether the record is not public (its privacy is above `Zero`).
    pub fn is_private(&self) -> (r: bool)
        ensures
            r == (self.privacy.0 != Magnitude::Zero),
    {
        self.privacy.payload().rank() != 0
    }
}

} // verus!
