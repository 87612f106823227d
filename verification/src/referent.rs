//! The referent registry: canonical names with their aliases, and how a
//! name a record uses is resolved to its canonical referent.

use vstd::prelude::*;

use crate::error::StoreError;
use crate::justification::Justification;
use crate::record::{Referent, Referents};
use crate::text::chars_of;

verus! {

broadcast use vstd::string::group_string_axioms;

/// One registered referent: its canonical name and the aliases it is also
/// known by.
#[derive(Debug)]
pub struct StoredReferent {
    pub referent: Referent,
    pub aliases: Referents,
}

/// A request to register a referent under a canonical name with aliases.
#[derive(Debug)]
pub struct ReferentRegistration {
    pub referent: Referent,
    pub aliases: Referents,
    pub justification: Justification,
}

impl Clone for ReferentRegistration {
    fn clone(&self) -> (r: Self)
        ensures
            r.referent@ == self.referent@,
            r.aliases@ == self.aliases@,
            r.justification@ == self.justification@,
    {
        ReferentRegistration {
            referent: self.referent.clone(),
            aliases: self.aliases.clone(),
            justification: self.justification.clone(),
        }
    }
}

/// The content of a registered referent.
pub struct StoredReferentView {
    pub referent: Seq<char>,
    pub aliases: Seq<Seq<char>>,
}

impl View for StoredReferent {
    type V = StoredReferentView;

    open spec fn view(&self) -> StoredReferentView {
        StoredReferentView { referent: self.referent@, aliases: self.aliases@ }
    }
}

impl Clone for StoredReferent {
    fn clone(&self) -> (r: Self)
        ensures
            r@ == self@,
    {
        let aliases = self.aliases.clone();
        let r = StoredReferent { referent: self.referent.clone(), aliases };
        assert(r.aliases@ =~= self.aliases@);
        r
    }
}

/// The referent answers to `name`: it is the canonical name or an alias.
pub open spec fn answers_to(stored: StoredReferentView, name: Seq<char>) -> bool {
    stored.referent == name || stored.aliases.contains(name)
}

/// The two referents share a name: the other's canonical name or one of its
/// aliases is a name this one answers to.
pub open spec fn shares_a_name(stored: StoredReferentView, other: StoredReferentView) -> bool {
    answers_to(stored, other.referent) || exists|i: int|
        0 <= i < other.aliases.len() && answers_to(stored, #[trigger] other.aliases[i])
}

/// The referent already answers to every name of the registration.
pub open spec fn covers_registration(
    stored: StoredReferentView,
    referent: Seq<char>,
    aliases: Seq<Seq<char>>,
) -> bool {
    answers_to(stored, referent) && forall|i: int|
        0 <= i < aliases.len() ==> answers_to(stored, #[trigger] aliases[i])
}

/// The aliases after merging `incoming` into `existing`: each incoming alias
/// that is neither the canonical name nor already present is appended, in
/// order.
pub open spec fn merged_aliases(
    existing: Seq<Seq<char>>,
    canonical: Seq<char>,
    incoming: Seq<Seq<char>>,
) -> Seq<Seq<char>>
    decreases incoming.len(),
{
    if incoming.len() == 0 {
        existing
    } else {
        let merged = merged_aliases(existing, canonical, incoming.drop_last());
        let alias = incoming.last();
        if alias != canonical && !merged.contains(alias) {
            merged.push(alias)
        } else {
            merged
        }
    }
}

/// Merging keeps every existing alias in place and adds every incoming
/// alias other than the canonical name.
pub proof fn lemma_merged_aliases(
    existing: Seq<Seq<char>>,
    canonical: Seq<char>,
    incoming: Seq<Seq<char>>,
)
    ensures
        merged_aliases(existing, canonical, incoming).len() >= existing.len(),
        merged_aliases(existing, canonical, incoming).subrange(0, existing.len() as int)
            == existing,
        forall|i: int|
            0 <= i < incoming.len() && incoming[i] != canonical ==> merged_aliases(
                existing,
                canonical,
                incoming,
            ).contains(#[trigger] incoming[i]),
        forall|a: Seq<char>|
            merged_aliases(existing, canonical, incoming).contains(a) ==> existing.contains(a)
                || incoming.contains(a),
    decreases incoming.len(),
{
    if incoming.len() > 0 {
        let prior = incoming.drop_last();
        lemma_merged_aliases(existing, canonical, prior);
        let merged = merged_aliases(existing, canonical, prior);
        let alias = incoming.last();
        let result = merged_aliases(existing, canonical, incoming);
        if alias != canonical && !merged.contains(alias) {
            assert(result == merged.push(alias));
            assert(result.subrange(0, existing.len() as int) =~= merged.subrange(
                0,
                existing.len() as int,
            ));
            assert(result[merged.len() as int] == alias);
        }
        assert forall|i: int| 0 <= i < incoming.len() && incoming[i] != canonical implies result.contains(
            #[trigger] incoming[i],
        ) by {
            if i < prior.len() {
                assert(prior[i] == incoming[i]);
                assert(merged.contains(prior[i]));
                let k = choose|k: int| 0 <= k < merged.len() && merged[k] == prior[i];
                if alias != canonical && !merged.contains(alias) {
                    assert(result[k] == merged[k]);
                }
            } else {
                assert(incoming[i] == alias);
                if alias != canonical && !merged.contains(alias) {
                    assert(result[merged.len() as int] == alias);
                }
            }
        }
        assert forall|a: Seq<char>| result.contains(a) implies existing.contains(a)
            || incoming.contains(a) by {
            if merged.contains(a) {
                if prior.contains(a) {
                    let k = choose|k: int| 0 <= k < prior.len() && prior[k] == a;
                    assert(incoming[k] == a);
                }
            } else {
                assert(a == alias);
                assert(incoming[incoming.len() - 1] == a);
            }
        }
    }
}

impl StoredReferent {
    pub fn new(referent: Referent, aliases: Referents) -> (r: Self)
        ensures
            r.referent == referent,
            r.aliases.0@ == aliases.0@,
    {
        StoredReferent { referent, aliases }
    }

    /// Whether the referent answers to `referent`.
    pub fn matches(&self, referent: &Referent) -> (r: bool)
        ensures
            r == answers_to(self@, referent@),
    {
        self.referent.same_as(referent) || self.aliases.contains(referent)
    }

    /// Whether the two referents share any name.
    pub fn has_any_name(&self, other: &StoredReferent) -> (r: bool)
        ensures
            r == shares_a_name(self@, other@),
    {
        if self.matches(&other.referent) {
            return true;
        }
        let mut i: usize = 0;
        while i < other.aliases.0.len()
            invariant
                i <= other.aliases.0.len(),
                !answers_to(self@, other@.referent),
                forall|k: int| 0 <= k < i ==> !answers_to(self@, #[trigger] other@.aliases[k]),
            decreases other.aliases.0.len() - i,
        {
            assert(other@.aliases[i as int] == other.aliases.0@[i as int]@);
            if self.matches(&other.aliases.0[i]) {
                return true;
            }
            i = i + 1;
        }
        false
    }

    /// Whether the referent already answers to every name of the
    /// registration.
    pub fn contains_registration(&self, registration: &ReferentRegistration) -> (r: bool)
        ensures
            r == covers_registration(self@, registration.referent@, registration.aliases@),
    {
        if !self.matches(&registration.referent) {
            return false;
        }
        let mut i: usize = 0;
        while i < registration.aliases.0.len()
            invariant
                i <= registration.aliases.0.len(),
                forall|k: int|
                    0 <= k < i ==> answers_to(self@, #[trigger] registration.aliases@[k]),
            decreases registration.aliases.0.len() - i,
        {
            assert(registration.aliases@[i as int] == registration.aliases.0@[i as int]@);
            if !self.matches(&registration.aliases.0[i]) {
                return false;
            }
            i = i + 1;
        }
        true
    }

    /// The referent with `aliases` merged into its own.
    pub fn with_aliases_merged(self, aliases: Referents) -> (r: Self)
        ensures
            r.referent == self.referent,
            r@.aliases == merged_aliases(self@.aliases, self@.referent, aliases@),
    {
        let StoredReferent { referent, aliases: existing } = self;
        let mut merged: Vec<Referent> = existing.0;
        let ghost start = merged@.map_values(|r: Referent| r@);
        let ghost incoming = aliases@;
        let mut i: usize = 0;
        let mut source = aliases.0;
        assert(incoming.subrange(0, 0) =~= Seq::<Seq<char>>::empty());
        while i < source.len()
            invariant
                i <= source.len(),
                incoming == source@.map_values(|r: Referent| r@),
                merged@.map_values(|r: Referent| r@) == merged_aliases(
                    start,
                    referent@,
                    incoming.subrange(0, i as int),
                ),
            decreases source.len() - i,
        {
            let alias = source[i].clone();
            let candidate = Referents(merged);
            let listed = candidate.contains(&alias);
            merged = candidate.0;
            assert(incoming.subrange(0, i + 1).drop_last() =~= incoming.subrange(0, i as int));
            assert(incoming.subrange(0, i + 1).last() == alias@);
            if !alias.same_as(&referent) && !listed {
                let ghost before = merged@.map_values(|r: Referent| r@);
                merged.push(alias);
                assert(merged@.map_values(|r: Referent| r@) =~= before.push(source@[i as int]@));
            }
            i = i + 1;
        }
        assert(incoming.subrange(0, source.len() as int) =~= incoming);
        StoredReferent { referent, aliases: Referents(merged) }
    }
}

/// The first registered referent that answers to `name`, if any.
pub open spec fn first_answering(registry: Seq<StoredReferentView>, name: Seq<char>) -> Option<
    int,
> {
    if exists|i: int| 0 <= i < registry.len() && answers_to(#[trigger] registry[i], name) {
        Some(
            choose|i: int|
                0 <= i < registry.len() && answers_to(#[trigger] registry[i], name) && forall|
                    j: int,
                |
                    0 <= j < i ==> !answers_to(#[trigger] registry[j], name),
        )
    } else {
        None
    }
}

/// The registered referents, each by its content.
pub open spec fn registry_view(registry: Seq<StoredReferent>) -> Seq<StoredReferentView> {
    registry.map_values(|r: StoredReferent| r@)
}

/// The canonical name a registry resolves `name` to: the canonical name of
/// the first registered referent answering to it.
pub open spec fn canonical_name(registry: Seq<StoredReferentView>, name: Seq<char>) -> Option<
    Seq<char>,
> {
    match first_answering(registry, name) {
        Some(i) => Some(registry[i].referent),
        None => None,
    }
}

proof fn lemma_first_answering(registry: Seq<StoredReferentView>, name: Seq<char>, i: int)
    requires
        0 <= i < registry.len(),
        answers_to(registry[i], name),
        forall|j: int| 0 <= j < i ==> !answers_to(#[trigger] registry[j], name),
    ensures
        first_answering(registry, name) == Some(i),
{
    let k = choose|k: int|
        0 <= k < registry.len() && answers_to(#[trigger] registry[k], name) && forall|j: int|
            0 <= j < k ==> !answers_to(#[trigger] registry[j], name);
    if k < i {
        assert(!answers_to(registry[k], name));
    }
    if i < k {
        assert(!answers_to(registry[i], name));
    }
}

/// The canonical referent of `referent` in the registry, if it is
/// registered under any of its names.
pub fn canonical_referent(registry: &Vec<StoredReferent>, referent: &Referent) -> (r: Option<
    Referent,
>)
    ensures
        match r {
            Some(found) => canonical_name(registry_view(registry@), referent@) == Some(found@),
            None => canonical_name(registry_view(registry@), referent@).is_none(),
        },
{
    let ghost view = registry_view(registry@);
    let mut i: usize = 0;
    while i < registry.len()
        invariant
            i <= registry.len(),
            view == registry_view(registry@),
            forall|j: int| 0 <= j < i ==> !answers_to(#[trigger] view[j], referent@),
        decreases registry.len() - i,
    {
        if registry[i].matches(referent) {
            proof {
                lemma_first_answering(view, referent@, i as int);
            }
            return Some(registry[i].referent.clone());
        }
        i = i + 1;
    }
    None
}

/// Each name resolved to its canonical referent.
pub open spec fn canonical_names(registry: Seq<StoredReferentView>, names: Seq<Seq<char>>) -> Seq<
    Seq<char>,
> {
    names.map_values(|n: Seq<char>| canonical_name(registry, n)->Some_0)
}

/// Every name resolves in the registry.
pub open spec fn all_registered(registry: Seq<StoredReferentView>, names: Seq<Seq<char>>) -> bool {
    forall|i: int| 0 <= i < names.len() ==> canonical_name(registry, #[trigger] names[i]) is Some
}

/// The referents of a record, each replaced by its canonical referent; the
/// first unregistered one is refused.
pub fn canonicalized_referents(registry: &Vec<StoredReferent>, referents: &Referents) -> (r: Result<
    Referents,
    StoreError,
>)
    ensures
        match r {
            Ok(canonical) => all_registered(registry_view(registry@), referents@) && canonical@
                == canonical_names(registry_view(registry@), referents@),
            Err(error) => !all_registered(registry_view(registry@), referents@) && exists|i: int|
                0 <= i < referents@.len() && canonical_name(
                    registry_view(registry@),
                    #[trigger] referents@[i],
                ) is None && error == StoreError::UnregisteredReferent(referents.0@[i].0) && forall|
                    j: int,
                |
                    0 <= j < i ==> canonical_name(registry_view(registry@), #[trigger] referents@[j])
                        is Some,
        },
{
    let ghost view = registry_view(registry@);
    let mut canonical: Vec<Referent> = Vec::new();
    let mut i: usize = 0;
    while i < referents.0.len()
        invariant
            i <= referents.0.len(),
            view == registry_view(registry@),
            canonical@.len() == i,
            forall|j: int|
                0 <= j < i ==> canonical_name(view, #[trigger] referents@[j]) == Some(
                    canonical@[j]@,
                ),
        decreases referents.0.len() - i,
    {
        assert(referents@[i as int] == referents.0@[i as int]@);
        match canonical_referent(registry, &referents.0[i]) {
            Some(found) => {
                canonical.push(found);
            },
            None => {
                return Err(StoreError::UnregisteredReferent(referents.0[i].0.clone()));
            },
        }
        i = i + 1;
    }
    let result = Referents(canonical);
    assert(result@ =~= canonical_names(view, referents@));
    Ok(result)
}

/// Some other registered referent (one with a different canonical name)
/// shares a name with the candidate.
pub open spec fn name_conflict(registry: Seq<StoredReferentView>, candidate: StoredReferentView) -> bool {
    exists|i: int|
        0 <= i < registry.len() && registry[i].referent != candidate.referent && shares_a_name(
            #[trigger] registry[i],
            candidate,
        )
}

/// Refuse a candidate whose names collide with another canonical
/// referent's.
pub fn reject_conflicting_referent_names(
    registry: &Vec<StoredReferent>,
    candidate: &StoredReferent,
) -> (r: Result<(), StoreError>)
    ensures
        r is Ok <==> !name_conflict(registry_view(registry@), candidate@),
        r is Err ==> r->Err_0 == StoreError::ReferentNameConflict(candidate.referent.0),
{
    let ghost view = registry_view(registry@);
    let mut i: usize = 0;
    while i < registry.len()
        invariant
            i <= registry.len(),
            view == registry_view(registry@),
            forall|j: int|
                0 <= j < i ==> !(view[j].referent != candidate@.referent && shares_a_name(
                    #[trigger] view[j],
                    candidate@,
                )),
        decreases registry.len() - i,
    {
        let existing = &registry[i];
        if !existing.referent.same_as(&candidate.referent) && existing.has_any_name(candidate) {
            assert(view[i as int] == existing@);
            return Err(StoreError::ReferentNameConflict(candidate.referent.0.clone()));
        }
        i = i + 1;
    }
    Ok(())
}

/// A well-formed new referent name: lowercase ASCII letters and digits in
/// groups joined by single hyphens, with no hyphen at either end.
pub open spec fn kebab_case(name: Seq<char>) -> bool {
    &&& name.len() > 0
    &&& name[0] != '-'
    &&& name.last() != '-'
    &&& forall|i: int| 0 <= i < name.len() - 1 ==> !(#[trigger] name[i] == '-' && name[i + 1] == '-')
    &&& forall|i: int|
        0 <= i < name.len() ==> ('a' <= #[trigger] name[i] <= 'z' || '0' <= name[i] <= '9'
            || name[i] == '-')
}

/// Refuse a new referent name that is not lowercase kebab-case.
pub fn validate_kebab_referent(name: &String) -> (r: Result<(), StoreError>)
    ensures
        r is Ok <==> kebab_case(name@),
        r is Err ==> r->Err_0 == StoreError::NonKebabReferent(*name),
{
    let chars = chars_of(name.as_str());
    let n = chars.len();
    let mut well_formed = n > 0 && chars[0] != '-' && chars[n - 1] != '-';
    let mut i: usize = 0;
    while i < n
        invariant
            chars@ == name@,
            n == chars.len(),
            i <= n,
            well_formed == (n > 0 && chars@[0] != '-' && chars@[n - 1] != '-' && (forall|k: int|
                0 <= k < i && k < n - 1 ==> !(#[trigger] chars@[k] == '-' && chars@[k + 1]
                    == '-')) && (forall|k: int|
                0 <= k < i ==> ('a' <= #[trigger] chars@[k] <= 'z' || '0' <= chars@[k] <= '9'
                    || chars@[k] == '-'))),
        decreases n - i,
    {
        let c = chars[i];
        let allowed = ('a' <= c && c <= 'z') || ('0' <= c && c <= '9') || c == '-';
        let doubled = i + 1 < n && c == '-' && chars[i + 1] == '-';
        well_formed = well_formed && allowed && !doubled;
        i = i + 1;
    }
    if well_formed {
        Ok(())
    } else {
        Err(StoreError::NonKebabReferent(name.clone()))
    }
}

} // verus!
