//! The eight-rung magnitude ladder shared by certainty, importance and
//! privacy, and the selections that admit a rung.

use vstd::prelude::*;

verus! {

/// One rung of the ladder, from `Zero` up to `Maximum`.
#[derive(Clone, Copy, Debug, PartialEq, Eq, Structural)]
pub enum Magnitude {
    Zero,
    Minimum,
    VeryLow,
    Low,
    Medium,
    High,
    VeryHigh,
    Maximum,
}

/// The position of a rung on the ladder: `Zero` is 0, `Maximum` is 7.
pub open spec fn magnitude_rank(m: Magnitude) -> nat {
    match m {
        Magnitude::Zero => 0,
        Magnitude::Minimum => 1,
        Magnitude::VeryLow => 2,
        Magnitude::Low => 3,
        Magnitude::Medium => 4,
        Magnitude::High => 5,
        Magnitude::VeryHigh => 6,
        Magnitude::Maximum => 7,
    }
}

/// The rung one step up, saturating at `Maximum`.
pub open spec fn magnitude_successor(m: Magnitude) -> Magnitude {
    match m {
        Magnitude::Zero => Magnitude::Minimum,
        Magnitude::Minimum => Magnitude::VeryLow,
        Magnitude::VeryLow => Magnitude::Low,
        Magnitude::Low => Magnitude::Medium,
        Magnitude::Medium => Magnitude::High,
        Magnitude::High => Magnitude::VeryHigh,
        Magnitude::VeryHigh => Magnitude::Maximum,
        Magnitude::Maximum => Magnitude::Maximum,
    }
}

impl Magnitude {
    pub fn rank(&self) -> (r: u64)
        ensures
            r == magnitude_rank(*self),
    {
        match self {
            Magnitude::Zero => 0,
            Magnitude::Minimum => 1,
            Magnitude::VeryLow => 2,
            Magnitude::Low => 3,
            Magnitude::Medium => 4,
            Magnitude::High => 5,
            Magnitude::VeryHigh => 6,
            Magnitude::Maximum => 7,
        }
    }

    pub fn next(&self) -> (r: Magnitude)
        ensures
            r == magnitude_successor(*self),
    {
        match self {
            Magnitude::Zero => Magnitude::Minimum,
            Magnitude::Minimum => Magnitude::VeryLow,
            Magnitude::VeryLow => Magnitude::Low,
            Magnitude::Low => Magnitude::Medium,
            Magnitude::Medium => Magnitude::High,
            Magnitude::High => Magnitude::VeryHigh,
            Magnitude::VeryHigh => Magnitude::Maximum,
            Magnitude::Maximum => Magnitude::Maximum,
        }
    }
}

/// Two rungs with the same rank are the same rung.
pub proof fn lemma_rank_injective(a: Magnitude, b: Magnitude)
    ensures
        magnitude_rank(a) == magnitude_rank(b) <==> a == b,
{
}

/// Stepping up raises the rank by one, except at `Maximum`, which stays put.
pub proof fn lemma_successor_rank(m: Magnitude)
    ensures
        m != Magnitude::Maximum ==> magnitude_rank(magnitude_successor(m)) == magnitude_rank(m)
            + 1,
        m == Magnitude::Maximum ==> magnitude_successor(m) == m,
        magnitude_rank(magnitude_successor(m)) <= 7,
        magnitude_rank(m) <= magnitude_rank(magnitude_successor(m)),
{
}

/// How sure the psyche is of a record.
#[derive(Clone, Copy, Debug, PartialEq, Eq, Structural)]
pub struct Certainty(pub Magnitude);

/// How much a record matters.
#[derive(Clone, Copy, Debug, PartialEq, Eq, Structural)]
pub struct Importance(pub Magnitude);

/// How private a record is; `Zero` is public.
#[derive(Clone, Copy, Debug, PartialEq, Eq, Structural)]
pub struct Privacy(pub Magnitude);

impl Certainty {
    pub fn new(magnitude: Magnitude) -> (r: Self)
        ensures
            r.0 == magnitude,
    {
        Certainty(magnitude)
    }

    pub fn payload(&self) -> (r: Magnitude)
        ensures
            r == self.0,
    {
        self.0
    }
}

impl Importance {
    pub fn new(magnitude: Magnitude) -> (r: Self)
        ensures
            r.0 == magnitude,
    {
        Importance(magnitude)
    }

    pub fn payload(&self) -> (r: Magnitude)
        ensures
            r == self.0,
    {
        self.0
    }

    /// The importance one rung higher, saturating at `Maximum`.
    pub fn next(&self) -> (r: Self)
        ensures
            r.0 == magnitude_successor(self.0),
    {
        Importance(self.0.next())
    }
}

impl Privacy {
    pub fn new(magnitude: Magnitude) -> (r: Self)
        ensures
            r.0 == magnitude,
    {
        Privacy(magnitude)
    }

    pub fn payload(&self) -> (r: Magnitude)
        ensures
            r == self.0,
    {
        self.0
    }
}

/// Which privacy rungs a query admits.
#[derive(Clone, Copy, Debug, PartialEq, Eq, Structural)]
pub enum PrivacySelection {
    Any,
    Exact(Privacy),
    AtMost(Privacy),
    AtLeast(Privacy),
}

/// Which certainty rungs a query admits.
#[derive(Clone, Copy, Debug, PartialEq, Eq, Structural)]
pub enum CertaintySelection {
    Any,
    ExactCertainty(Certainty),
    AtMostCertainty(Certainty),
    AtLeastCertainty(Certainty),
}

/// Which importance rungs a query admits.
#[derive(Clone, Copy, Debug, PartialEq, Eq, Structural)]
pub enum ImportanceSelection {
    Any,
    ExactImportance(Importance),
    AtMostImportance(Importance),
    AtLeastImportance(Importance),
}

/// The rung selection shared by the three selections: any rung, exactly
/// one rung, at most a rung, or at least a rung.
pub open spec fn rung_admitted(kind: nat, bound: Magnitude, m: Magnitude) -> bool {
    if kind == 0 {
        m == bound
    } else if kind == 1 {
        magnitude_rank(m) <= magnitude_rank(bound)
    } else {
        magnitude_rank(m) >= magnitude_rank(bound)
    }
}

pub open spec fn privacy_admitted(selection: PrivacySelection, privacy: Privacy) -> bool {
    match selection {
        PrivacySelection::Any => true,
        PrivacySelection::Exact(expected) => rung_admitted(0, expected.0, privacy.0),
        PrivacySelection::AtMost(maximum) => rung_admitted(1, maximum.0, privacy.0),
        PrivacySelection::AtLeast(minimum) => rung_admitted(2, minimum.0, privacy.0),
    }
}

pub open spec fn certainty_admitted(selection: CertaintySelection, certainty: Certainty) -> bool {
    match selection {
        CertaintySelection::Any => true,
        CertaintySelection::ExactCertainty(expected) => rung_admitted(0, expected.0, certainty.0),
        CertaintySelection::AtMostCertainty(maximum) => rung_admitted(1, maximum.0, certainty.0),
        CertaintySelection::AtLeastCertainty(minimum) => rung_admitted(2, minimum.0, certainty.0),
    }
}

pub open spec fn importance_admitted(selection: ImportanceSelection, importance: Importance) -> bool {
    match selection {
        ImportanceSelection::Any => true,
        ImportanceSelection::ExactImportance(expected) => rung_admitted(0, expected.0, importance.0),
        ImportanceSelection::AtMostImportance(maximum) => rung_admitted(1, maximum.0, importance.0),
        ImportanceSelection::AtLeastImportance(minimum) => rung_admitted(
            2,
            minimum.0,
            importance.0,
        ),
    }
}

impl PrivacySelection {
    pub fn exact(privacy: Privacy) -> (r: Self)
        ensures
            r == PrivacySelection::Exact(privacy),
    {
        PrivacySelection::Exact(privacy)
    }

    /// The public-only selection: exactly privacy `Zero`.
    pub fn default_observation_privacy() -> (r: Self)
        ensures
            r == PrivacySelection::Exact(Privacy(Magnitude::Zero)),
    {
        PrivacySelection::exact(Privacy::new(Magnitude::Zero))
    }

    pub fn matches(&self, privacy: &Privacy) -> (r: bool)
        ensures
            r == privacy_admitted(*self, *privacy),
    {
        match self {
            PrivacySelection::Any => true,
            PrivacySelection::Exact(expected) => {
                proof {
                    lemma_rank_injective(privacy.0, expected.0);
                }
                privacy.payload().rank() == expected.payload().rank()
            },
            PrivacySelection::AtMost(maximum) => privacy.payload().rank()
                <= maximum.payload().rank(),
            PrivacySelection::AtLeast(minimum) => privacy.payload().rank()
                >= minimum.payload().rank(),
        }
    }
}

impl CertaintySelection {
    pub fn exact_certainty(certainty: Certainty) -> (r: Self)
        ensures
            r == CertaintySelection::ExactCertainty(certainty),
    {
        CertaintySelection::ExactCertainty(certainty)
    }

    pub fn at_least_certainty(certainty: Certainty) -> (r: Self)
        ensures
            r == CertaintySelection::AtLeastCertainty(certainty),
    {
        CertaintySelection::AtLeastCertainty(certainty)
    }

    /// The ordinary observation bar: certainty at least `Minimum`.
    pub fn default_observation_certainty() -> (r: Self)
        ensures
            r == CertaintySelection::AtLeastCertainty(Certainty(Magnitude::Minimum)),
    {
        CertaintySelection::at_least_certainty(Certainty::new(Magnitude::Minimum))
    }

    /// The removal-candidate bar: certainty exactly `Zero`.
    pub fn removal_candidate_certainty() -> (r: Self)
        ensures
            r == CertaintySelection::ExactCertainty(Certainty(Magnitude::Zero)),
    {
        CertaintySelection::exact_certainty(Certainty::new(Magnitude::Zero))
    }

    pub fn matches(&self, certainty: &Certainty) -> (r: bool)
        ensures
            r == certainty_admitted(*self, *certainty),
    {
        let rank = certainty.payload().rank();
        match self {
            CertaintySelection::Any => true,
            CertaintySelection::ExactCertainty(expected) => {
                proof {
                    lemma_rank_injective(certainty.0, expected.0);
                }
                rank == expected.payload().rank()
            },
            CertaintySelection::AtMostCertainty(maximum) => rank <= maximum.payload().rank(),
            CertaintySelection::AtLeastCertainty(minimum) => rank >= minimum.payload().rank(),
        }
    }
}

impl ImportanceSelection {
    /// Observation admits every importance.
    pub fn default_observation_importance() -> (r: Self)
        ensures
            r == ImportanceSelection::Any,
    {
        ImportanceSelection::Any
    }

    pub fn matches(&self, importance: &Importance) -> (r: bool)
        ensures
            r == importance_admitted(*self, *importance),
    {
        let rank = importance.payload().rank();
        match self {
            ImportanceSelection::Any => true,
            ImportanceSelection::ExactImportance(expected) => {
                proof {
                    lemma_rank_injective(importance.0, expected.0);
                }
                rank == expected.payload().rank()
            },
            ImportanceSelection::AtMostImportance(maximum) => rank <= maximum.payload().rank(),
            ImportanceSelection::AtLeastImportance(minimum) => rank >= minimum.payload().rank(),
        }
    }
}

/// The removal-candidate bar and the ordinary observation bar never admit
/// the same certainty: a record is either a removal candidate or visible.
pub proof fn lemma_removal_candidates_are_not_observed(certainty: Certainty)
    ensures
        certainty_admitted(
            CertaintySelection::ExactCertainty(Certainty(Magnitude::Zero)),
            certainty,
        ) != certainty_admitted(
            CertaintySelection::AtLeastCertainty(Certainty(Magnitude::Minimum)),
            certainty,
        ),
{
}

} // verus!
