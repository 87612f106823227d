//! Why a write is asked for: the owner's own words, quoted verbatim, and
//! the reasoning that ties them to the write.

use vstd::prelude::*;

verus! {

/// One quote of the owner, word for word, with where it was said when
/// that is known.
#[derive(Debug)]
pub struct VerbatimQuote {
    pub quote_text: String,
    pub source: Option<String>,
}

/// The testimony and reasoning behind a write.
#[derive(Debug)]
pub struct Justification {
    pub testimony: Vec<VerbatimQuote>,
    pub reasoning: String,
}

/// A quote by its characters.
pub struct QuoteView {
    pub quote_text: Seq<char>,
    pub source: Option<Seq<char>>,
}

/// A justification by its characters.
pub struct JustificationView {
    pub testimony: Seq<QuoteView>,
    pub reasoning: Seq<char>,
}

impl View for VerbatimQuote {
    type V = QuoteView;

    open spec fn view(&self) -> QuoteView {
        QuoteView {
            quote_text: self.quote_text@,
            source: match self.source {
                Some(s) => Some(s@),
                None => None,
            },
        }
    }
}

impl View for Justification {
    type V = JustificationView;

    open spec fn view(&self) -> JustificationView {
        JustificationView {
            testimony: self.testimony@.map_values(|q: VerbatimQuote| q@),
            reasoning: self.reasoning@,
        }
    }
}

impl Clone for VerbatimQuote {
    fn clone(&self) -> (r: Self)
        ensures
            r@ == self@,
    {
        let source = match &self.source {
            Some(s) => Some(s.clone()),
            None => None,
        };
        VerbatimQuote { quote_text: self.quote_text.clone(), source }
    }
}

impl Clone for Justification {
    fn clone(&self) -> (r: Self)
        ensures
            r@ == self@,
    {
        let mut testimony: Vec<VerbatimQuote> = Vec::new();
        let mut i: usize = 0;
        while i < self.testimony.len()
            invariant
                i <= self.testimony.len(),
                testimony.len() == i,
                forall|k: int| 0 <= k < i ==> (#[trigger] testimony@[k])@ == self.testimony@[k]@,
            decreases self.testimony.len() - i,
        {
            testimony.push(self.testimony[i].clone());
            i = i + 1;
        }
        let r = Justification { testimony, reasoning: self.reasoning.clone() };
        assert(r@.testimony =~= self@.testimony);
        r
    }
}

impl Justification {
    /// A justification that quotes the statement itself and reasons from
    /// it alone.
    pub fn from_statement(statement: &String) -> (r: Self)
        ensures
            r@.testimony == seq![QuoteView { quote_text: statement@, source: None }],
            r@.reasoning == statement@,
    {
        let quote = VerbatimQuote { quote_text: statement.clone(), source: None };
        let mut testimony: Vec<VerbatimQuote> = Vec::new();
        testimony.push(quote);
        let r = Justification { testimony, reasoning: statement.clone() };
        assert(r@.testimony =~= seq![QuoteView { quote_text: statement@, source: None }]);
        r
    }

    /// Whether the justification quotes nothing at all.
    pub fn testimony_is_empty(&self) -> (r: bool)
        ensures
            r == (self@.testimony.len() == 0),
    {
        self.testimony.len() == 0
    }
}

} // verus!
