//! The render client's logic: which referents a render asks for, the
//! query it observes them with, where the rendered file goes, and how the
//! daemon's replies are read.

use vstd::prelude::*;

use crate::magnitude::{Certainty, CertaintySelection, ImportanceSelection, Magnitude, Privacy, PrivacySelection};
use crate::nexus::Output;
use crate::query::{DomainMatch, KeywordMatch, Query, QueryView, ReferentSelection, ReferentSelectionView, TextMatch};
use crate::record::{Referent, Referents};
use crate::store::ObservedRecord;

verus! {

broadcast use vstd::string::group_string_axioms;

/// One referent a render asks for.
#[derive(Debug)]
pub struct RenderReferent(pub String);

/// The referents a render asks for.
#[derive(Debug)]
pub struct RenderReferents(pub Vec<RenderReferent>);

/// Where the rendered file goes.
#[derive(Debug)]
pub struct RenderDirectory(pub String);

/// A render request: the referents, and the output directory if one is
/// named.
#[derive(Debug)]
pub struct RenderRequest {
    pub referents: RenderReferents,
    pub output_directory: Option<RenderDirectory>,
}

/// The render client's input.
#[derive(Debug)]
pub enum RenderInput {
    Render(RenderRequest),
}

/// The text the render client is given.
#[derive(Debug)]
pub struct RenderInputSource {
    pub text: String,
}

/// Where the daemon listens.
#[derive(Debug)]
pub struct RenderClient {
    pub socket_path: String,
}

/// When a render was made, in seconds since the Unix epoch.
#[derive(Debug, Clone, Copy, PartialEq, Eq, Structural)]
pub struct RenderTimestamp {
    pub unix_seconds: u64,
}

/// A finished render: the request, the daemon's marker reply, the records
/// reply and when it was made.
#[derive(Debug)]
pub struct RenderedIntent {
    pub request: RenderRequest,
    pub marker: Output,
    pub records: Output,
    pub timestamp: RenderTimestamp,
}

/// Why a render failed.
#[derive(Debug)]
pub enum RenderError {
    /// The request named no referent.
    EmptyReferents,
    /// The clock reads before the Unix epoch.
    ClockBeforeUnixEpoch,
    /// The daemon answered something else than expected.
    UnexpectedOutput(String),
}

/// The referent names of a render, in order.
pub open spec fn render_names(referents: RenderReferents) -> Seq<Seq<char>> {
    referents.0@.map_values(|r: RenderReferent| r.0@)
}

/// The query a render observes with: public records of at least minimum
/// certainty about any of the referents.
pub open spec fn render_query(names: Seq<Seq<char>>) -> QueryView {
    QueryView {
        domain_match: crate::query::DomainMatchView::Any,
        keyword_match: crate::query::KeywordMatchView::Any,
        text_match: crate::query::TextMatchView::Any,
        referent_selection: ReferentSelectionView::AnyReferent(names),
        selected_kind: None,
        privacy_selection: PrivacySelection::Exact(Privacy(Magnitude::Zero)),
        certainty_selection: CertaintySelection::AtLeastCertainty(Certainty(Magnitude::Minimum)),
        importance_selection: ImportanceSelection::Any,
    }
}

/// The file a render writes, under a directory.
pub open spec fn output_file(directory: Seq<char>) -> Seq<char> {
    if directory.len() == 0 {
        "spirit.nota"@
    } else if directory.last() == '/' {
        directory + "spirit.nota"@
    } else {
        directory + "/spirit.nota"@
    }
}

impl RenderReferent {
    pub fn new(referent: String) -> (r: Self)
        ensures
            r.0 == referent,
    {
        RenderReferent(referent)
    }
}

impl RenderReferents {
    pub fn new(referents: Vec<RenderReferent>) -> (r: Self)
        ensures
            r.0 == referents,
    {
        RenderReferents(referents)
    }

    /// Select any of the referents.
    pub fn referent_selection(&self) -> (r: ReferentSelection)
        ensures
            r@ == ReferentSelectionView::AnyReferent(render_names(*self)),
    {
        let mut names: Vec<Referent> = Vec::new();
        let mut i: usize = 0;
        while i < self.0.len()
            invariant
                i <= self.0.len(),
                names@.map_values(|r: Referent| r@) == render_names(*self).take(i as int),
            decreases self.0.len() - i,
        {
            let ghost before = names@.map_values(|r: Referent| r@);
            names.push(Referent(self.0[i].0.clone()));
            assert(names@.map_values(|r: Referent| r@) =~= before.push(self.0@[i as int].0@));
            assert(render_names(*self).take(i + 1) =~= render_names(*self).take(i as int).push(self.0@[i as int].0@));
            i = i + 1;
        }
        assert(render_names(*self).take(self.0.len() as int) =~= render_names(*self));
        let r = ReferentSelection::AnyReferent(Referents(names));
        assert(r@ == ReferentSelectionView::AnyReferent(render_names(*self)));
        r
    }
}

impl RenderDirectory {
    pub fn new(directory: String) -> (r: Self)
        ensures
            r.0 == directory,
    {
        RenderDirectory(directory)
    }
}

impl RenderRequest {
    pub fn new(referents: RenderReferents, output_directory: Option<RenderDirectory>) -> (r: Self)
        ensures
            r.referents == referents,
            r.output_directory == output_directory,
    {
        RenderRequest { referents, output_directory }
    }

    /// A request must name at least one referent.
    pub fn validate(self) -> (r: Result<Self, RenderError>)
        ensures
            self.referents.0.len() == 0 ==> r matches Err(RenderError::EmptyReferents),
            self.referents.0.len() > 0 ==> r == Ok::<Self, RenderError>(self),
    {
        if self.referents.0.len() == 0 {
            Err(RenderError::EmptyReferents)
        } else {
            Ok(self)
        }
    }

    /// The query the render observes with.
    pub fn query(&self) -> (r: Query)
        ensures
            r@ == render_query(render_names(self.referents)),
    {
        Query {
            domain_match: DomainMatch::Any,
            keyword_match: KeywordMatch::Any,
            text_match: TextMatch::Any,
            referent_selection: self.referents.referent_selection(),
            selected_kind: None,
            privacy_selection: PrivacySelection::exact(Privacy(Magnitude::Zero)),
            certainty_selection: CertaintySelection::at_least_certainty(Certainty(Magnitude::Minimum)),
            importance_selection: ImportanceSelection::Any,
        }
    }

    /// The file the render writes: `spirit.nota` in the named directory,
    /// else in the current one.
    pub fn output_path(&self, current_directory: &String) -> (r: String)
        ensures
            r@ == output_file(
                match self.output_directory {
                    Some(d) => d.0@,
                    None => current_directory@,
                },
            ),
    {
        let directory = match &self.output_directory {
            Some(d) => &d.0,
            None => current_directory,
        };
        proof {
            reveal_strlit("spirit.nota");
            reveal_strlit("/spirit.nota");
        }
        let n = directory.as_str().unicode_len();
        if n == 0 {
            "spirit.nota".to_string()
        } else {
            let last = directory.as_str().get_char(n - 1);
            let mut out = directory.clone();
            if last == '/' {
                out.append("spirit.nota");
            } else {
                out.append("/spirit.nota");
            }
            out
        }
    }
}

impl RenderInput {
    /// The request, once validated.
    pub fn into_request(self) -> (r: Result<RenderRequest, RenderError>)
        ensures
            match self {
                RenderInput::Render(request) => (request.referents.0.len() == 0 ==> r matches Err(
                    RenderError::EmptyReferents,
                )) && (request.referents.0.len() > 0 ==> r == Ok::<RenderRequest, RenderError>(request)),
            },
    {
        match self {
            RenderInput::Render(request) => request.validate(),
        }
    }
}

impl RenderInputSource {
    pub fn new(text: String) -> (r: Self)
        ensures
            r.text == text,
    {
        RenderInputSource { text }
    }
}

impl RenderClient {
    pub fn new(socket_path: String) -> (r: Self)
        ensures
            r.socket_path == socket_path,
    {
        RenderClient { socket_path }
    }

    /// Read the daemon's answer to a marker request: only a marker report
    /// will do.
    pub fn marker_from_output(output: Output) -> (r: Result<Output, Output>)
        ensures
            output is MarkerReported ==> r == Ok::<Output, Output>(output),
            !(output is MarkerReported) ==> r == Err::<Output, Output>(output),
    {
        match output {
            Output::MarkerReported(marker) => Ok(Output::MarkerReported(marker)),
            other => Err(other),
        }
    }

    /// Read the daemon's answer to the observation: observed records stand;
    /// a stashed observation gives its records; a miss because nothing
    /// matched gives no records; anything else is unexpected.
    pub fn records_from_output(output: Output) -> (r: Result<Vec<ObservedRecord>, Output>)
        ensures
            match output {
                Output::RecordsObserved(records) => r == Ok::<Vec<ObservedRecord>, Output>(records),
                Output::RecordsStashed(stashed) => r == Ok::<Vec<ObservedRecord>, Output>(stashed.observed_records),
                Output::Error(text) => if text@ == crate::sema::no_match_text() {
                    r matches Ok(v) && v@.len() == 0
                } else {
                    r == Err::<Vec<ObservedRecord>, Output>(output)
                },
                _ => r == Err::<Vec<ObservedRecord>, Output>(output),
            },
    {
        match output {
            Output::RecordsObserved(records) => Ok(records),
            Output::RecordsStashed(stashed) => Ok(stashed.observed_records),
            Output::Error(text) => {
                let no_match = "no matching record".to_string();
                proof {
                    reveal_strlit("no matching record");
                }
                if text == no_match {
                    Ok(Vec::new())
                } else {
                    Err(Output::Error(text))
                }
            },
            other => Err(other),
        }
    }
}

impl RenderTimestamp {
    pub fn new(unix_seconds: u64) -> (r: Self)
        ensures
            r.unix_seconds == unix_seconds,
    {
        RenderTimestamp { unix_seconds }
    }

    pub fn unix_seconds(&self) -> (r: u64)
        ensures
            r == self.unix_seconds,
    {
        self.unix_seconds
    }
}

impl RenderedIntent {
    pub fn new(request: RenderRequest, marker: Output, records: Output, timestamp: RenderTimestamp) -> (r: Self)
        ensures
            r.request == request,
            r.marker == marker,
            r.records == records,
            r.timestamp == timestamp,
    {
        RenderedIntent { request, marker, records, timestamp }
    }

    /// The rendered file: a header naming the generator, its version, the
    /// render time and the daemon's marker (`marker_text`, the marker reply
    /// in NOTA) and the filters the render applies, then `records_text`,
    /// the observed records in NOTA.
    pub fn document(&self, marker_text: &str, records_text: &str) -> (r: String)
        ensures
            r@ == rendered_document(
                crate::nexus::spirit_version_text(),
                self.timestamp.unix_seconds as nat,
                marker_text@,
                records_text@,
            ),
    {
        let mut out = ";; @generated by spirit-render\n;; generator-version: ".to_string();
        out.append(crate::nexus::spirit_version().as_str());
        out.append("\n;; generated-unix-timestamp-seconds: ");
        out.append(crate::store::decimal_of(self.timestamp.unix_seconds).as_str());
        out.append("\n;; spirit-marker: ");
        out.append(marker_text);
        out.append("\n;; privacy-filter: Zero\n;; certainty-filter: AtLeast Minimum\n;; criome-auth-reference: None\n");
        out.append(records_text);
        out.append("\n");
        out
    }
}

/// The text of a rendered file.
pub open spec fn rendered_document(version: Seq<char>, seconds: nat, marker: Seq<char>, records: Seq<char>) -> Seq<
    char,
> {
    ";; @generated by spirit-render\n;; generator-version: "@ + version + "\n;; generated-unix-timestamp-seconds: "@
        + crate::store::decimal_text(seconds) + "\n;; spirit-marker: "@ + marker
        + "\n;; privacy-filter: Zero\n;; certainty-filter: AtLeast Minimum\n;; criome-auth-reference: None\n"@
        + records + "\n"@
}

} // verus!
