//! The daemon's decisions around the engine: which working input opens an
//! intent subscription, which reply carries its token, and which reply is
//! announced to subscribers as an intent event.

use vstd::prelude::*;

use crate::config::Configuration;
use crate::engine::Engine;
use crate::nexus::{Input, IntentEvent, Nexus, Output};
use crate::query::Query;
use crate::store::entry_of;

verus! {

/// The Spirit daemon's decision surface.
#[derive(Debug)]
pub struct SpiritDaemon;

/// The Spirit daemon with its configuration; running it binds the sockets.
#[derive(Debug)]
pub struct Daemon {
    pub configuration: Configuration,
}

impl Daemon {
    pub fn new(configuration: Configuration) -> (r: Self)
        ensures
            r.configuration == configuration,
    {
        Daemon { configuration }
    }
}

impl SpiritDaemon {
    /// The filter a subscription opens with: the query of an intent
    /// subscription, nothing for any other input.
    pub fn subscription_filter(input: &Input) -> (r: Option<&Query>)
        ensures
            match *input {
                Input::SubscribeIntent(query) => r == Some(&query),
                _ => r is None,
            },
    {
        match input {
            Input::SubscribeIntent(query) => Some(query),
            _ => None,
        }
    }

    /// The token a reply carries when it started a subscription.
    pub fn subscription_token(output: &Output) -> (r: Option<u64>)
        ensures
            match *output {
                Output::SubscriptionStarted(token) => r == Some(token),
                _ => r is None,
            },
    {
        match output {
            Output::SubscriptionStarted(token) => Some(*token),
            _ => None,
        }
    }

    /// The intent event a reply announces: a recorded or proposed record,
    /// a clarification, a supersession or a retirement; nothing for any
    /// other reply, nor for a record already gone.
    pub fn published_event(engine: &Engine, output: &Output) -> (r: Option<IntentEvent>)
        requires
            engine.well_formed(),
        ensures
            match *output {
                Output::RecordAccepted(id) | Output::Proposed(id) => match entry_of(
                    engine.spec_nexus().spec_store()@.records,
                    id.0@,
                ) {
                    Some(e) => r matches Some(IntentEvent::IntentRecorded { entry, record_identifier })
                        && entry@ == e && record_identifier == id,
                    None => r is None,
                },
                Output::Clarified(receipt) => match entry_of(
                    engine.spec_nexus().spec_store()@.records,
                    receipt.0.0@,
                ) {
                    Some(e) => r matches Some(IntentEvent::IntentClarified { record_identifier, entry })
                        && entry@ == e && record_identifier == receipt.0,
                    None => r is None,
                },
                Output::Superseded(receipt) => r matches Some(IntentEvent::IntentSuperseded {
                    retired_identifiers,
                    replacements,
                    record_identifiers,
                }) && retired_identifiers@ == receipt.retired_identifiers@ && record_identifiers@
                    == receipt.record_identifiers@,
                Output::Retired(receipt) => r == Some(IntentEvent::IntentRetired(receipt.0)),
                _ => r is None,
            },
    {
        let nexus = engine.nexus();
        match output {
            Output::RecordAccepted(record_identifier) => nexus.intent_recorded_event(record_identifier),
            Output::Proposed(record_identifier) => nexus.intent_recorded_event(record_identifier),
            Output::Clarified(receipt) => nexus.intent_clarified_event(receipt),
            Output::Superseded(receipt) => Some(nexus.intent_superseded_event(receipt)),
            Output::Retired(receipt) => Some(nexus.intent_retired_event(receipt)),
            _ => None,
        }
    }
}

} // verus!
