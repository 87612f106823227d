//! Spirit: the durable intent service's verified core.

pub mod magnitude;
pub mod text;
pub mod record;
pub mod query;
pub mod error;
pub mod identifier;
pub mod referent;
pub mod justification;
pub mod digest;
pub mod store;
pub mod search;
pub mod verdict;
pub mod tables;
pub mod sema;
pub mod nexus;
pub mod guardian_prompt;
pub mod engine;
pub mod config;
pub mod criome_gate;
pub mod daemon;
pub mod guardian;
pub mod guardian_journal;
pub mod guardian_context;
pub mod apply_ingress;
pub mod origination;
pub mod shipper;
pub mod render;
pub mod trace_event;
pub mod migration;
pub mod laws;
pub mod ledger;
