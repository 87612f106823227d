# spirit

Spirit is a durable intent service: it keeps the owner's standing
intentions as records (domains, kind, description, certainty, importance,
privacy, referents), answers queries and ranked text searches over them,
and puts every write before a guardian that can refuse it.

This crate is its verified core, written in Verus. Every function under
`src/` carries a contract that Verus proves: the store's reads give back
what its writes wrote, observations come most certain first, the
referent registry resolves every name it registered, the guardian fails
closed when no judgement can be had, and the decision plane answers every
request with one reply and one ledger line each way.

## Layout

- `src/store.rs`, `src/query.rs`, `src/record.rs`, `src/referent.rs`,
  `src/search.rs`: the record table, its predicates, the referent registry
  and public text search.
- `src/nexus.rs`, `src/sema.rs`, `src/tables.rs`, `src/engine.rs`,
  `src/ledger.rs`, `src/daemon.rs`: the decision plane, the engine around
  it and the mail ledger.
- `src/guardian*.rs`, `src/verdict.rs`: the guardian, its judge replies,
  the records it judges against, its journal and the text it is shown.
- `src/criome_gate.rs`, `src/apply_ingress.rs`: criome authorization and
  the authorized-apply ingress.
- `src/laws.rs`: the properties that span several operations, as proof
  functions.
- `app/`: what the library hands to the outside world: binary
  configuration files and record archives (rkyv), error types (thiserror),
  the clock, and the judge and criome round trips over a transport.
- `tests/`: the tests, run against the compiled library.
