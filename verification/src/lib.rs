//! Proximity-search toolkit.
//!
//! The heart of a set of small HTTP-client tools: a paginated place
//! fetcher modelled as a state machine (`fetch`), a result set that
//! deduplicates places by identity (`places`), a binner that aggregates
//! places into fixed-width distance buckets (`bucket`, `binner`), and
//! two small helpers the other tools lean on: narrowing a list to
//! chosen positions (`selection`) and substring containment on bytes
//! (`substr`). Transport, terminal work and floating-point distance
//! measurement stay with the callers; everything here is exact and
//! verified.

pub mod bucket;
pub mod binner;
pub mod fetch;
pub mod places;
pub mod selection;
pub mod substr;
