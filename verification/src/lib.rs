//! A small semantic search engine library: a crawl frontier with dedup,
//! depth and domain bounds; an embedding pipeline with enrichment fallback
//! for out-of-vocabulary tokens; a vector index answering k-nearest-neighbor
//! queries; a peer registry; and a ranked query resolver tying them together.
//!
//! Vector arithmetic is injected through the [`vector::VectorArith`] trait so
//! that the averaging and ranking algorithms are verified independently of
//! the numeric representation a host process chooses.
#![verifier::loop_isolation(false)]
pub mod assoc;
pub mod embed;
pub mod enrich;
pub mod entry;
pub mod frontier;
pub mod index;
pub mod peers;
pub mod query;
pub mod store;
pub mod table;
pub mod vector;
