//! Exact nearest-neighbour search over embedding vectors.
//!
//! Vector components and similarity scores are IEEE-754 binary32 numbers,
//! carried through this library as their 32-bit patterns: the library stores,
//! orders and persists them, and leaves the arithmetic on them to the metric
//! that the caller supplies.
//!
//! An index is built once from a batch of vectors, which get their row ids by
//! position ([`index`], [`store`]). A search scores every row against the
//! query and ranks the rows ([`ranking`], [`score`]); a query names the rows
//! found by their document identifiers ([`query`]). An index and the
//! identifiers of its rows are saved to a blob and loaded from it
//! ([`persistence`], [`format`], [`roundtrip`]). The rules of the program
//! around the engine, which scans folders for documents and answers queries
//! line by line, are in [`corpus`] and [`session`].

pub mod error;
pub mod score;
pub mod ranking;
pub mod index;
pub mod format;
pub mod persistence;
pub mod roundtrip;
pub mod query;
pub mod store;
pub mod corpus;
pub mod session;
