//! A resilient vector-store core: a local, persistable similarity index over
//! fixed-point embedding vectors, together with the pure decision logic of the
//! surrounding client — retry classification and scheduling, batch planning
//! for an embedding provider, and request building for a document database.
//!
//! Embedding components and similarity scores are fixed-point integers: a
//! component is an `i64` and a score of one is [`similarity::SCORE_ONE`].
//! Callers that hold floating-point vectors scale them into this range before
//! handing them to the library.

pub mod config;
pub mod error;
pub mod gateway;
pub mod pipeline;
pub mod retry;
pub mod similarity;
pub mod store;
pub mod storefile;
