//! Ingestion/transform/delivery pipeline for a token-authenticated
//! event-collection endpoint: a byte-safe decoder, record normalization
//! heuristics, a cached script-transformation engine, and a batching
//! delivery client with retry and per-record failure diagnosis.

pub mod collector;
pub mod decoder;
pub mod delivery;
pub mod engine;
pub mod normalize;
pub mod provision;
pub mod record;
