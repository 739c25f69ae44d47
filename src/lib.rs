//! Local semantic search over plain-text documents: passage segmentation,
//! vector encoding for storage, the in-memory vector cache, and the ranking
//! and fallback rules of the search engine.
pub mod cache;
pub mod codec;
pub mod encoder;
pub mod ingest;
pub mod rank;
pub mod search;
pub mod segment;
pub mod status;
pub mod text;
