//! Verified core of a religious-text content service: entity model for
//! corpora, verses, chapters and Torah portions, translation resolution,
//! a read-through (cache-aside) fetch protocol over a keyed store, and a
//! ranked search aggregator for heterogeneous entity kinds.

pub mod errors;
pub mod corpora;
pub mod resolver;
pub mod codec;
pub mod cache;
pub mod fetch;
pub mod search;
pub mod qr;
