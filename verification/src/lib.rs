//! Core of a self-hosted music library manager: a concurrent scan/ingest
//! pipeline, a physical file reorganizer, and an external metadata
//! enrichment service, all sharing one structural-operation lock and an
//! idempotent natural-key catalog.

pub mod catalog;
pub mod cover;
pub mod error;
pub mod fsmodel;
pub mod lock;
pub mod lyrics;
pub mod metadata;
pub mod organizer;
pub mod pathutil;
pub mod sanitize;
pub mod scan;
pub mod status;
pub mod tags;
