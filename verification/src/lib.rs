//! Core of a local-first search engine over Markdown and PDF notes: chunking,
//! ingestion planning, ranking, debouncing and the small rules around them.

pub mod batching;
pub mod chunker;
pub mod chunker_laws;
pub mod clock;
pub mod commands;
pub mod config;
pub mod context;
pub mod embeddings;
pub mod hashing;
pub mod ingest;
pub mod models;
pub mod ocr;
pub mod pdf_parser;
pub mod progress;
pub mod search;
pub mod smart_diff;
pub mod store;
pub mod text;
pub mod watcher;
pub mod watcher_laws;
pub mod web_clip;
