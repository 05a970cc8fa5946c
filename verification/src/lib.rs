//! Core library of a streaming novel-writing assistant.
//!
//! Its heart is the resilient streaming-completion engine: frame decoding
//! for chunked provider replies (`sse`), cross-chunk overlap deduplication
//! (`dedup`), the live-emission gate that keeps machine directives off the
//! display (`gate`), the bounded continuation controller that drives the
//! request rounds (`controller`), the provider adapter for the two wire
//! schemas (`provider`), and the per-identity cancellation registry
//! (`registry`). Around it stand the reply parser for file-modification
//! instructions (`parser`, `modification`), the story data model (`book`,
//! `outline`, `chat`), the compliance-scan normalizer (`risk`), export
//! helpers (`export`), workspace rules (`workspace`), and the
//! character-level text toolkit everything is proved on (`text`).
pub mod book;
pub mod chapters;
pub mod chat;
pub mod controller;
pub mod dedup;
pub mod export;
pub mod gate;
pub mod modification;
pub mod outline;
pub mod parser;
pub mod provider;
pub mod registry;
pub mod risk;
pub mod sse;
pub mod text;
pub mod workspace;
