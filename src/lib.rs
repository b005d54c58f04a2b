//! Harvey slideware: slide file parsing with source provenance tracking.
//!
//! A slide file is scanned line by line into slides, each with a metadata
//! tree, content fragments and speaker notes. Every metadata block is parsed
//! under a handle from a [`registry::SourceRegistry`], so that later error
//! reports can say where a node came from.

pub mod lines;
pub mod ratio;
pub mod registry;
pub mod resources;
pub mod slides;
pub mod yaml;
