//! Detection-and-aggregation engine for technology-stack inventories.
//!
//! The crate walks a snapshot of a repository's file tree (seen through a
//! provider capability), applies a compiled catalog of declarative rules,
//! and assembles a tree of detected components with their languages,
//! technologies and dependency triples.

pub mod analyser;
pub mod detectors;
pub mod helpers;
pub mod languages;
pub mod loader;
pub mod manifest;
pub mod matching;
pub mod payload;
pub mod provider;
pub mod regexes;
pub mod register;
pub mod rules;
pub mod strutil;
pub mod types;
