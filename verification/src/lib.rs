//! Orbweaver: ecosystem intelligence over a set of repositories.

pub mod text;
pub mod model;
pub mod lexer;
pub mod rust_scan;
pub mod schemas;
pub mod interfaces;
pub mod process;
pub mod probe;
pub mod connectors;
pub mod resolve;
pub mod document;
pub mod manifests;
pub mod gomod;
pub mod analysis;
pub mod graph;
pub mod capabilities;
pub mod ingest;
pub mod storage;
pub mod discover;
pub mod report;
pub mod reading_laws;
pub mod laws;
