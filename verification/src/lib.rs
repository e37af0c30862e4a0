//! Verified core of a catalog-item download tool.
//!
//! The library models catalog Items with their assets and links, and proves
//! the decisions the tool makes: how a batch of concurrent asset downloads is
//! planned and settled, how partial failure is classified and reported, how
//! an Item's links are rewritten once its assets are on disk, and how a
//! validation report is rendered. Reading, streaming, rendering and the
//! command line live outside the library and only hand it plain values.

pub mod batch;
pub mod fetch;
pub mod links;
pub mod model;
pub mod report;
pub mod urls;
