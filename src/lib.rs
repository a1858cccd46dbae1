//! A gateway core that unifies content sources under `namespace/path`
//! addresses.
//!
//! - `gopher`: the menu protocol's items, listing parser and request framing.
//! - `store`: the content store, namespace to path to entry.
//! - `router`: dispatch of requests by address, search fallback, write checks.
//! - `mirror`: recursive copying as a machine of browse and copy steps.
//! - `fs`: the filesystem adapter's sandboxing, listings and store updates.
//! - `feed`, `graph`, `sources`: how the feed and graph adapters fill the store.
//! - `config`, `client`, `tui`, `mcp`: configuration and the front ends' logic.
//! - `text`: character-level helpers shared by the rest.
//!
//! Transport, disk access and parsing of feed and graph documents are the
//! caller's: the library takes their results as plain values.
use vstd::prelude::*;

pub mod text;
pub mod gopher;
pub mod store;
pub mod adapters;
pub mod router;
pub mod mirror;
pub mod fs;
pub mod sources;
pub mod graph;
pub mod feed;
pub mod config;
pub mod client;
pub mod tui;
pub mod mcp;

verus! {

} // verus!
