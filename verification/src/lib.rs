//! Decoder for the ROOT columnar binary container format.
//!
//! A ROOT file holds a single table ("tree") whose columns ("branches") are
//! stored as independently compressed chunks ("baskets").  This crate parses
//! the binary layout, discovers the implicit row groups at which all column
//! chunk boundaries align, and decodes projected row ranges into typed
//! columnar buffers, caching the most recently materialized row group.
use vstd::prelude::*;

pub mod batch;
pub mod container;
pub mod decompress;
pub mod errors;
pub mod file;
pub mod file_item;
pub mod header;
pub mod projection;
pub mod rowgroup;
pub mod session;
pub mod table;
pub mod reader;
pub mod source;

verus! {

/// A row (tuple) identifier inside one file's table.
pub type Tid = u64;

} // verus!
