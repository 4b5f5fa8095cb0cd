//! Videee's core logic: export formats, clip bookkeeping, sidecar handling and
//! the decisions behind scanning, watching and the DaVinci Resolve bridge.
use vstd::prelude::*;

pub mod text;
pub mod export;
pub mod paths;
pub mod metadata;
pub mod scanner;
pub mod bridge;
pub mod watcher;
pub mod cache;
pub mod library;

verus! {
} // verus!
