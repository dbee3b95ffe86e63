//! What the server knows of one source file.

use std::collections::HashSet;
use vstd::prelude::*;

verus! {

/// How far the load of a source file has come.
#[derive(Debug, Clone, Copy, PartialEq, Eq, Structural)]
pub enum SourceLoadState {
    /// No load was requested.
    Unrequested,
    /// A load was requested and has not finished.
    Loading,
    /// The last load failed.
    Failed,
    /// The last load finished and its assets are stored.
    Complete,
}

/// The record of one source file: how many loads of it were issued, and the
/// labels whose assets stand in their table as the latest load produced them.
/// Labels are held by their digest.
pub struct SourceInfo {
    pub committed_assets: HashSet<u64>,
    pub version: usize,
}

/// A source record as contracts see it.
pub struct SourceState {
    pub version: usize,
    pub committed: Set<u64>,
}

impl View for SourceInfo {
    type V = SourceState;

    open spec fn view(&self) -> SourceState {
        SourceState { version: self.version, committed: self.committed_assets@ }
    }
}

impl SourceInfo {
    /// The record of a file of which no load was issued yet.
    pub fn new() -> (info: Self)
        ensures
            info@ == unrequested(),
    {
        SourceInfo { committed_assets: HashSet::new(), version: 0 }
    }
}

/// The state of a file of which no load was issued yet.
pub open spec fn unrequested() -> SourceState {
    SourceState { version: 0, committed: Set::empty() }
}

} // verus!
