//! Asset loading and caching.
//!
//! A file path, with an optional label for one of several assets in the file,
//! is turned into a typed value that lives in a per-type table. `asset` gives
//! paths their identity, `handle` the keys under which values are looked up,
//! `loader` what a loader fills while it reads a file, `asset_server` the
//! bookkeeping of requests, versions and finished loads, and `assets` the
//! typed table with its change events. `server_state` holds the server as
//! contracts see it, and what follows from its rules: a committed asset is
//! served without a new load, versions only grow, and of overlapping loads
//! of one file the last request wins. `hashtool` names strings by a 64-bit
//! digest and can give the string back.
//!
//! The server is a single-owner state machine: it records which loads are to
//! be started and decides what becomes of a finished one. Reading files and
//! running loads in the background is left to the caller.

use vstd::prelude::*;

pub mod asset;
pub mod asset_server;
pub mod assets;
pub mod handle;
pub mod hashtool;
pub mod loader;
pub mod server_state;
pub mod source;
mod table;

verus! {

/// The two phases of a tick in which assets are handled.
#[derive(Debug, Hash, PartialEq, Eq, Clone, Copy, Structural)]
pub enum AssetStage {
    /// Finished loads are drained into the tables.
    LoadAssets,
    /// The change events of the tables are handed on.
    AssetEvents,
}

/// Where the server reads assets from.
pub struct AssetServerSettings {
    pub asset_folder: String,
}

impl Default for AssetServerSettings {
    /// The folder `assets`.
    fn default() -> (settings: Self)
        ensures
            settings.asset_folder@ == "assets"@,
    {
        Self { asset_folder: "assets".to_owned() }
    }
}

} // verus!
