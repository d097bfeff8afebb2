//! A repository of song lyrics and of the playlists that reference them,
//! persisted one file per entity and guarded by a membership invariant:
//! every playlist member names an existing lyric.
//!
//! The heart is the filesystem engine's logic: `repo` holds the
//! directory's state and applies every operation to it, `request` turns
//! each command into the one response, the file effects and the log entry
//! it earns, `parts` and `playlistfmt` define the two file formats with
//! their round-trip proofs, and `transaction` defines the append-only log
//! and its replay. `laws` states what holds across operations. The
//! unverified shell around this — the worker loop, the real file and
//! database access, the command line — lives outside the library and only
//! performs what these functions decide.

use vstd::prelude::*;

pub mod error;
pub mod id;
pub mod laws;
pub mod model;
pub mod parts;
pub mod playlistfmt;
pub mod repo;
pub mod request;
pub mod text;
pub mod transaction;

use crate::error::FileRepoError;

verus! {

/// Configuration of the filesystem backend: the directory that holds one
/// file per entity plus the transaction log.
#[derive(Debug, Clone)]
pub struct FileRepoConfig {
    pub path: String,
}

/// Wraps a value in a successful repository result.
pub fn identity<T>(t: T) -> (r: Result<T, FileRepoError>)
    ensures
        r == Ok::<T, FileRepoError>(t),
{
    Ok(t)
}

/// Discards a value, keeping only the side effect of the call that produced it.
pub fn ignore<T>(_t: T) {
}

} // verus!
