use vstd::prelude::*;

verus! {

/// The error taxonomy shared by every repository backend.
///
/// `NotFound` reports a get on an identifier without a stored entity,
/// `PlaylistInvalidMember` a playlist upsert whose member list names a
/// lyric that does not exist (it carries the playlist id and the offending
/// member id, both in hyphenated text form), `Parse` a file that could not
/// be read as an entity, `IOError` a failure of the underlying storage,
/// and `SendFailed` / `Canceled` / `Stop` the channel-level outcomes of the
/// single-writer worker.
#[derive(Debug, Clone, PartialEq, Eq)]
pub enum FileRepoError {
    Filestem(Option<String>),
    IOError(String),
    PlaylistInvalidMember(String, String),
    CannotFindDirectory(Option<String>),
    NotFound(String),
    SendFailed(String),
    Canceled,
    Parse(String),
    Stop,
}

} // verus!
