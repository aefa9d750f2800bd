use vstd::prelude::*;

verus! {

/// Why the store refused something.
#[derive(Debug, PartialEq, Eq)]
pub enum SyncError {
    /// An action does not chain from the action that should precede it.
    ParentMismatch,
    /// A stored signature differs from the one computed.
    SignatureMismatch,
    /// A remote-side operation was handed an unsigned record.
    MissingRemoteSignature,
    /// A local record where a remote one belongs, or the reverse.
    WrongSide,
    /// A create where a patch belongs, or the reverse.
    WrongKind,
    /// The pushed commit does not follow the last commit of the remote log.
    StalePush,
    /// The pulled commit does not follow the last remote commit held here.
    RemoteDivergence,
    /// The application's patch failed; its message is attached.
    PatchFailed(String),
    /// No object of the storage has the identifier.
    NotFound,
    /// A commit context is already open.
    ConcurrentCommitContext,
    /// A file did not hold what it should.
    PersistenceError,
    /// A storage of that name is registered already.
    DuplicateStorage,
    /// A request that cannot be read.
    BadRequest,
}

impl SyncError {
    /// A short text for people.
    pub fn message(&self) -> (text: &'static str)
        ensures
            text@ == self.message_text(),
    {
        match self {
            SyncError::ParentMismatch => "parent action id mismatch",
            SyncError::SignatureMismatch => "signature mismatch",
            SyncError::MissingRemoteSignature => "remote signature missing",
            SyncError::WrongSide => "record is on the wrong side",
            SyncError::WrongKind => "action is of the wrong kind",
            SyncError::StalePush => "commit ancestor is stale, pull required",
            SyncError::RemoteDivergence => "remote log diverged",
            SyncError::PatchFailed(_) => "patch failed",
            SyncError::NotFound => "object not found",
            SyncError::ConcurrentCommitContext => "a commit context is already open",
            SyncError::PersistenceError => "persistence failed",
            SyncError::DuplicateStorage => "a storage of that name is registered already",
            SyncError::BadRequest => "the request cannot be read",
        }
    }

    /// The short text that says what kind of refusal this is. The message of
    /// a failed patch is not part of it.
    pub open spec fn message_text(&self) -> Seq<char> {
        match self {
            SyncError::ParentMismatch => "parent action id mismatch"@,
            SyncError::SignatureMismatch => "signature mismatch"@,
            SyncError::MissingRemoteSignature => "remote signature missing"@,
            SyncError::WrongSide => "record is on the wrong side"@,
            SyncError::WrongKind => "action is of the wrong kind"@,
            SyncError::StalePush => "commit ancestor is stale, pull required"@,
            SyncError::RemoteDivergence => "remote log diverged"@,
            SyncError::PatchFailed(_) => "patch failed"@,
            SyncError::NotFound => "object not found"@,
            SyncError::ConcurrentCommitContext => "a commit context is already open"@,
            SyncError::PersistenceError => "persistence failed"@,
            SyncError::DuplicateStorage => "a storage of that name is registered already"@,
            SyncError::BadRequest => "the request cannot be read"@,
        }
    }
}

} // verus!
