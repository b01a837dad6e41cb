//! Errors of the file systems and of the repository operations.

use vstd::prelude::*;

use crate::branch::BranchName;
use crate::file_system::FilePath;
use crate::object::ObjHash;
use crate::object::commit::CommitHash;

verus! {

/// An error of a file system; each variant carries the path it concerns.
#[derive(Debug, Clone, PartialEq, Eq)]
pub enum FsError {
    /// The path names no entry.
    NotFound(String),
    /// A file was expected, a directory was found.
    ExpectedFile(String),
    /// A directory was expected, a file was found.
    ExpectedDir(String),
    /// Any other failure of the underlying storage.
    Other(String),
}

/// An error of a repository operation.
#[derive(Debug, Clone, PartialEq, Eq)]
pub enum Error {
    Io(FsError),
    NotfoundHead(BranchName),
    NotfoundObj(ObjHash),
    NotfoundTrace(CommitHash),
    NotfoundWorkspaceFile(FilePath),
    NotfoundLocalCommits,

    NotfoundStages,
    InvalidWorkspaceObj,
    InvalidObjBuffer,
    InvalidUtf8,
    RepositoryAlreadyInitialized,
    ChangedFileNotExits,
    UnrelatedHistories,
    FailedConnectServer(String),
    Json,
    Compression,
}

pub type Result<T = ()> = core::result::Result<T, Error>;

/// An error that reading or writing the repository's data gives: the
/// storage failed, data is missing, or data does not decode. The other
/// errors are the ones that the operations decide on.
pub open spec fn is_data_error(e: Error) -> bool {
    ||| e is Io
    ||| e is NotfoundHead
    ||| e is NotfoundObj
    ||| e is NotfoundTrace
    ||| e is NotfoundWorkspaceFile
    ||| e is NotfoundLocalCommits
    ||| e is InvalidWorkspaceObj
    ||| e is InvalidObjBuffer
    ||| e is InvalidUtf8
    ||| e is Json
    ||| e is Compression
}

} // verus!
