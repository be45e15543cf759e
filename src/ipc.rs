//! Requests and errors at the boundary between the sync service and the
//! filesystem adapter.

use vstd::prelude::*;

verus! {

/// An administrative request to the sync service.
#[derive(Debug, Clone, Copy, PartialEq, Eq, Structural)]
pub enum BackendActionRequest {
    ShutdownGracefully,
    UpdateChanges,
    Ping,
    RunLong,
    StartLong,
}

/// Reading the settings failed.
#[derive(Debug, Clone, Copy, PartialEq, Eq, Structural)]
pub enum GetSettingsError {
    Unknown,
}

/// An administrative request failed.
#[derive(Debug, Clone, Copy, PartialEq, Eq, Structural)]
pub enum BackendActionError {
    Unknown,
    CouldNotComplete,
}

/// Resolving a name or a path failed.
#[derive(Debug, Clone, PartialEq, Eq)]
pub enum GetFileByPathError {
    Other,
    InvalidName,
    NotFound,
    Update(String),
}

/// A reconciliation pass failed.
#[derive(Debug, Clone, Copy, PartialEq, Eq, Structural)]
pub enum UpdateChangesError {
    Other,
    Remote,
    Running,
}

/// Writing a local change failed.
#[derive(Debug, Clone, Copy, PartialEq, Eq, Structural)]
pub enum WriteLocalChangeError {
    RemoteChanged,
    UnknownId,
    NotAllowed,
    Other,
}

/// Making an object's metadata available failed.
#[derive(Debug, Clone, Copy, PartialEq, Eq, Structural)]
pub enum GetMetadataError {
    DownloadError,
    Other,
}

/// Fetching an object's content failed.
#[derive(Debug, Clone, Copy, PartialEq, Eq, Structural)]
pub enum GetContentError {
    Other,
}

/// Listing a directory failed.
#[derive(Debug, Clone, Copy, PartialEq, Eq, Structural)]
pub enum GetFileListError {
    NotFound,
    Other,
}

/// Marking an object as deleted failed.
#[derive(Debug, Clone, Copy, PartialEq, Eq, Structural)]
pub enum MarkFileAsDeletedError {
    Other,
}

/// Marking an object to be kept locally failed.
#[derive(Debug, Clone, Copy, PartialEq, Eq, Structural)]
pub enum MarkFileForKeepingLocalError {
    Other,
}

/// Unmarking an object kept locally failed.
#[derive(Debug, Clone, Copy, PartialEq, Eq, Structural)]
pub enum UnmarkFileForKeepingLocalError {
    Other,
}

/// Any error that the sync service can answer with.
#[derive(Debug, Clone, PartialEq, Eq)]
pub enum GDriverServiceError {
    GetSettings(GetSettingsError),
    BackendAction(BackendActionError),
    GetFileByPath(GetFileByPathError),
    UpdateChanges(UpdateChangesError),
    WriteLocalChange(WriteLocalChangeError),
    GetMetadata(GetMetadataError),
    GetContent(GetContentError),
    GetFileList(GetFileListError),
    MarkFileAsDeleted(MarkFileAsDeletedError),
    MarkFileForKeepingLocal(MarkFileForKeepingLocalError),
    UnmarkFileForKeepingLocal(UnmarkFileForKeepingLocalError),
}

} // verus!
