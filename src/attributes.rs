//! Filesystem attributes derived from metadata records, and the error replies
//! that the adapter gives the operating system.

use vstd::prelude::*;
use crate::ipc::{
    GDriverServiceError, GetFileByPathError, GetFileListError, GetMetadataError, UpdateChangesError,
    WriteLocalChangeError,
};
use crate::meta::{ExtraAttribute, FileKind, Metadata, Timestamp, copy_attributes};

verus! {

/// The block size that block counts are given in.
pub const BLOCK_SIZE: u64 = 512;

/// The link count reported for every object; the remote model has no hard links.
pub const HARDLINKS: u32 = 0;

/// The number of blocks that `size` bytes occupy, rounded up.
pub fn block_count(size: u64) -> (r: u64)
    ensures
        r as int == (size as int + BLOCK_SIZE - 1) / BLOCK_SIZE as int,
{
    let whole = size / BLOCK_SIZE;
    if size % BLOCK_SIZE == 0 {
        whole
    } else {
        whole + 1
    }
}

/// The attributes that the adapter reports for a handle.
#[derive(Debug)]
pub struct InodeAttributes {
    pub inode: u64,
    pub open_file_handles: u64,
    pub size: u64,
    pub last_accessed: Timestamp,
    pub last_modified: Timestamp,
    pub last_metadata_changed: Timestamp,
    pub kind: FileKind,
    pub permissions: u16,
    pub hardlinks: u32,
    pub uid: u32,
    pub gid: u32,
    pub xattrs: Vec<ExtraAttribute>,
}

/// The attributes of the object of `metadata` under the handle `inode`,
/// owned by `uid` and `gid`.
pub fn read_inode_attributes_from_metadata(
    metadata: &Metadata,
    inode: u64,
    open_file_handles: u64,
    uid: u32,
    gid: u32,
) -> (r: InodeAttributes)
    ensures
        r.inode == inode,
        r.open_file_handles == open_file_handles,
        r.size == metadata.size,
        r.last_accessed == metadata.last_accessed,
        r.last_modified == metadata.last_modified,
        r.last_metadata_changed == metadata.last_metadata_changed,
        r.kind == metadata.kind,
        r.permissions == metadata.permissions,
        r.hardlinks == HARDLINKS,
        r.uid == uid,
        r.gid == gid,
        r.xattrs.deep_view() == metadata.extra_attributes.deep_view(),
{
    InodeAttributes {
        inode,
        open_file_handles,
        size: metadata.size,
        last_accessed: metadata.last_accessed,
        last_modified: metadata.last_modified,
        last_metadata_changed: metadata.last_metadata_changed,
        kind: metadata.kind,
        permissions: metadata.permissions,
        hardlinks: HARDLINKS,
        uid,
        gid,
        xattrs: copy_attributes(&metadata.extra_attributes),
    }
}

/// The namespace of an extended attribute's key.
#[derive(Debug, Clone, Copy, PartialEq, Eq, Structural)]
pub enum XattrNamespace {
    Security,
    System,
    Trusted,
    User,
}

/// Whether `s` begins with `p`.
pub open spec fn has_prefix(s: Seq<u8>, p: Seq<u8>) -> bool {
    p.len() <= s.len() && s.subrange(0, p.len() as int) == p
}

/// `user.`
pub open spec fn user_prefix() -> Seq<u8> {
    seq![117u8, 115, 101, 114, 46]
}

/// `system.`
pub open spec fn system_prefix() -> Seq<u8> {
    seq![115u8, 121, 115, 116, 101, 109, 46]
}

/// `trusted.`
pub open spec fn trusted_prefix() -> Seq<u8> {
    seq![116u8, 114, 117, 115, 116, 101, 100, 46]
}

/// `security`
pub open spec fn security_prefix() -> Seq<u8> {
    seq![115u8, 101, 99, 117, 114, 105, 116, 121]
}

/// The namespace that a key's prefix names, if any.
pub open spec fn namespace_of(key: Seq<u8>) -> Option<XattrNamespace> {
    if has_prefix(key, user_prefix()) {
        Some(XattrNamespace::User)
    } else if has_prefix(key, system_prefix()) {
        Some(XattrNamespace::System)
    } else if has_prefix(key, trusted_prefix()) {
        Some(XattrNamespace::Trusted)
    } else if has_prefix(key, security_prefix()) {
        Some(XattrNamespace::Security)
    } else {
        None
    }
}

fn starts_with(s: &[u8], p: &[u8]) -> (r: bool)
    ensures
        r == has_prefix(s@, p@),
{
    if p.len() > s.len() {
        return false;
    }
    let mut i: usize = 0;
    while i < p.len()
        invariant
            i <= p.len(),
            p.len() <= s.len(),
            forall|j: int| 0 <= j < i ==> s@[j] == p@[j],
        decreases p.len() - i,
    {
        if s[i] != p[i] {
            assert(s@.subrange(0, p@.len() as int)[i as int] != p@[i as int]);
            return false;
        }
        i = i + 1;
    }
    assert(s@.subrange(0, p@.len() as int) =~= p@);
    true
}

/// Why an extended attribute cannot be handled.
#[derive(Debug, Clone, Copy, PartialEq, Eq, Structural)]
pub enum XattrError {
    /// The key lies in no supported namespace.
    NotSupported,
}

/// The namespace of an extended attribute's key.
pub fn parse_xattr_namespace(key: &[u8]) -> (r: Result<XattrNamespace, XattrError>)
    ensures
        match namespace_of(key@) {
            Some(n) => r == Ok::<XattrNamespace, XattrError>(n),
            None => r == Err::<XattrNamespace, XattrError>(XattrError::NotSupported),
        },
{
    let user: [u8; 5] = [117, 115, 101, 114, 46];
    let system: [u8; 7] = [115, 121, 115, 116, 101, 109, 46];
    let trusted: [u8; 8] = [116, 114, 117, 115, 116, 101, 100, 46];
    let security: [u8; 8] = [115, 101, 99, 117, 114, 105, 116, 121];
    assert(user@ =~= user_prefix());
    assert(system@ =~= system_prefix());
    assert(trusted@ =~= trusted_prefix());
    assert(security@ =~= security_prefix());
    if starts_with(key, user.as_slice()) {
        Ok(XattrNamespace::User)
    } else if starts_with(key, system.as_slice()) {
        Ok(XattrNamespace::System)
    } else if starts_with(key, trusted.as_slice()) {
        Ok(XattrNamespace::Trusted)
    } else if starts_with(key, security.as_slice()) {
        Ok(XattrNamespace::Security)
    } else {
        Err(XattrError::NotSupported)
    }
}

/// An error met while the adapter answers a call.
#[derive(Debug, Clone, PartialEq, Eq)]
pub enum FilesystemError {
    /// The request could not be carried to the sync service.
    Rpc,
    /// The name or the handle is unknown.
    NotFound,
    /// A local file could not be read or written.
    IO,
    /// The sync service answered with an error.
    Service(GDriverServiceError),
}

/// The failure that the adapter reports to the operating system.
#[derive(Debug, Clone, Copy, PartialEq, Eq, Structural)]
pub enum ErrorReply {
    /// The remote side failed.
    RemoteIo,
    /// A local read or write failed.
    Io,
    /// No such entry.
    NoEntry,
    /// The call should be retried later.
    Canceled,
}

/// The reply for an error that the sync service answered with: remote
/// failures are remote I/O errors, unknown names and ids mean no such entry,
/// and the rest are local I/O errors.
pub open spec fn service_reply(e: GDriverServiceError) -> ErrorReply {
    match e {
        GDriverServiceError::GetFileByPath(GetFileByPathError::NotFound) => ErrorReply::NoEntry,
        GDriverServiceError::GetFileByPath(GetFileByPathError::InvalidName) => ErrorReply::NoEntry,
        GDriverServiceError::GetFileByPath(GetFileByPathError::Update(_)) => ErrorReply::RemoteIo,
        GDriverServiceError::GetFileList(GetFileListError::NotFound) => ErrorReply::NoEntry,
        GDriverServiceError::GetMetadata(GetMetadataError::DownloadError) => ErrorReply::RemoteIo,
        GDriverServiceError::GetContent(_) => ErrorReply::RemoteIo,
        GDriverServiceError::UpdateChanges(UpdateChangesError::Remote) => ErrorReply::RemoteIo,
        GDriverServiceError::WriteLocalChange(WriteLocalChangeError::RemoteChanged) => ErrorReply::RemoteIo,
        GDriverServiceError::WriteLocalChange(WriteLocalChangeError::UnknownId) => ErrorReply::NoEntry,
        _ => ErrorReply::Io,
    }
}

/// The reply to a failed lookup: transport failures are remote I/O errors,
/// local failures I/O errors, an unknown name or handle means no such entry,
/// and the service's errors go by `service_reply`.
pub fn lookup_error_reply(e: &FilesystemError) -> (r: ErrorReply)
    ensures
        r == match e {
            FilesystemError::Rpc => ErrorReply::RemoteIo,
            FilesystemError::IO => ErrorReply::Io,
            FilesystemError::Service(s) => service_reply(*s),
            FilesystemError::NotFound => ErrorReply::NoEntry,
        },
{
    match e {
        FilesystemError::Rpc => ErrorReply::RemoteIo,
        FilesystemError::IO => ErrorReply::Io,
        FilesystemError::NotFound => ErrorReply::NoEntry,
        FilesystemError::Service(s) => match s {
            GDriverServiceError::GetFileByPath(GetFileByPathError::NotFound) => ErrorReply::NoEntry,
            GDriverServiceError::GetFileByPath(GetFileByPathError::InvalidName) => ErrorReply::NoEntry,
            GDriverServiceError::GetFileByPath(GetFileByPathError::Update(_)) => ErrorReply::RemoteIo,
            GDriverServiceError::GetFileList(GetFileListError::NotFound) => ErrorReply::NoEntry,
            GDriverServiceError::GetMetadata(GetMetadataError::DownloadError) => ErrorReply::RemoteIo,
            GDriverServiceError::GetContent(_) => ErrorReply::RemoteIo,
            GDriverServiceError::UpdateChanges(UpdateChangesError::Remote) => ErrorReply::RemoteIo,
            GDriverServiceError::WriteLocalChange(WriteLocalChangeError::RemoteChanged) => ErrorReply::RemoteIo,
            GDriverServiceError::WriteLocalChange(WriteLocalChangeError::UnknownId) => ErrorReply::NoEntry,
            _ => ErrorReply::Io,
        },
    }
}

/// The reply to a failed start-up pass: a transport failure asks to retry
/// later, any other failure reports an I/O error.
pub fn init_error_reply(e: &FilesystemError) -> (r: ErrorReply)
    ensures
        r == match e {
            FilesystemError::Rpc => ErrorReply::Canceled,
            _ => ErrorReply::Io,
        },
{
    match e {
        FilesystemError::Rpc => ErrorReply::Canceled,
        _ => ErrorReply::Io,
    }
}

/// The offset that the directory entry at position `index` of a listing
/// that starts at `start` is reported with: the position after it, where it
/// fits the kernel's signed offsets.
pub fn readdir_offset(start: u64, index: usize) -> (r: Option<i64>)
    ensures
        r == if start as int + index as int + 1 <= i64::MAX as int {
            Some((start as int + index as int + 1) as i64)
        } else {
            None::<i64>
        },
{
    if start > i64::MAX as u64 || index as u64 > i64::MAX as u64 - start {
        return None;
    }
    let sum = start + index as u64;
    if sum >= i64::MAX as u64 {
        return None;
    }
    Some((sum + 1) as i64)
}

} // verus!
