//! Objects and change records as the remote service reports them, their
//! conversion to metadata, and the normalisation of the root's alias.

use vstd::prelude::*;
use crate::drive_id::{DriveId, root_id, root_id_view};
use crate::meta::{DEFAULT_PERMISSIONS, FileKind, FileState, Metadata, MetadataView, Timestamp};
use crate::path_resolver::str_equal;

verus! {

/// An object as the remote service reports it; every field may be absent.
#[derive(Debug, PartialEq, Eq)]
pub struct RemoteFile {
    pub id: Option<String>,
    pub name: Option<String>,
    pub size: Option<i64>,
    pub mime_type: Option<String>,
    pub kind: Option<String>,
    pub md5_checksum: Option<String>,
    pub parents: Option<Vec<String>>,
    pub trashed: Option<bool>,
    pub created_time: Option<Timestamp>,
    pub modified_time: Option<Timestamp>,
    pub viewed_by_me_time: Option<Timestamp>,
}

/// The content of a remote object.
pub struct RemoteFileView {
    pub id: Option<Seq<char>>,
    pub name: Option<Seq<char>>,
    pub size: Option<i64>,
    pub mime_type: Option<Seq<char>>,
    pub kind: Option<Seq<char>>,
    pub md5_checksum: Option<Seq<char>>,
    pub trashed: Option<bool>,
    pub created_time: Option<Timestamp>,
    pub parents: Option<Seq<Seq<char>>>,
    pub modified_time: Option<Timestamp>,
    pub viewed_by_me_time: Option<Timestamp>,
}

/// The view of an optional string.
pub open spec fn opt_str(s: Option<String>) -> Option<Seq<char>> {
    match s {
        Some(x) => Some(x@),
        None => None,
    }
}

impl View for RemoteFile {
    type V = RemoteFileView;

    open spec fn view(&self) -> RemoteFileView {
        RemoteFileView {
            id: opt_str(self.id),
            name: opt_str(self.name),
            size: self.size,
            mime_type: opt_str(self.mime_type),
            kind: opt_str(self.kind),
            md5_checksum: opt_str(self.md5_checksum),
            trashed: self.trashed,
            created_time: self.created_time,
            parents: match self.parents {
                Some(p) => Some(p.deep_view()),
                None => None,
            },
            modified_time: self.modified_time,
            viewed_by_me_time: self.viewed_by_me_time,
        }
    }
}

/// One record of the remote change feed.
#[derive(Debug, PartialEq, Eq)]
pub struct Change {
    pub removed: Option<bool>,
    pub file_id: Option<String>,
    pub file: Option<RemoteFile>,
}

/// The content of a change record.
pub struct ChangeView {
    pub removed: bool,
    pub file_id: Option<Seq<char>>,
    pub file: Option<RemoteFileView>,
}

impl View for Change {
    type V = ChangeView;

    open spec fn view(&self) -> ChangeView {
        ChangeView {
            removed: self.removed == Some(true),
            file_id: opt_str(self.file_id),
            file: match self.file {
                Some(f) => Some(f@),
                None => None,
            },
        }
    }
}

/// Why a change record or a listed object could not be taken in.
#[derive(Debug, Clone, Copy, PartialEq, Eq, Structural)]
pub enum ChangeError {
    /// A record that is not a removal carries no object.
    MissingFile,
    /// A record names no object id.
    MissingId,
    /// The object's kind is none that the mirror knows.
    UnknownKind,
    /// Removals are not supported yet.
    RemovalUnsupported,
}

/// The kind that a remote kind string denotes.
pub open spec fn kind_of(s: Seq<char>) -> Option<FileKind> {
    if s == seq!['d', 'r', 'i', 'v', 'e', '#', 'f', 'i', 'l', 'e'] {
        Some(FileKind::File)
    } else if s == seq!['d', 'r', 'i', 'v', 'e', '#', 'f', 'o', 'l', 'd', 'e', 'r'] {
        Some(FileKind::Directory)
    } else if s == seq!['d', 'r', 'i', 'v', 'e', '#', 'l', 'i', 'n', 'k'] {
        Some(FileKind::Symlink)
    } else {
        None
    }
}

/// Reads a remote kind string.
pub fn parse_kind(s: &str) -> (r: Option<FileKind>)
    ensures
        r == kind_of(s@),
{
    proof {
        reveal_strlit("drive#file");
        reveal_strlit("drive#folder");
        reveal_strlit("drive#link");
        assert("drive#file"@ =~= seq!['d', 'r', 'i', 'v', 'e', '#', 'f', 'i', 'l', 'e']);
        assert("drive#folder"@ =~= seq!['d', 'r', 'i', 'v', 'e', '#', 'f', 'o', 'l', 'd', 'e', 'r']);
        assert("drive#link"@ =~= seq!['d', 'r', 'i', 'v', 'e', '#', 'l', 'i', 'n', 'k']);
    }
    if str_equal(s, "drive#file") {
        Some(FileKind::File)
    } else if str_equal(s, "drive#folder") {
        Some(FileKind::Directory)
    } else if str_equal(s, "drive#link") {
        Some(FileKind::Symlink)
    } else {
        None
    }
}

/// A remote object with its defaults filled in.
#[derive(Debug, PartialEq, Eq)]
pub struct FileData {
    pub id: String,
    pub name: String,
    pub size: Option<i64>,
    pub mime_type: String,
    pub kind: FileKind,
    pub md5_checksum: Option<String>,
    pub parents: Vec<String>,
    pub trashed: Option<bool>,
    pub created_time: Option<Timestamp>,
    pub modified_time: Option<Timestamp>,
    pub viewed_by_me_time: Option<Timestamp>,
}

/// The content of a converted object.
pub struct FileDataView {
    pub id: Seq<char>,
    pub name: Seq<char>,
    pub size: Option<i64>,
    pub mime_type: Seq<char>,
    pub kind: FileKind,
    pub md5_checksum: Option<Seq<char>>,
    pub trashed: Option<bool>,
    pub created_time: Option<Timestamp>,
    pub parents: Seq<Seq<char>>,
    pub modified_time: Option<Timestamp>,
    pub viewed_by_me_time: Option<Timestamp>,
}

impl View for FileData {
    type V = FileDataView;

    open spec fn view(&self) -> FileDataView {
        FileDataView {
            id: self.id@,
            name: self.name@,
            size: self.size,
            mime_type: self.mime_type@,
            kind: self.kind,
            md5_checksum: opt_str(self.md5_checksum),
            trashed: self.trashed,
            created_time: self.created_time,
            parents: self.parents.deep_view(),
            modified_time: self.modified_time,
            viewed_by_me_time: self.viewed_by_me_time,
        }
    }
}

/// The string, or the empty string where it is absent.
pub open spec fn str_or_empty(s: Option<Seq<char>>) -> Seq<char> {
    match s {
        Some(x) => x,
        None => Seq::empty(),
    }
}

/// A remote object with defaults filled in: a missing parent list means the
/// root, and the kind string must be known.
pub open spec fn file_data_of(f: RemoteFileView) -> Result<FileDataView, ChangeError> {
    match kind_of(str_or_empty(f.kind)) {
        None => Err(ChangeError::UnknownKind),
        Some(kind) => Ok(
            FileDataView {
                id: str_or_empty(f.id),
                name: str_or_empty(f.name),
                size: f.size,
                mime_type: str_or_empty(f.mime_type),
                kind,
                md5_checksum: f.md5_checksum,
                trashed: f.trashed,
                created_time: f.created_time,
                parents: match f.parents {
                    Some(p) => p,
                    None => seq![root_id_view()],
                },
                modified_time: f.modified_time,
                viewed_by_me_time: f.viewed_by_me_time,
            },
        ),
    }
}

/// The instant, or the epoch where it is absent.
pub open spec fn time_or_epoch(t: Option<Timestamp>) -> Timestamp {
    match t {
        Some(x) => x,
        None => (0, 0),
    }
}

/// A reported size as a byte count; an absent or negative size counts as zero.
pub open spec fn size_of(s: Option<i64>) -> u64 {
    match s {
        Some(x) => if x >= 0 {
            x as u64
        } else {
            0
        },
        None => 0,
    }
}

/// The metadata record that a converted object stands for.
pub open spec fn meta_of(d: FileDataView) -> MetadataView {
    MetadataView {
        id: d.id,
        name: d.name,
        state: FileState::MetadataOnly,
        size: size_of(d.size),
        last_accessed: time_or_epoch(d.viewed_by_me_time),
        last_modified: time_or_epoch(d.modified_time),
        last_metadata_changed: time_or_epoch(d.modified_time),
        kind: d.kind,
        permissions: DEFAULT_PERMISSIONS,
        extra_attributes: Seq::empty(),
    }
}

/// Copies a list of strings.
pub fn copy_strings(list: &Vec<String>) -> (r: Vec<String>)
    ensures
        r.deep_view() == list.deep_view(),
{
    proof {
        assert(crate::lists::clone_keeps_content::<String>());
    }
    crate::lists::copy_list(list)
}

fn string_or_empty(s: Option<String>) -> (r: String)
    ensures
        r@ == str_or_empty(opt_str(s)),
{
    match s {
        Some(x) => x,
        None => String::new(),
    }
}

impl FileData {
    /// Fills in the defaults of a reported object.
    pub fn convert_from_api_file(file: RemoteFile) -> (r: Result<FileData, ChangeError>)
        ensures
            match r {
                Ok(d) => file_data_of(file@) == Ok::<FileDataView, ChangeError>(d@),
                Err(e) => file_data_of(file@) == Err::<FileDataView, ChangeError>(e),
            },
    {
        let ghost fv = file@;
        let kind_text = string_or_empty(file.kind);
        let kind = match parse_kind(kind_text.as_str()) {
            Some(k) => k,
            None => return Err(ChangeError::UnknownKind),
        };
        let parents = match file.parents {
            Some(p) => p,
            None => {
                let mut v: Vec<String> = Vec::new();
                v.push(root_id().0);
                assert(v.deep_view() =~= seq![root_id_view()]);
                v
            },
        };
        let d = FileData {
            id: string_or_empty(file.id),
            name: string_or_empty(file.name),
            size: file.size,
            mime_type: string_or_empty(file.mime_type),
            kind,
            md5_checksum: file.md5_checksum,
            parents,
            trashed: file.trashed,
            created_time: file.created_time,
            modified_time: file.modified_time,
            viewed_by_me_time: file.viewed_by_me_time,
        };
        assert(d@ == file_data_of(fv).unwrap());
        Ok(d)
    }

    /// The metadata record that this object stands for.
    pub fn into_meta(self) -> (r: Metadata)
        ensures
            r@ == meta_of(self@),
    {
        let size: u64 = match self.size {
            Some(x) => if x >= 0 {
                x as u64
            } else {
                0
            },
            None => 0,
        };
        let last_modified: Timestamp = match self.modified_time {
            Some(t) => t,
            None => (0, 0),
        };
        let last_accessed: Timestamp = match self.viewed_by_me_time {
            Some(t) => t,
            None => (0, 0),
        };
        let r = Metadata {
            id: DriveId(self.id),
            name: self.name,
            state: FileState::MetadataOnly,
            size,
            last_accessed,
            last_modified,
            last_metadata_changed: last_modified,
            kind: self.kind,
            permissions: DEFAULT_PERMISSIONS,
            extra_attributes: Vec::new(),
        };
        assert(r@.extra_attributes =~= Seq::<(Seq<u8>, Seq<u8>)>::empty());
        r
    }
}

} // verus!
