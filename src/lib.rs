//! Identity graph, change reconciliation and filesystem-handle logic for a
//! locally mirrored cloud drive.

pub mod attributes;
pub mod drive;
pub mod drive_id;
pub mod feed;
pub mod filesystem;
pub mod id_table;
pub mod ipc;
pub mod lists;
pub mod laws;
pub mod meta;
pub mod path_resolver;
pub mod remote;
pub mod settings;
pub mod time_utils;

pub use crate::drive::{Drive, DriveObject, TrackingState};
pub use crate::drive_id::{DriveId, root_id};
pub use crate::feed::{ChangesPage, FeedError, GoogleDrive, PageStep};
pub use crate::filesystem::{Filesystem, HandleError, LookupStart, ShutdownRequest};
pub use crate::meta::{FileKind, FileState, Metadata, MetadataStore, Timestamp, write_metadata_file};
pub use crate::path_resolver::{PathResolveError, PathResolver, ReadDirResult};
pub use crate::remote::{Change, ChangeError, FileData, RemoteFile};
pub use crate::settings::GDriverSettings;
