use gdriver::attributes::{
    block_count, init_error_reply, lookup_error_reply, parse_xattr_namespace,
    read_inode_attributes_from_metadata, ErrorReply, FilesystemError, XattrError, XattrNamespace,
};
use gdriver::feed::ChangesPage;
use gdriver::filesystem::{FIRST_FREE_INO, ROOT_INO};
use gdriver::ipc::{
    GDriverServiceError, GetFileByPathError, GetFileListError, GetMetadataError, UpdateChangesError,
};
use gdriver::settings::join;
use gdriver::time_utils::{epoch_offset_of, timestamp_from_epoch_offset};
use gdriver::{
    root_id, Change, DriveId, FeedError, Filesystem, GDriverSettings, GoogleDrive, HandleError,
    LookupStart, Metadata, RemoteFile,
};

fn id(s: &str) -> DriveId {
    DriveId(s.to_string())
}

#[test]
fn lookup_returns_same_handle_twice() {
    let mut fs = Filesystem::new();
    fs.init();
    let first = match fs.lookup_start(ROOT_INO, "a.txt") {
        LookupStart::Resolve(parent) => {
            assert_eq!(parent, root_id());
            fs.lookup_resolved(ROOT_INO, "a.txt".to_string(), &id("x")).unwrap()
        }
        other => panic!("unexpected {:?}", other),
    };
    let second = match fs.lookup_start(ROOT_INO, "a.txt") {
        LookupStart::Cached(ino, found) => {
            assert_eq!(found, id("x"));
            ino
        }
        other => panic!("unexpected {:?}", other),
    };
    assert_eq!(first, second);
    assert_eq!(first, FIRST_FREE_INO);
}

#[test]
fn handles_are_reused_per_id() {
    let mut fs = Filesystem::new();
    fs.init();
    let a = fs.get_ino_from_id(&id("x")).unwrap();
    let b = fs.get_ino_from_id(&id("y")).unwrap();
    let c = fs.get_ino_from_id(&id("x")).unwrap();
    assert_eq!(a, 222);
    assert_eq!(b, 223);
    assert_eq!(c, a);
    assert_eq!(fs.get_ino_from_id(&root_id()).unwrap(), 1);
    assert_eq!(fs.get_id_from_ino(223), Some(id("y")));
    assert_eq!(fs.get_id_from_ino(999), None);
}

#[test]
fn remove_id_unpairs() {
    let mut fs = Filesystem::new();
    let a = fs.get_ino_from_id(&id("x")).unwrap();
    assert_eq!(fs.remove_id(&id("x")), Ok(a));
    assert_eq!(fs.get_id_from_ino(a), None);
    assert_eq!(fs.remove_id(&id("x")), Err(HandleError::NotFound));
}

#[test]
fn lookup_under_unknown_parent_is_not_found() {
    let fs = Filesystem::new();
    assert_eq!(fs.lookup_start(5, "x"), LookupStart::NotFound);
}

#[test]
fn root_handle_after_init() {
    let mut fs = Filesystem::new();
    fs.init();
    assert_eq!(fs.get_id_from_ino(1), Some(root_id()));
}

#[test]
fn block_counts() {
    assert_eq!(block_count(0), 0);
    assert_eq!(block_count(1), 1);
    assert_eq!(block_count(512), 1);
    assert_eq!(block_count(513), 2);
    assert_eq!(block_count(u64::MAX), u64::MAX / 512 + 1);
}

#[test]
fn attributes_from_metadata() {
    let mut m = Metadata::root((3, 4));
    m.size = 1000;
    let a = read_inode_attributes_from_metadata(&m, 9, 2, 1000, 1001);
    assert_eq!(a.inode, 9);
    assert_eq!(a.open_file_handles, 2);
    assert_eq!(a.size, 1000);
    assert_eq!(a.last_modified, (3, 4));
    assert_eq!(a.hardlinks, 0);
    assert_eq!(a.uid, 1000);
    assert_eq!(a.gid, 1001);
}

#[test]
fn xattr_namespaces() {
    assert_eq!(parse_xattr_namespace(b"user.x"), Ok(XattrNamespace::User));
    assert_eq!(parse_xattr_namespace(b"system.posix"), Ok(XattrNamespace::System));
    assert_eq!(parse_xattr_namespace(b"trusted.a"), Ok(XattrNamespace::Trusted));
    assert_eq!(parse_xattr_namespace(b"security.selinux"), Ok(XattrNamespace::Security));
    assert_eq!(parse_xattr_namespace(b"usr"), Err(XattrError::NotSupported));
    assert_eq!(parse_xattr_namespace(b"other.thing"), Err(XattrError::NotSupported));
}

#[test]
fn error_replies() {
    assert_eq!(lookup_error_reply(&FilesystemError::Rpc), ErrorReply::RemoteIo);
    assert_eq!(lookup_error_reply(&FilesystemError::IO), ErrorReply::Io);
    assert_eq!(lookup_error_reply(&FilesystemError::NotFound), ErrorReply::NoEntry);
    let svc = FilesystemError::Service(GDriverServiceError::GetFileByPath(GetFileByPathError::NotFound));
    assert_eq!(lookup_error_reply(&svc), ErrorReply::NoEntry);
    let download = FilesystemError::Service(GDriverServiceError::GetMetadata(GetMetadataError::DownloadError));
    assert_eq!(lookup_error_reply(&download), ErrorReply::RemoteIo);
    let listing = FilesystemError::Service(GDriverServiceError::GetFileList(GetFileListError::NotFound));
    assert_eq!(lookup_error_reply(&listing), ErrorReply::NoEntry);
    let remote = FilesystemError::Service(GDriverServiceError::UpdateChanges(UpdateChangesError::Remote));
    assert_eq!(lookup_error_reply(&remote), ErrorReply::RemoteIo);
    let running = FilesystemError::Service(GDriverServiceError::UpdateChanges(UpdateChangesError::Running));
    assert_eq!(lookup_error_reply(&running), ErrorReply::Io);
    assert_eq!(init_error_reply(&FilesystemError::Rpc), ErrorReply::Canceled);
    assert_eq!(init_error_reply(&svc), ErrorReply::Io);
}

fn page(success: bool, next: Option<&str>, start: Option<&str>) -> ChangesPage {
    ChangesPage {
        success,
        next_page_token: next.map(|s| s.to_string()),
        new_start_page_token: start.map(|s| s.to_string()),
    }
}

#[test]
fn pagination_resumes_from_next_page() {
    let mut g = GoogleDrive::new();
    assert!(g.set_change_start_token("t0".to_string()));
    let step = g.on_changes_page(page(true, Some("t1"), None)).unwrap();
    assert_eq!(step.persist, Some("t1".to_string()));
    assert_eq!(step.next, Some("t1".to_string()));
    // the second page fails: the position stays after the first one
    assert_eq!(g.on_changes_page(page(false, None, Some("t9"))), Err(FeedError::Remote));
    assert_eq!(g.get_change_start_token(), Ok("t1".to_string()));
}

#[test]
fn last_page_sets_new_start_token() {
    let mut g = GoogleDrive::new();
    g.set_change_start_token("t0".to_string());
    let step = g.on_changes_page(page(true, None, Some("s1"))).unwrap();
    assert_eq!(step.persist, Some("s1".to_string()));
    assert_eq!(step.next, None);
    assert_eq!(g.get_change_start_token(), Ok("s1".to_string()));
    let again = g.on_changes_page(page(true, None, Some("s1"))).unwrap();
    assert_eq!(again.persist, None);
}

#[test]
fn token_bookkeeping() {
    let mut g = GoogleDrive::new();
    assert_eq!(g.get_change_start_token(), Err(FeedError::NoToken));
    assert!(!g.get_local_change_start_token(Some(String::new())));
    assert!(!g.get_local_change_start_token(None));
    assert!(g.get_local_change_start_token(Some("abc".to_string())));
    assert!(!g.set_change_start_token("abc".to_string()));
    assert!(g.set_change_start_token("abd".to_string()));
}

#[test]
fn root_alias_is_normalised() {
    let mut g = GoogleDrive::new();
    g.update_alt_root(Some("0AXYZ".to_string()));
    assert_eq!(g.map_id("0AXYZ".to_string()), "root");
    assert_eq!(g.map_id("other".to_string()), "other");
    let f = RemoteFile {
        id: Some("0AXYZ".to_string()),
        name: None,
        size: None,
        mime_type: None,
        kind: None,
        md5_checksum: None,
        parents: Some(vec!["0AXYZ".to_string(), "p".to_string()]),
        trashed: None,
        created_time: None,
        modified_time: None,
        viewed_by_me_time: None,
    };
    let c = g.map_id_in_change(Change { removed: None, file_id: Some("0AXYZ".to_string()), file: Some(f) });
    assert_eq!(c.file_id, Some("root".to_string()));
    let f = c.file.unwrap();
    assert_eq!(f.id, Some("root".to_string()));
    assert_eq!(f.parents, Some(vec!["root".to_string(), "p".to_string()]));
    g.update_alt_root(None);
    assert_eq!(g.root_alt_id, root_id());
}

#[test]
fn settings_paths() {
    let s = GDriverSettings::new(
        "/m".to_string(),
        "/c/".to_string(),
        "/d".to_string(),
        "/data".to_string(),
    );
    assert_eq!(s.get_metadata_file_path(&id("abc")), "/m/abc.meta");
    assert_eq!(s.get_cache_file_path(&id("abc")), "/c/abc");
    assert_eq!(s.get_downloaded_file_path(&id("abc")), "/d/abc");
    assert_eq!(s.get_changes_file_path(), "/data/changes.txt");
    assert_eq!(s.get_path_resolver_file_path(), "/data/relations.json");
    assert_eq!(s.data_path(), "/data");
    assert_eq!(join("", "x"), "x");
}

#[test]
fn epoch_offsets() {
    assert_eq!(epoch_offset_of((5, 7)), (false, 5, 7));
    assert_eq!(epoch_offset_of((-3, 0)), (true, 3, 0));
    assert_eq!(epoch_offset_of((-3, 2)), (true, 2, 999_999_998));
    assert_eq!(epoch_offset_of((i64::MIN, 0)), (true, 1u64 << 63, 0));
    assert_eq!(timestamp_from_epoch_offset(true, 3, 0), (-3, 0));
    assert_eq!(timestamp_from_epoch_offset(false, 9, 1), (9, 1));
}

#[test]
fn half_second_before_epoch_keeps_its_sign() {
    let t = timestamp_from_epoch_offset(true, 0, 500_000_000);
    assert_eq!(t, (-1, 500_000_000));
    assert_eq!(epoch_offset_of(t), (true, 0, 500_000_000));
}

#[test]
fn pre_epoch_timestamps_keep_their_order() {
    let earlier = timestamp_from_epoch_offset(true, 1, 200_000_000);
    let later = timestamp_from_epoch_offset(true, 1, 100_000_000);
    assert_eq!(earlier, (-2, 800_000_000));
    assert_eq!(later, (-2, 900_000_000));
    assert!(earlier < later);
    assert!(later < timestamp_from_epoch_offset(false, 0, 0));
}

#[test]
fn lookup_with_known_id_reuses_its_handle() {
    let mut fs = Filesystem::new();
    fs.init();
    let h = fs.get_ino_from_id(&id("x")).unwrap();
    assert_eq!(fs.lookup_resolved(ROOT_INO, "a".to_string(), &id("x")), Ok(h));
    assert_eq!(fs.get_ino_from_id(&id("y")).unwrap(), h + 1);
    assert_eq!(fs.lookup_start(ROOT_INO, "a"), LookupStart::Cached(h, id("x")));
}
