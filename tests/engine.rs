use gdriver::drive::Drive;
use gdriver::ipc::{GetFileByPathError, GetFileListError};
use gdriver::{
    root_id, Change, ChangeError, DriveId, FileData, FileKind, FileState, Metadata, MetadataStore,
    RemoteFile,
};

fn id(s: &str) -> DriveId {
    DriveId(s.to_string())
}

fn file(i: &str, name: &str, parents: &[&str], modified: (i64, u32)) -> RemoteFile {
    RemoteFile {
        id: Some(i.to_string()),
        name: Some(name.to_string()),
        size: Some(10),
        mime_type: Some("text/plain".to_string()),
        kind: Some("drive#file".to_string()),
        md5_checksum: None,
        parents: Some(parents.iter().map(|p| p.to_string()).collect()),
        trashed: Some(false),
        created_time: None,
        modified_time: Some(modified),
        viewed_by_me_time: Some(modified),
    }
}

fn change(i: &str, f: RemoteFile) -> Change {
    Change { removed: Some(false), file_id: Some(i.to_string()), file: Some(f) }
}

fn parents_of(d: &Drive, c: &str) -> Vec<String> {
    let mut v: Vec<String> =
        d.path_resolver().get_parents(&id(c)).unwrap().iter().map(|p| p.0.clone()).collect();
    v.sort();
    v
}

fn lists(d: &Drive, p: &str, c: &str) -> bool {
    d.path_resolver()
        .get_children(&id(p))
        .map(|l| l.iter().any(|e| e.id.0 == c))
        .unwrap_or(false)
}

fn snapshot(d: &Drive) -> (Vec<(String, Vec<String>)>, Vec<(String, Vec<String>)>, Vec<Metadata>) {
    let ids = ["root", "x", "a", "b", "c"];
    let ps = ids
        .iter()
        .filter_map(|i| {
            d.path_resolver()
                .get_parents(&id(i))
                .ok()
                .map(|l| (i.to_string(), l.iter().map(|p| p.0.clone()).collect()))
        })
        .collect();
    let cs = ids
        .iter()
        .filter_map(|i| {
            d.path_resolver()
                .get_children(&id(i))
                .ok()
                .map(|l| (i.to_string(), l.iter().map(|e| format!("{}:{}", e.id.0, e.name)).collect()))
        })
        .collect();
    let ms = ids.iter().filter_map(|i| d.metadata().read_metadata_by_id(&id(i)).ok()).collect();
    (ps, cs, ms)
}

#[test]
fn new_object_is_recorded() {
    let mut d = Drive::new(MetadataStore::new());
    assert_eq!(d.process_change(change("x", file("x", "a.txt", &["root"], (5, 0)))), Ok(()));
    assert_eq!(parents_of(&d, "x"), vec!["root"]);
    assert!(lists(&d, "root", "x"));
    let m = d.metadata().read_metadata_by_id(&id("x")).unwrap();
    assert_eq!(m.name, "a.txt");
    assert_eq!(m.size, 10);
    assert_eq!(m.state, FileState::MetadataOnly);
    assert_eq!(m.last_modified, (5, 0));
    assert_eq!(m.last_metadata_changed, (5, 0));
}

#[test]
fn same_change_twice_equals_once() {
    let mut d = Drive::new(MetadataStore::new());
    d.process_change(change("a", file("a", "dir", &["root"], (1, 0)))).unwrap();
    d.process_change(change("x", file("x", "f", &["a"], (1, 0)))).unwrap();
    let c = || change("x", file("x", "g", &["b", "c"], (9, 3)));
    d.process_change(c()).unwrap();
    let once = snapshot(&d);
    d.process_change(c()).unwrap();
    assert_eq!(snapshot(&d), once);
}

#[test]
fn stale_timestamp_does_not_roll_back() {
    let mut d = Drive::new(MetadataStore::new());
    d.process_change(change("x", file("x", "f", &["root"], (100, 0)))).unwrap();
    d.process_change(change("x", file("x", "f", &["root"], (50, 0)))).unwrap();
    let m = d.metadata().read_metadata_by_id(&id("x")).unwrap();
    assert_eq!(m.last_modified, (100, 0));
    d.process_change(change("x", file("x", "f", &["root"], (100, 7)))).unwrap();
    let m = d.metadata().read_metadata_by_id(&id("x")).unwrap();
    assert_eq!(m.last_modified, (100, 7));
}

#[test]
fn parent_set_is_replaced() {
    let mut d = Drive::new(MetadataStore::new());
    d.process_change(change("x", file("x", "f", &["a", "b"], (1, 0)))).unwrap();
    assert_eq!(parents_of(&d, "x"), vec!["a", "b"]);
    d.process_change(change("x", file("x", "f", &["b", "c"], (2, 0)))).unwrap();
    assert_eq!(parents_of(&d, "x"), vec!["b", "c"]);
    assert!(!lists(&d, "a", "x"));
    assert!(lists(&d, "b", "x"));
    assert!(lists(&d, "c", "x"));
}

#[test]
fn rename_refreshes_listing() {
    let mut d = Drive::new(MetadataStore::new());
    d.get_all_file_metas(vec![file("X", "a.txt", &["root"], (1, 0))]).unwrap();
    assert_eq!(d.get_file_by_name("a.txt", &root_id()), Ok(id("X")));
    d.update(vec![change("X", file("X", "b.txt", &["root"], (2, 0)))]).unwrap();
    assert_eq!(d.get_file_by_name("b.txt", &root_id()), Ok(id("X")));
    assert_eq!(d.get_file_by_name("a.txt", &root_id()), Err(GetFileByPathError::NotFound));
    let m = d.metadata().read_metadata_by_id(&id("X")).unwrap();
    assert_eq!(m.name, "b.txt");
    assert_eq!(m.last_modified, (2, 0));
}

#[test]
fn bootstrap_files_every_object() {
    let mut d = Drive::new(MetadataStore::new());
    let mut dir = file("d", "docs", &["root"], (1, 0));
    dir.kind = Some("drive#folder".to_string());
    let mut orphan = file("o", "loose", &[], (1, 0));
    orphan.parents = None;
    d.get_all_file_metas(vec![dir, file("f", "n.txt", &["d"], (2, 0)), orphan]).unwrap();
    for i in ["d", "f", "o"] {
        assert!(d.metadata().read_metadata_by_id(&id(i)).is_ok());
    }
    assert_eq!(d.metadata().read_metadata_by_id(&id("d")).unwrap().kind, FileKind::Directory);
    assert!(lists(&d, "root", "d"));
    assert!(lists(&d, "root", "o"));
    assert!(lists(&d, "d", "f"));
    assert_eq!(d.get_file_by_path("docs/n.txt"), Ok(id("f")));
}

#[test]
fn bootstrap_clears_old_graph() {
    let mut d = Drive::new(MetadataStore::new());
    d.get_all_file_metas(vec![file("x", "old", &["root"], (1, 0))]).unwrap();
    d.get_all_file_metas(vec![file("y", "new", &["root"], (1, 0))]).unwrap();
    assert!(!lists(&d, "root", "x"));
    assert!(lists(&d, "root", "y"));
}

#[test]
fn change_errors() {
    let mut d = Drive::new(MetadataStore::new());
    let no_file = Change { removed: None, file_id: Some("x".to_string()), file: None };
    assert_eq!(d.process_change(no_file), Err(ChangeError::MissingFile));
    let no_id = Change { removed: None, file_id: None, file: Some(file("x", "f", &["root"], (1, 0))) };
    assert_eq!(d.process_change(no_id), Err(ChangeError::MissingId));
    let mut weird = file("x", "f", &["root"], (1, 0));
    weird.kind = Some("drive#teamDrive".to_string());
    assert_eq!(d.process_change(change("x", weird)), Err(ChangeError::UnknownKind));
    let removal = Change {
        removed: Some(true),
        file_id: Some("x".to_string()),
        file: Some(file("x", "f", &["root"], (1, 0))),
    };
    assert_eq!(d.process_change(removal), Err(ChangeError::RemovalUnsupported));
    let bare_removal = Change { removed: Some(true), file_id: Some("x".to_string()), file: None };
    assert_eq!(d.process_change(bare_removal), Err(ChangeError::RemovalUnsupported));
    assert!(d.metadata().read_metadata_by_id(&id("x")).is_err());
    assert!(d.path_resolver().get_parents(&id("x")).is_err());
}

#[test]
fn update_stops_at_first_error_and_keeps_earlier_work() {
    let mut d = Drive::new(MetadataStore::new());
    let bad = Change { removed: None, file_id: Some("y".to_string()), file: None };
    let r = d.update(vec![
        change("x", file("x", "f", &["root"], (1, 0))),
        bad,
        change("z", file("z", "g", &["root"], (1, 0))),
    ]);
    assert_eq!(r, Err(ChangeError::MissingFile));
    assert!(d.metadata().read_metadata_by_id(&id("x")).is_ok());
    assert!(d.metadata().read_metadata_by_id(&id("z")).is_err());
}

#[test]
fn later_change_sees_earlier_in_same_batch() {
    let mut d = Drive::new(MetadataStore::new());
    d.update(vec![
        change("x", file("x", "f", &["a"], (1, 0))),
        change("x", file("x", "f", &["b"], (2, 0))),
    ])
    .unwrap();
    assert_eq!(parents_of(&d, "x"), vec!["b"]);
    assert!(!lists(&d, "a", "x"));
}

#[test]
fn offline_update_does_nothing() {
    let mut d = Drive::new(MetadataStore::new());
    d.set_offline_mode(true);
    assert_eq!(d.update(vec![change("x", file("x", "f", &["root"], (1, 0)))]), Ok(()));
    assert!(d.metadata().read_metadata_by_id(&id("x")).is_err());
}

#[test]
fn empty_update_is_ok() {
    let mut d = Drive::new(MetadataStore::new());
    assert_eq!(d.update(Vec::new()), Ok(()));
}

#[test]
fn listing_with_offset() {
    let mut d = Drive::new(MetadataStore::new());
    d.get_all_file_metas(vec![
        file("a", "1", &["root"], (1, 0)),
        file("b", "2", &["root"], (1, 0)),
        file("c", "3", &["root"], (1, 0)),
    ])
    .unwrap();
    let names = |o: usize| -> Vec<String> {
        d.list_files_in_directory_with_offset(&root_id(), o).unwrap().into_iter().map(|e| e.name).collect()
    };
    assert_eq!(names(0), vec!["1", "2", "3"]);
    assert_eq!(names(2), vec!["3"]);
    assert!(names(7).is_empty());
    assert_eq!(d.list_files_in_directory(&root_id()).unwrap().len(), 3);
    assert_eq!(d.list_files_in_directory(&id("a")).unwrap_err(), GetFileListError::NotFound);
}

#[test]
fn metadata_download_and_need() {
    let mut d = Drive::new(MetadataStore::new());
    assert!(d.needs_metadata(&id("x")));
    d.download_meta_for_file(file("x", "f", &["root"], (3, 0))).unwrap();
    assert!(!d.needs_metadata(&id("x")));
}

#[test]
fn conversion_defaults() {
    let f = RemoteFile {
        id: Some("k".to_string()),
        name: None,
        size: Some(-4),
        mime_type: None,
        kind: Some("drive#link".to_string()),
        md5_checksum: None,
        parents: None,
        trashed: None,
        created_time: None,
        modified_time: None,
        viewed_by_me_time: None,
    };
    let data = FileData::convert_from_api_file(f).unwrap();
    assert_eq!(data.parents, vec!["root".to_string()]);
    assert_eq!(data.kind, FileKind::Symlink);
    let m = data.into_meta();
    assert_eq!(m.name, "");
    assert_eq!(m.size, 0);
    assert_eq!(m.last_modified, (0, 0));
    assert_eq!(m.permissions, 511);
}

#[test]
fn root_record() {
    let m = Metadata::root((42, 7));
    assert_eq!(m.id, root_id());
    assert_eq!(m.state, FileState::Root);
    assert_eq!(m.kind, FileKind::Directory);
    assert_eq!(m.last_accessed, (42, 7));
    assert_eq!(m.permissions, 0o777);
}

#[test]
fn store_write_and_read() {
    let mut st = MetadataStore::new();
    gdriver::write_metadata_file(&mut st, Metadata::root((1, 0)));
    assert_eq!(st.len(), 1);
    assert_eq!(st.read_metadata_by_id(&root_id()).unwrap().last_modified, (1, 0));
    gdriver::write_metadata_file(&mut st, Metadata::root((2, 0)));
    assert_eq!(st.len(), 1);
    assert_eq!(st.read_metadata_by_id(&root_id()).unwrap().last_modified, (2, 0));
    assert!(st.read_metadata_by_id(&id("nope")).is_err());
}

#[test]
fn graph_mirrored_after_update() {
    let mut d = Drive::new(MetadataStore::new());
    d.update(vec![
        change("x", file("x", "f", &["a", "b"], (1, 0))),
        change("a", file("a", "d", &["root"], (1, 0))),
        change("x", file("x", "f", &["b", "c"], (2, 0))),
    ])
    .unwrap();
    for c in ["x", "a"] {
        for p in ["root", "a", "b", "c"] {
            let is_parent = d
                .path_resolver()
                .get_parents(&id(c))
                .map(|l| l.iter().any(|q| q.0 == p))
                .unwrap_or(false);
            assert_eq!(is_parent, lists(&d, p, c));
        }
    }
}

#[test]
fn bootstrap_of_empty_drive_lists_root() {
    let mut d = Drive::new(MetadataStore::new());
    d.get_all_file_metas(Vec::new()).unwrap();
    assert!(d.path_resolver().get_children(&root_id()).unwrap().is_empty());
    assert_eq!(d.list_files_in_directory(&root_id()).unwrap().len(), 0);
}

#[test]
fn reload_keeps_entries_with_records() {
    let mut d = Drive::new(MetadataStore::new());
    d.get_all_file_metas(vec![file("x", "f", &["root"], (1, 0))]).unwrap();
    let mut snapshot = gdriver::PathResolver::new();
    snapshot.add_relationship(root_id(), gdriver::ReadDirResult { id: id("x"), kind: FileKind::File, name: "f".to_string() });
    snapshot.add_relationship(root_id(), gdriver::ReadDirResult { id: id("ghost"), kind: FileKind::File, name: "g".to_string() });
    d.load_graph(&snapshot);
    assert!(lists(&d, "root", "x"));
    assert!(!lists(&d, "root", "ghost"));
    assert_eq!(parents_of(&d, "x"), vec!["root"]);
}
