use gdriver::{root_id, DriveId, FileKind, PathResolveError, PathResolver, ReadDirResult};

fn id(s: &str) -> DriveId {
    DriveId(s.to_string())
}

fn entry(i: &str, name: &str) -> ReadDirResult {
    ReadDirResult { id: id(i), kind: FileKind::File, name: name.to_string() }
}

fn parent_ids(g: &PathResolver, c: &str) -> Vec<String> {
    g.get_parents(&id(c)).unwrap().iter().map(|p| p.0.clone()).collect()
}

fn child_ids(g: &PathResolver, p: &str) -> Vec<String> {
    g.get_children(&id(p)).unwrap().iter().map(|e| e.id.0.clone()).collect()
}

#[test]
fn add_relationship_records_both_directions() {
    let mut g = PathResolver::new();
    g.add_relationship(id("root"), entry("x", "a.txt"));
    assert_eq!(parent_ids(&g, "x"), vec!["root"]);
    assert_eq!(child_ids(&g, "root"), vec!["x"]);
}

#[test]
fn remove_relationship_forgets_both_directions() {
    let mut g = PathResolver::new();
    g.add_relationship(id("a"), entry("x", "f"));
    g.add_relationship(id("b"), entry("x", "f"));
    g.remove_relationship(id("a"), entry("x", "f"));
    assert_eq!(parent_ids(&g, "x"), vec!["b"]);
    assert!(child_ids(&g, "a").is_empty());
    assert_eq!(child_ids(&g, "b"), vec!["x"]);
}

#[test]
fn remove_missing_relationship_is_a_no_op() {
    let mut g = PathResolver::new();
    g.add_relationship(id("a"), entry("x", "f"));
    g.remove_relationship(id("zzz"), entry("y", "f"));
    assert_eq!(parent_ids(&g, "x"), vec!["a"]);
    assert_eq!(child_ids(&g, "a"), vec!["x"]);
    assert_eq!(g.get_parents(&id("y")), Err(PathResolveError::NotFound));
}

#[test]
fn unknown_ids_are_not_found() {
    let g = PathResolver::new();
    assert_eq!(g.get_parents(&id("q")), Err(PathResolveError::NotFound));
    assert_eq!(g.get_children(&id("q")), Err(PathResolveError::NotFound));
}

#[test]
fn name_lookup_takes_first_match() {
    let mut g = PathResolver::new();
    g.add_relationship(id("root"), entry("x", "same"));
    g.add_relationship(id("root"), entry("y", "same"));
    assert_eq!(g.get_id_from_parent_and_name("same", &root_id()), Some(id("x")));
    assert_eq!(g.get_id_from_parent_and_name("other", &root_id()), None);
    assert_eq!(g.get_id_from_parent_and_name("same", &id("nope")), None);
}

#[test]
fn path_resolution_walks_segments_from_root() {
    let mut g = PathResolver::new();
    g.add_relationship(id("root"), entry("d", "docs"));
    g.add_relationship(id("d"), entry("f", "notes.txt"));
    assert_eq!(g.get_id_from_path("docs/notes.txt"), Ok(id("f")));
    assert_eq!(g.get_id_from_path("docs"), Ok(id("d")));
    assert_eq!(g.get_id_from_path("docs/missing"), Err(PathResolveError::NotFound));
    assert_eq!(g.get_id_from_path("/docs"), Err(PathResolveError::NotFound));
}

#[test]
fn reset_clears_everything() {
    let mut g = PathResolver::new();
    g.add_relationship(id("root"), entry("x", "a"));
    g.reset();
    assert_eq!(g.get_parents(&id("x")), Err(PathResolveError::NotFound));
    assert_eq!(g.get_children(&root_id()), Err(PathResolveError::NotFound));
}

#[test]
fn load_replaces_with_snapshot() {
    let mut g = PathResolver::new();
    g.add_relationship(id("root"), entry("x", "a"));
    let mut snap = PathResolver::new();
    snap.add_relationship(id("root"), entry("y", "b"));
    g.load_from_disk(snap);
    assert_eq!(child_ids(&g, "root"), vec!["y"]);
    assert_eq!(g.get_parents(&id("x")), Err(PathResolveError::NotFound));
}

#[test]
fn mirrored_after_mixed_operations() {
    let mut g = PathResolver::new();
    g.add_relationship(id("a"), entry("x", "1"));
    g.add_relationship(id("b"), entry("x", "1"));
    g.add_relationship(id("a"), entry("y", "2"));
    g.remove_relationship(id("a"), entry("x", "1"));
    for c in ["x", "y"] {
        for p in ["a", "b"] {
            let is_parent = parent_ids(&g, c).contains(&p.to_string());
            let lists = g
                .get_children(&id(p))
                .map(|l| l.iter().any(|e| e.id.0 == c))
                .unwrap_or(false);
            assert_eq!(is_parent, lists);
        }
    }
}

#[test]
fn id_display_form() {
    assert_eq!(id("abc").to_string(), "[abc]");
    assert_eq!(root_id().as_str(), "root");
}
