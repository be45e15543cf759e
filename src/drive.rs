//! The reconciliation engine: applies listings and change records to the
//! metadata store and the identity graph.

use vstd::prelude::*;
use crate::drive_id::DriveId;
use crate::id_table::IdTable;
use crate::meta::{
    Metadata, MetadataStore, MetadataView, Timestamp, attributes_equal, copy_attributes,
    timestamp_before, timestamp_lt, write_metadata_file,
};
use crate::laws::{
    lemma_bootstrap_files_every_object, lemma_bootstrap_keeps_store_covering,
    lemma_changes_keep_mirrored, lemma_changes_keep_store_covering, lemma_change_keeps_mirrored,
    lemma_change_keeps_store_covering,
};
use crate::path_resolver::{
    children_or_empty, is_parent, lists_child, lemma_lists_child_push,
    EntryView, GraphView, PathResolver, ReadDirResult, graph_add, graph_remove, parents_or_empty,
    copy_ids, mirrored, lemma_add_keeps_mirrored, lemma_remove_keeps_mirrored, str_equal,
};
use crate::remote::{
    Change, ChangeError, ChangeView, FileData, RemoteFile, RemoteFileView, file_data_of, meta_of,
};
use crate::ipc::{GetFileByPathError, GetFileListError};

verus! {

/// The graph after recording `e` under each of `ps` in turn.
pub open spec fn add_all(g: GraphView, ps: Seq<Seq<char>>, e: EntryView) -> GraphView
    decreases ps.len(),
{
    if ps.len() == 0 {
        g
    } else {
        graph_add(add_all(g, ps.drop_last(), e), ps.last(), e)
    }
}

/// The graph after forgetting that each of `ps` holds `child`.
pub open spec fn remove_all(g: GraphView, ps: Seq<Seq<char>>, child: Seq<char>) -> GraphView
    decreases ps.len(),
{
    if ps.len() == 0 {
        g
    } else {
        graph_remove(remove_all(g, ps.drop_last(), child), ps.last(), child)
    }
}

/// Every object that the graph records parents for has a metadata record.
pub open spec fn store_covers_graph(g: GraphView, st: Map<Seq<char>, MetadataView>) -> bool {
    forall|id: Seq<char>| !#[trigger] st.contains_key(id) ==> parents_or_empty(g, id).len() == 0
}

/// The engine's consistency: the graph is mirrored and every object with
/// recorded parents has a metadata record.
pub open spec fn engine_ok(g: GraphView, st: Map<Seq<char>, MetadataView>) -> bool {
    mirrored(g) && store_covers_graph(g, st)
}

/// The graph with no relationships and no listings.
pub open spec fn empty_graph() -> GraphView {
    GraphView {
        parents: Map::<Seq<char>, Seq<Seq<char>>>::empty(),
        children: Map::<Seq<char>, Seq<EntryView>>::empty(),
    }
}

/// The graph that a bootstrap starts from: no relationships, and an empty
/// listing for the root.
pub open spec fn root_only_graph() -> GraphView {
    GraphView {
        parents: Map::<Seq<char>, Seq<Seq<char>>>::empty(),
        children: Map::<Seq<char>, Seq<EntryView>>::empty().insert(
            crate::drive_id::root_id_view(),
            Seq::<EntryView>::empty(),
        ),
    }
}

/// A graph without relationships is consistent with any store.
pub proof fn lemma_bare_graph_ok(g: GraphView, st: Map<Seq<char>, MetadataView>)
    requires
        g.parents == Map::<Seq<char>, Seq<Seq<char>>>::empty(),
        forall|p: Seq<char>| #[trigger] g.children.contains_key(p) ==> g.children[p].len() == 0,
    ensures
        engine_ok(g, st),
{
    assert forall|c: Seq<char>, p: Seq<char>| #[trigger] is_parent(g, c, p) <==> #[trigger] lists_child(
        g,
        p,
        c,
    ) by {
        assert(parents_or_empty(g, c).len() == 0);
        if lists_child(g, p, c) {
            let i = choose|i: int| 0 <= i < children_or_empty(g, p).len() && (#[trigger] children_or_empty(g, p)[i]).id == c;
        }
    }
}

/// The listing entry that a metadata record stands for.
pub open spec fn entry_of(m: MetadataView) -> EntryView {
    EntryView { id: m.id, kind: m.kind, name: m.name }
}

/// A stored timestamp after an incoming one: it moves only forward.
pub open spec fn merge_time(stored: Timestamp, incoming: Timestamp) -> Timestamp {
    if timestamp_lt(stored, incoming) {
        incoming
    } else {
        stored
    }
}

/// A stored record after the fields of an incoming one are applied: the three
/// timestamps only move forward, name, size, permissions and extended
/// attributes take the incoming value, the rest stays.
pub open spec fn merge_meta(stored: MetadataView, incoming: MetadataView) -> MetadataView {
    MetadataView {
        last_modified: merge_time(stored.last_modified, incoming.last_modified),
        last_accessed: merge_time(stored.last_accessed, incoming.last_accessed),
        last_metadata_changed: merge_time(stored.last_metadata_changed, incoming.last_metadata_changed),
        name: incoming.name,
        size: incoming.size,
        permissions: incoming.permissions,
        extra_attributes: incoming.extra_attributes,
        ..stored
    }
}

/// The record that a change brings for the object `id`.
pub open spec fn incoming_meta(id: Seq<char>, f: crate::remote::FileDataView) -> MetadataView {
    MetadataView { id, ..meta_of(f) }
}

/// The graph after an existing object's parents are reconciled: where the
/// parent list or the name differs, all old relationships go and the new ones
/// are recorded; otherwise the graph stays.
pub open spec fn reconcile_parents(
    g: GraphView,
    id: Seq<char>,
    stored_name: Seq<char>,
    new_parents: Seq<Seq<char>>,
    m: MetadataView,
) -> GraphView {
    if parents_or_empty(g, id) != new_parents || stored_name != m.name {
        add_all(remove_all(g, parents_or_empty(g, id), id), new_parents, entry_of(m))
    } else {
        g
    }
}

/// What applying one change record does to the graph and the store.
pub open spec fn apply_change(
    g: GraphView,
    st: Map<Seq<char>, MetadataView>,
    c: ChangeView,
) -> Result<(GraphView, Map<Seq<char>, MetadataView>), ChangeError> {
    match c.file {
        None => if c.removed {
            Err(ChangeError::RemovalUnsupported)
        } else {
            Err(ChangeError::MissingFile)
        },
        Some(f) => match file_data_of(f) {
            Err(e) => Err(e),
            Ok(d) => match c.file_id {
                None => Err(ChangeError::MissingId),
                Some(id) => if c.removed {
                    Err(ChangeError::RemovalUnsupported)
                } else {
                    let m = incoming_meta(id, d);
                    if !st.contains_key(id) {
                        Ok((add_all(g, d.parents, entry_of(m)), st.insert(id, m)))
                    } else {
                        Ok(
                            (
                                reconcile_parents(g, id, st[id].name, d.parents, m),
                                st.insert(id, merge_meta(st[id], m)),
                            ),
                        )
                    }
                },
            },
        },
    }
}

/// Recording several relationships keeps the graph mirrored.
pub proof fn lemma_add_all_keeps_mirrored(g: GraphView, ps: Seq<Seq<char>>, e: EntryView)
    requires
        mirrored(g),
    ensures
        mirrored(add_all(g, ps, e)),
    decreases ps.len(),
{
    if ps.len() > 0 {
        lemma_add_all_keeps_mirrored(g, ps.drop_last(), e);
        lemma_add_keeps_mirrored(add_all(g, ps.drop_last(), e), ps.last(), e);
    }
}

/// Forgetting several relationships keeps the graph mirrored.
pub proof fn lemma_remove_all_keeps_mirrored(g: GraphView, ps: Seq<Seq<char>>, child: Seq<char>)
    requires
        mirrored(g),
    ensures
        mirrored(remove_all(g, ps, child)),
    decreases ps.len(),
{
    if ps.len() > 0 {
        lemma_remove_all_keeps_mirrored(g, ps.drop_last(), child);
        lemma_remove_keeps_mirrored(remove_all(g, ps.drop_last(), child), ps.last(), child);
    }
}

/// Whether two identifier lists are equal element by element.
pub fn ids_equal(a: &Vec<DriveId>, b: &Vec<DriveId>) -> (r: bool)
    ensures
        r == (a.deep_view() == b.deep_view()),
{
    if a.len() != b.len() {
        assert(a.deep_view().len() != b.deep_view().len());
        return false;
    }
    let mut i: usize = 0;
    while i < a.len()
        invariant
            i <= a.len(),
            a.len() == b.len(),
            forall|j: int| 0 <= j < i ==> a.deep_view()[j] == b.deep_view()[j],
        decreases a.len() - i,
    {
        if !a[i].same(&b[i]) {
            assert(a.deep_view()[i as int] != b.deep_view()[i as int]);
            return false;
        }
        i = i + 1;
    }
    assert(a.deep_view() =~= b.deep_view());
    true
}

/// The identifiers that a list of strings names, in order.
pub fn ids_of(list: Vec<String>) -> (r: Vec<DriveId>)
    ensures
        r.deep_view() == list.deep_view(),
{
    let mut r: Vec<DriveId> = Vec::new();
    let mut i: usize = 0;
    while i < list.len()
        invariant
            i <= list.len(),
            r.deep_view() =~= list.deep_view().subrange(0, i as int),
        decreases list.len() - i,
    {
        let ghost prev = r.deep_view();
        r.push(DriveId(list[i].clone()));
        assert(r.deep_view() =~= prev.push(list.deep_view()[i as int]));
        assert(list.deep_view().subrange(0, i + 1) =~= list.deep_view().subrange(0, i as int).push(
            list.deep_view()[i as int],
        ));
        i = i + 1;
    }
    assert(r.deep_view() =~= list.deep_view());
    r
}

/// The listing entry for a metadata record.
pub fn entry_for(meta: &Metadata) -> (r: ReadDirResult)
    ensures
        r.deep_view() == entry_of(meta@),
{
    ReadDirResult { id: meta.id.clone(), kind: meta.kind, name: meta.name.clone() }
}

impl PathResolver {
    /// Records the object of `meta` under each of `parents`, in order.
    pub fn add_relationships_for_meta(&mut self, parents: &Vec<DriveId>, meta: &Metadata)
        ensures
            final(self)@ == add_all(old(self)@, parents.deep_view(), entry_of(meta@)),
    {
        let ghost g0 = self@;
        let ghost ps = parents.deep_view();
        let mut i: usize = 0;
        assert(ps.subrange(0, 0) =~= Seq::<Seq<char>>::empty());
        while i < parents.len()
            invariant
                i <= parents.len(),
                ps == parents.deep_view(),
                self@ == add_all(g0, ps.subrange(0, i as int), entry_of(meta@)),
            decreases parents.len() - i,
        {
            assert(ps.subrange(0, i + 1).drop_last() =~= ps.subrange(0, i as int));
            self.add_relationship(parents[i].clone(), entry_for(meta));
            i = i + 1;
        }
        assert(ps.subrange(0, i as int) =~= ps);
    }

    /// Forgets that any of `parents` holds `id`.
    pub fn remove_relationships_for_id(&mut self, parents: &Vec<DriveId>, id: &DriveId)
        ensures
            final(self)@ == remove_all(old(self)@, parents.deep_view(), id@),
    {
        let ghost g0 = self@;
        let ghost ps = parents.deep_view();
        let mut i: usize = 0;
        assert(ps.subrange(0, 0) =~= Seq::<Seq<char>>::empty());
        while i < parents.len()
            invariant
                i <= parents.len(),
                ps == parents.deep_view(),
                self@ == remove_all(g0, ps.subrange(0, i as int), id@),
            decreases parents.len() - i,
        {
            assert(ps.subrange(0, i + 1).drop_last() =~= ps.subrange(0, i as int));
            let entry = ReadDirResult {
                id: id.clone(),
                kind: crate::meta::FileKind::File,
                name: String::new(),
            };
            self.remove_relationship(parents[i].clone(), entry);
            i = i + 1;
        }
        assert(ps.subrange(0, i as int) =~= ps);
    }
}

/// Since when an object has been tracked locally.
#[derive(Debug, Clone, Copy, PartialEq, Eq)]
pub enum TrackingState {
    Untracked,
    TrackedSince(Timestamp),
}

/// The state that reconciliation works on: the identity graph and the
/// metadata store.
struct EngineState {
    path_resolver: PathResolver,
    metadata: MetadataStore,
}

impl EngineState {
    spec fn graph(&self) -> GraphView {
        self.path_resolver@
    }

    spec fn store(&self) -> Map<Seq<char>, MetadataView> {
        self.metadata@
    }
}

/// The engine: the identity graph and the metadata store, kept consistent,
/// with the offline switch and the tracking records.
pub struct Drive {
    tracked_files: IdTable<Timestamp>,
    state: EngineState,
    offline_mode: bool,
}

impl Drive {
    /// Applies the fields of `new_meta` to `stored_meta` and says whether any
    /// of them changed.
    pub fn process_meta_changes(new_meta: &Metadata, stored_meta: &mut Metadata) -> (r: bool)
        ensures
            final(stored_meta)@ == merge_meta(old(stored_meta)@, new_meta@),
            r == (merge_meta(old(stored_meta)@, new_meta@) != old(stored_meta)@),
    {
        let ghost o = stored_meta@;
        let mut changed = false;
        if timestamp_before(
            stored_meta.last_modified,
            new_meta.last_modified,
        ) {
            stored_meta.last_modified = new_meta.last_modified;
            changed = true;
        }
        if timestamp_before(
            stored_meta.last_accessed,
            new_meta.last_accessed,
        ) {
            stored_meta.last_accessed = new_meta.last_accessed;
            changed = true;
        }
        if timestamp_before(
            stored_meta.last_metadata_changed,
            new_meta.last_metadata_changed,
        ) {
            stored_meta.last_metadata_changed = new_meta.last_metadata_changed;
            changed = true;
        }
        if stored_meta.name != new_meta.name {
            stored_meta.name = new_meta.name.clone();
            changed = true;
        }
        if stored_meta.size != new_meta.size {
            stored_meta.size = new_meta.size;
            changed = true;
        }
        if stored_meta.permissions != new_meta.permissions {
            stored_meta.permissions = new_meta.permissions;
            changed = true;
        }
        if !attributes_equal(&stored_meta.extra_attributes, &new_meta.extra_attributes) {
            stored_meta.extra_attributes = copy_attributes(&new_meta.extra_attributes);
            changed = true;
        }
        assert(stored_meta@ == merge_meta(o, new_meta@));
        changed
    }
}

impl EngineState {
    /// Reconciles the parents of the existing object `id` with `parents`:
    /// where they differ, or the object's name differs from `stored_name`, the
    /// old relationships are all dropped and the new ones recorded.
    fn process_parents_changes(
        &mut self,
        parents: &Vec<DriveId>,
        id: &DriveId,
        stored_name: &String,
        new_meta: &Metadata,
    )
        requires
            new_meta@.id == id@,
        ensures
            final(self).path_resolver@ == reconcile_parents(
                old(self).path_resolver@,
                id@,
                stored_name@,
                parents.deep_view(),
                new_meta@,
            ),
            final(self).metadata@ == old(self).metadata@,
    {
        let stored_parents: Vec<DriveId> = match self.path_resolver.get_parents(id) {
            Ok(list) => copy_ids(list),
            Err(_) => Vec::new(),
        };
        assert(stored_parents.deep_view() =~= parents_or_empty(self.graph(), id@));
        if !ids_equal(&stored_parents, parents) || !str_equal(
            stored_name.as_str(),
            new_meta.name.as_str(),
        ) {
            self.path_resolver.remove_relationships_for_id(&stored_parents, id);
            self.path_resolver.add_relationships_for_meta(parents, new_meta);
        }
    }

    /// Applies one change record to the graph and the store; on an error
    /// neither changes.
    fn process_change(&mut self, change: Change) -> (r: Result<(), ChangeError>)
        ensures
            match apply_change(old(self).path_resolver@, old(self).metadata@, change@) {
                Ok(next) => r is Ok && final(self).path_resolver@ == next.0 && final(self).metadata@
                    == next.1,
                Err(e) => r == Err::<(), ChangeError>(e) && final(self).path_resolver@ == old(
                    self,
                ).path_resolver@ && final(self).metadata@ == old(self).metadata@,
            },
    {
        let ghost cv = change@;
        let removed = match change.removed {
            Some(b) => b,
            None => false,
        };
        let file = match change.file {
            Some(f) => f,
            None => {
                if removed {
                    return Err(ChangeError::RemovalUnsupported);
                } else {
                    return Err(ChangeError::MissingFile);
                }
            },
        };
        let data = match FileData::convert_from_api_file(file) {
            Ok(d) => d,
            Err(e) => return Err(e),
        };
        let id = match change.file_id {
            Some(s) => DriveId(s),
            None => return Err(ChangeError::MissingId),
        };
        if removed {
            return Err(ChangeError::RemovalUnsupported);
        }
        let ghost dv = data@;
        let parents = ids_of(crate::remote::copy_strings(&data.parents));
        let mut new_meta = data.into_meta();
        new_meta.id = id.clone();
        assert(new_meta@ == incoming_meta(id@, dv));
        match self.metadata.read_metadata_by_id(&id) {
            Err(_) => {
                self.path_resolver.add_relationships_for_meta(&parents, &new_meta);
                write_metadata_file(&mut self.metadata, new_meta);
                Ok(())
            },
            Ok(stored) => {
                let mut stored = stored;
                let ghost st = self.store();
                self.process_parents_changes(&parents, &id, &stored.name, &new_meta);
                let changed = Drive::process_meta_changes(&new_meta, &mut stored);
                if changed {
                    write_metadata_file(&mut self.metadata, stored);
                } else {
                    assert(st.insert(id@, stored@) =~= st);
                }
                Ok(())
            },
        }
    }
}

/// The graph and store after a sequence of change records is applied in
/// order, with the error that stopped it, if one did; what was applied before
/// that error stays.
pub open spec fn apply_changes(
    g: GraphView,
    st: Map<Seq<char>, MetadataView>,
    cs: Seq<ChangeView>,
) -> (GraphView, Map<Seq<char>, MetadataView>, Option<ChangeError>)
    decreases cs.len(),
{
    if cs.len() == 0 {
        (g, st, None)
    } else {
        let p = apply_changes(g, st, cs.drop_last());
        if p.2.is_some() {
            p
        } else {
            match apply_change(p.0, p.1, cs.last()) {
                Ok(n) => (n.0, n.1, None),
                Err(e) => (p.0, p.1, Some(e)),
            }
        }
    }
}

/// The graph and store after a full listing is taken in, object by object,
/// with the error that stopped it, if one did.
pub open spec fn load_listing(
    g: GraphView,
    st: Map<Seq<char>, MetadataView>,
    fs: Seq<RemoteFileView>,
) -> (GraphView, Map<Seq<char>, MetadataView>, Option<ChangeError>)
    decreases fs.len(),
{
    if fs.len() == 0 {
        (g, st, None)
    } else {
        let p = load_listing(g, st, fs.drop_last());
        if p.2.is_some() {
            p
        } else {
            match file_data_of(fs.last()) {
                Ok(d) => {
                    let m = meta_of(d);
                    (add_all(p.0, d.parents, entry_of(m)), p.1.insert(m.id, m), None)
                },
                Err(e) => (p.0, p.1, Some(e)),
            }
        }
    }
}

/// The outcome of a sequence step as a result.
pub open spec fn outcome(e: Option<ChangeError>) -> Result<(), ChangeError> {
    match e {
        Some(x) => Err(x),
        None => Ok(()),
    }
}

/// The listing of `id` from position `offset` on.
pub open spec fn listing_from(s: Seq<EntryView>, offset: int) -> Seq<EntryView> {
    if offset < s.len() {
        s.subrange(offset, s.len() as int)
    } else {
        Seq::empty()
    }
}

proof fn lemma_changes_stop(
    g: GraphView,
    st: Map<Seq<char>, MetadataView>,
    cs: Seq<ChangeView>,
    k: int,
)
    requires
        0 <= k <= cs.len(),
        apply_changes(g, st, cs.subrange(0, k)).2.is_some(),
    ensures
        apply_changes(g, st, cs) == apply_changes(g, st, cs.subrange(0, k)),
    decreases cs.len(),
{
    if k < cs.len() {
        assert(cs.drop_last().subrange(0, k) =~= cs.subrange(0, k));
        lemma_changes_stop(g, st, cs.drop_last(), k);
    } else {
        assert(cs.subrange(0, k) =~= cs);
    }
}

proof fn lemma_listing_stops(
    g: GraphView,
    st: Map<Seq<char>, MetadataView>,
    fs: Seq<RemoteFileView>,
    k: int,
)
    requires
        0 <= k <= fs.len(),
        load_listing(g, st, fs.subrange(0, k)).2.is_some(),
    ensures
        load_listing(g, st, fs) == load_listing(g, st, fs.subrange(0, k)),
    decreases fs.len(),
{
    if k < fs.len() {
        assert(fs.drop_last().subrange(0, k) =~= fs.subrange(0, k));
        lemma_listing_stops(g, st, fs.drop_last(), k);
    } else {
        assert(fs.subrange(0, k) =~= fs);
    }
}

impl EngineState {
    /// Applies change records in order; the first record that fails stops
    /// the pass.
    fn update(&mut self, changes: Vec<Change>) -> (r: Result<(), ChangeError>)
        ensures
            ({
                let p = apply_changes(
                    old(self).path_resolver@,
                    old(self).metadata@,
                    changes@.map_values(|c: Change| c@),
                );
                final(self).path_resolver@ == p.0 && final(self).metadata@ == p.1 && r == outcome(
                    p.2,
                )
            }),
    {
        let ghost g0 = self.graph();
        let ghost st0 = self.store();
        let ghost cs = changes@.map_values(|c: Change| c@);
        let n = changes.len();
        let mut rest = changes;
        let mut i: usize = 0;
        assert(cs.subrange(0, 0) =~= Seq::<ChangeView>::empty());
        while i < n
            invariant
                i <= n,
                n == cs.len(),
                rest@.len() == n - i,
                forall|j: int| 0 <= j < rest@.len() ==> #[trigger] rest@[j]@ == cs[i + j],
                g0 == old(self).path_resolver@,
                st0 == old(self).metadata@,
                cs == changes@.map_values(|c: Change| c@),
                ({
                    let p = apply_changes(g0, st0, cs.subrange(0, i as int));
                    p.2.is_none() && self.graph() == p.0 && self.store() == p.1
                }),
            decreases n - i,
        {
            let ghost prefix = cs.subrange(0, i as int);
            assert(cs.subrange(0, i + 1).drop_last() =~= prefix);
            let ghost before = rest@;
            let c = rest.remove(0);
            assert(c@ == cs[i as int]);
            assert forall|j: int| 0 <= j < rest@.len() implies #[trigger] rest@[j]@ == cs[i + 1 + j] by {
                assert(rest@[j] == before[j + 1]);
            }
            match self.process_change(c) {
                Ok(()) => {},
                Err(e) => {
                    proof {
                        lemma_changes_stop(g0, st0, cs, i + 1);
                    }
                    return Err(e);
                },
            }
            i = i + 1;
        }
        assert(cs.subrange(0, n as int) =~= cs);
        Ok(())
    }

    /// Rebuilds the graph and the store from a full listing: the graph is
    /// cleared first, then each object is recorded under each of its parents
    /// and its metadata is filed.
    fn get_all_file_metas(&mut self, files: Vec<RemoteFile>) -> (r: Result<(), ChangeError>)
        ensures
            ({
                let p = load_listing(root_only_graph(), old(self).metadata@, files@.map_values(|f: RemoteFile| f@));
                final(self).path_resolver@ == p.0 && final(self).metadata@ == p.1 && r == outcome(p.2)
            }),
    {
        self.path_resolver.reset();
        self.path_resolver.add_listing(crate::drive_id::root_id());
        let ghost g0 = self.graph();
        let ghost st0 = self.store();
        let ghost fs = files@.map_values(|f: RemoteFile| f@);
        assert(g0 == root_only_graph());
        let n = files.len();
        let mut rest = files;
        let mut i: usize = 0;
        assert(fs.subrange(0, 0) =~= Seq::<RemoteFileView>::empty());
        while i < n
            invariant
                i <= n,
                n == fs.len(),
                rest@.len() == n - i,
                forall|j: int| 0 <= j < rest@.len() ==> #[trigger] rest@[j]@ == fs[i + j],
                st0 == old(self).metadata@,
                fs == files@.map_values(|f: RemoteFile| f@),
                g0 == root_only_graph(),
                ({
                    let p = load_listing(g0, st0, fs.subrange(0, i as int));
                    p.2.is_none() && self.graph() == p.0 && self.store() == p.1
                }),
            decreases n - i,
        {
            assert(fs.subrange(0, i + 1).drop_last() =~= fs.subrange(0, i as int));
            let ghost before = rest@;
            let f = rest.remove(0);
            assert(f@ == fs[i as int]);
            assert forall|j: int| 0 <= j < rest@.len() implies #[trigger] rest@[j]@ == fs[i + 1 + j] by {
                assert(rest@[j] == before[j + 1]);
            }
            let data = match FileData::convert_from_api_file(f) {
                Ok(d) => d,
                Err(e) => {
                    proof {
                        lemma_listing_stops(g0, st0, fs, i + 1);
                    }
                    return Err(e);
                },
            };
            let parents = ids_of(crate::remote::copy_strings(&data.parents));
            let meta = data.into_meta();
            self.path_resolver.add_relationships_for_meta(&parents, &meta);
            write_metadata_file(&mut self.metadata, meta);
            i = i + 1;
        }
        assert(fs.subrange(0, n as int) =~= fs);
        Ok(())
    }

    /// Files the metadata of an object fetched on its own.
    fn download_meta_for_file(&mut self, file: RemoteFile) -> (r: Result<(), ChangeError>)
        ensures
            match file_data_of(file@) {
                Ok(d) => r is Ok && final(self).metadata@ == old(self).metadata@.insert(
                    meta_of(d).id,
                    meta_of(d),
                ),
                Err(e) => r == Err::<(), ChangeError>(e) && final(self).metadata@ == old(self).metadata@,
            },
            final(self).path_resolver@ == old(self).path_resolver@,
    {
        let data = match FileData::convert_from_api_file(file) {
            Ok(d) => d,
            Err(e) => return Err(e),
        };
        write_metadata_file(&mut self.metadata, data.into_meta());
        Ok(())
    }

}

impl Drive {
    /// Whether `id` has no metadata record yet and must be fetched.
    pub fn needs_metadata(&self, id: &DriveId) -> (r: bool)
        ensures
            r == !self.store().contains_key(id@),
    {
        !self.state.metadata.contains(id)
    }

    /// The id of the entry named `name` under `parent`.
    pub fn get_file_by_name(&self, name: &str, parent: &DriveId) -> (r: Result<
        DriveId,
        GetFileByPathError,
    >)
        ensures
            match crate::path_resolver::child_named(self.graph(), parent@, name@) {
                Some(c) => r is Ok && r.unwrap()@ == c,
                None => r == Err::<DriveId, GetFileByPathError>(GetFileByPathError::NotFound),
            },
    {
        match self.state.path_resolver.get_id_from_parent_and_name(name, parent) {
            Some(id) => Ok(id),
            None => Err(GetFileByPathError::NotFound),
        }
    }

    /// The listing of `id` from position `offset` on.
    pub fn list_files_in_directory_with_offset(&self, id: &DriveId, offset: usize) -> (r: Result<
        Vec<ReadDirResult>,
        GetFileListError,
    >)
        ensures
            match r {
                Ok(list) => self.graph().children.contains_key(id@) && list.deep_view()
                    == listing_from(self.graph().children[id@], offset as int),
                Err(e) => !self.graph().children.contains_key(id@) && e
                    == GetFileListError::NotFound,
            },
    {
        let list = match self.state.path_resolver.get_children(id) {
            Ok(l) => l,
            Err(_) => return Err(GetFileListError::NotFound),
        };
        let ghost s = list.deep_view();
        let mut r: Vec<ReadDirResult> = Vec::new();
        let mut i: usize = offset;
        if i > list.len() {
            i = list.len();
        }
        let start = i;
        while i < list.len()
            invariant
                start <= i <= list.len(),
                s == list.deep_view(),
                start == if offset < s.len() { offset as int } else { s.len() as int },
                r.deep_view() =~= s.subrange(start as int, i as int),
            decreases list.len() - i,
        {
            let ghost prev = r.deep_view();
            r.push(list[i].clone());
            assert(r.deep_view() =~= prev.push(s[i as int]));
            i = i + 1;
        }
        assert(r.deep_view() =~= listing_from(s, offset as int));
        Ok(r)
    }

    /// The whole listing of `id`.
    pub fn list_files_in_directory(&self, id: &DriveId) -> (r: Result<
        Vec<ReadDirResult>,
        GetFileListError,
    >)
        ensures
            match r {
                Ok(list) => self.graph().children.contains_key(id@) && list.deep_view()
                    == self.graph().children[id@],
                Err(e) => !self.graph().children.contains_key(id@) && e
                    == GetFileListError::NotFound,
            },
    {
        let r = self.list_files_in_directory_with_offset(id, 0);
        proof {
            if self.graph().children.contains_key(id@) {
                let s = self.graph().children[id@];
                if s.len() > 0 {
                    assert(s.subrange(0, s.len() as int) =~= s);
                } else {
                    assert(s =~= Seq::<EntryView>::empty());
                }
            }
        }
        r
    }
}

impl Drive {
    /// The object that a `/`-separated path leads to from the root.
    pub fn get_file_by_path(&self, path: &str) -> (r: Result<DriveId, GetFileByPathError>)
        ensures
            match crate::path_resolver::resolve_segments(
                self.graph(),
                crate::drive_id::root_id_view(),
                crate::path_resolver::split_segments(path@),
            ) {
                Some(id) => r is Ok && r.unwrap()@ == id,
                None => r == Err::<DriveId, GetFileByPathError>(GetFileByPathError::NotFound),
            },
    {
        match self.state.path_resolver.get_id_from_path(path) {
            Ok(id) => Ok(id),
            Err(_) => Err(GetFileByPathError::NotFound),
        }
    }
}

/// An object together with its metadata record.
#[derive(Debug)]
pub struct DriveObject {
    pub id: DriveId,
    pub metadata: Metadata,
}

impl Drive {
    #[verifier::type_invariant]
    closed spec fn inv(&self) -> bool {
        engine_ok(self.state.path_resolver@, self.state.metadata@)
    }

    /// The identity graph.
    pub closed spec fn graph(&self) -> GraphView {
        self.state.path_resolver@
    }

    /// The metadata store.
    pub closed spec fn store(&self) -> Map<Seq<char>, MetadataView> {
        self.state.metadata@
    }

    /// Whether offline mode is on.
    pub closed spec fn offline(&self) -> bool {
        self.offline_mode
    }

    /// Since when each tracked object is tracked.
    pub closed spec fn tracking(&self) -> Map<Seq<char>, Timestamp> {
        self.tracked_files@
    }

    /// An engine with an empty graph and the given store.
    pub fn new(metadata: MetadataStore) -> (r: Drive)
        ensures
            r.graph() == empty_graph(),
            r.store() == metadata@,
            !r.offline(),
            r.tracking() == Map::<Seq<char>, Timestamp>::empty(),
    {
        let path_resolver = PathResolver::new();
        proof {
            lemma_bare_graph_ok(path_resolver@, metadata@);
        }
        Drive {
            tracked_files: IdTable::new(),
            state: EngineState { path_resolver, metadata },
            offline_mode: false,
        }
    }

    /// The engine's graph and store are consistent.
    pub fn engine_invariant(&self)
        ensures
            engine_ok(self.graph(), self.store()),
    {
        proof {
            use_type_invariant(self);
        }
    }

    /// The identity graph.
    pub fn path_resolver(&self) -> (r: &PathResolver)
        ensures
            r@ == self.graph(),
    {
        &self.state.path_resolver
    }

    /// The metadata store.
    pub fn metadata(&self) -> (r: &MetadataStore)
        ensures
            r@ == self.store(),
    {
        &self.state.metadata
    }

    /// Whether offline mode is on.
    pub fn offline_mode(&self) -> (r: bool)
        ensures
            r == self.offline(),
    {
        self.offline_mode
    }

    /// Turns offline mode on or off.
    pub fn set_offline_mode(&mut self, offline_mode: bool)
        ensures
            final(self).offline() == offline_mode,
            final(self).graph() == old(self).graph(),
            final(self).store() == old(self).store(),
            final(self).tracking() == old(self).tracking(),
    {
        proof {
            use_type_invariant(&*self);
        }
        self.offline_mode = offline_mode;
    }

    /// Whether and since when `id` is tracked locally.
    pub fn get_file_tracking_state(&self, id: &DriveId) -> (r: TrackingState)
        ensures
            match r {
                TrackingState::TrackedSince(t) => self.tracking().contains_key(id@) && self.tracking()[id@]
                    == t,
                TrackingState::Untracked => !self.tracking().contains_key(id@),
            },
    {
        match self.tracked_files.get(id) {
            Some(t) => TrackingState::TrackedSince(*t),
            None => TrackingState::Untracked,
        }
    }

    fn take_state(&mut self) -> (r: EngineState)
        ensures
            r.graph() == old(self).graph(),
            r.store() == old(self).store(),
            engine_ok(r.graph(), r.store()),
            final(self).graph() == empty_graph(),
            final(self).store() == Map::<Seq<char>, MetadataView>::empty(),
            final(self).offline() == old(self).offline(),
            final(self).tracking() == old(self).tracking(),
    {
        proof {
            use_type_invariant(&*self);
        }
        let ghost st0 = self.state.metadata@;
        let mut path_resolver = PathResolver::new();
        proof {
            lemma_bare_graph_ok(path_resolver@, st0);
        }
        std::mem::swap(&mut path_resolver, &mut self.state.path_resolver);
        let mut metadata = MetadataStore::new();
        proof {
            lemma_bare_graph_ok(self.state.path_resolver@, metadata@);
        }
        std::mem::swap(&mut metadata, &mut self.state.metadata);
        proof {
            assert(self.state.path_resolver@ == empty_graph());
        }
        EngineState { path_resolver, metadata }
    }

    fn put_state(&mut self, state: EngineState)
        requires
            engine_ok(state.graph(), state.store()),
            old(self).graph() == empty_graph(),
        ensures
            final(self).graph() == state.graph(),
            final(self).store() == state.store(),
            final(self).offline() == old(self).offline(),
            final(self).tracking() == old(self).tracking(),
    {
        let EngineState { path_resolver, metadata } = state;
        proof {
            lemma_bare_graph_ok(self.state.path_resolver@, metadata@);
        }
        self.state.metadata = metadata;
        self.state.path_resolver = path_resolver;
    }

    /// Applies one change record to the graph and the store; on an error
    /// neither changes.
    pub fn process_change(&mut self, change: Change) -> (r: Result<(), ChangeError>)
        ensures
            match apply_change(old(self).graph(), old(self).store(), change@) {
                Ok(next) => r is Ok && final(self).graph() == next.0 && final(self).store() == next.1,
                Err(e) => r == Err::<(), ChangeError>(e) && final(self).graph() == old(self).graph()
                    && final(self).store() == old(self).store(),
            },
            final(self).offline() == old(self).offline(),
            final(self).tracking() == old(self).tracking(),
    {
        let mut state = self.take_state();
        let ghost g0 = state.graph();
        let ghost st0 = state.store();
        let r = state.process_change(change);
        proof {
            lemma_change_keeps_mirrored(g0, st0, change@);
            lemma_change_keeps_store_covering(g0, st0, change@);
        }
        self.put_state(state);
        r
    }

    /// Applies the fetched change records in order, unless offline mode is
    /// on; the first record that fails stops the pass, and what was applied
    /// before it stays.
    pub fn update(&mut self, changes: Vec<Change>) -> (r: Result<(), ChangeError>)
        ensures
            final(self).offline() == old(self).offline(),
            final(self).tracking() == old(self).tracking(),
            old(self).offline() ==> r is Ok && final(self).graph() == old(self).graph()
                && final(self).store() == old(self).store(),
            !old(self).offline() ==> ({
                let p = apply_changes(
                    old(self).graph(),
                    old(self).store(),
                    changes@.map_values(|c: Change| c@),
                );
                final(self).graph() == p.0 && final(self).store() == p.1 && r == outcome(p.2)
            }),
    {
        if self.offline_mode {
            return Ok(());
        }
        let ghost cs = changes@.map_values(|c: Change| c@);
        let mut state = self.take_state();
        let ghost g0 = state.graph();
        let ghost st0 = state.store();
        let r = state.update(changes);
        proof {
            lemma_changes_keep_mirrored(g0, st0, cs);
            lemma_changes_keep_store_covering(g0, st0, cs);
        }
        self.put_state(state);
        r
    }

    /// Rebuilds the graph and the store from a full listing: the graph is
    /// cleared and given an empty root listing, then each object is recorded
    /// under each of its parents and its metadata is filed.
    pub fn get_all_file_metas(&mut self, files: Vec<RemoteFile>) -> (r: Result<(), ChangeError>)
        ensures
            ({
                let p = load_listing(root_only_graph(), old(self).store(), files@.map_values(|f: RemoteFile| f@));
                final(self).graph() == p.0 && final(self).store() == p.1 && r == outcome(p.2)
            }),
            final(self).graph().children.contains_key(crate::drive_id::root_id_view()),
            final(self).offline() == old(self).offline(),
            final(self).tracking() == old(self).tracking(),
    {
        let ghost fs = files@.map_values(|f: RemoteFile| f@);
        let mut state = self.take_state();
        let ghost st0 = state.store();
        let r = state.get_all_file_metas(files);
        proof {
            lemma_bare_graph_ok(root_only_graph(), st0);
            lemma_bootstrap_files_every_object(root_only_graph(), st0, fs);
            lemma_bootstrap_keeps_store_covering(root_only_graph(), st0, fs);
            lemma_listing_keeps_listing(root_only_graph(), st0, fs, crate::drive_id::root_id_view());
        }
        self.put_state(state);
        r
    }

    /// Files the metadata of an object fetched on its own.
    pub fn download_meta_for_file(&mut self, file: RemoteFile) -> (r: Result<(), ChangeError>)
        ensures
            match file_data_of(file@) {
                Ok(d) => r is Ok && final(self).store() == old(self).store().insert(
                    meta_of(d).id,
                    meta_of(d),
                ),
                Err(e) => r == Err::<(), ChangeError>(e) && final(self).store() == old(self).store(),
            },
            final(self).graph() == old(self).graph(),
            final(self).offline() == old(self).offline(),
            final(self).tracking() == old(self).tracking(),
    {
        let mut state = self.take_state();
        let r = state.download_meta_for_file(file);
        proof {
            assert forall|x: Seq<char>| !#[trigger] state.store().contains_key(x) implies parents_or_empty(
                state.graph(),
                x,
            ).len() == 0 by {
                assert(!old(self).store().contains_key(x));
            }
        }
        self.put_state(state);
        r
    }
}

impl Drive {
    /// Replaces the graph with a snapshot read back from storage, replaying
    /// its listings entry by entry; an entry whose object has no metadata
    /// record is left out, so that the engine stays consistent.
    pub fn load_graph(&mut self, snapshot: &PathResolver)
        ensures
            forall|p: Seq<char>, c: Seq<char>|
                #[trigger] lists_child(final(self).graph(), p, c) <==> (lists_child(snapshot@, p, c)
                    && old(self).store().contains_key(c)),
            final(self).store() == old(self).store(),
            final(self).offline() == old(self).offline(),
            final(self).tracking() == old(self).tracking(),
    {
        let mut state = self.take_state();
        let ghost st = state.store();
        state.path_resolver.reset();
        proof {
            lemma_bare_graph_ok(state.graph(), st);
        }
        let table = snapshot.children_table();
        let n = table.len();
        let mut i: usize = 0;
        while i < n
            invariant
                i <= n,
                n == table.entry_count(),
                n == table@.len(),
                table@ == snapshot@.children,
                st == state.store(),
                engine_ok(state.graph(), st),
                forall|p: Seq<char>, c: Seq<char>|
                    #[trigger] lists_child(state.graph(), p, c) ==> lists_child(snapshot@, p, c)
                        && st.contains_key(c),
                forall|k: int, c: Seq<char>|
                    0 <= k < i && st.contains_key(c) && #[trigger] lists_child(
                        snapshot@,
                        table.key_at_index(k),
                        c,
                    ) ==> lists_child(state.graph(), table.key_at_index(k), c),
            decreases n - i,
        {
            let (p, list) = table.entry_at(i);
            let ghost ls = list.deep_view();
            let mut j: usize = 0;
            while j < list.len()
                invariant
                    i < n,
                    j <= list.len(),
                    n == table.entry_count(),
                    n == table@.len(),
                    table@ == snapshot@.children,
                    ls == list.deep_view(),
                    snapshot@.children.contains_key(p@),
                    ls == snapshot@.children[p@],
                    p@ == table.key_at_index(i as int),
                    st == state.store(),
                    engine_ok(state.graph(), st),
                    forall|q: Seq<char>, c: Seq<char>|
                        #[trigger] lists_child(state.graph(), q, c) ==> lists_child(snapshot@, q, c)
                            && st.contains_key(c),
                    forall|k: int, c: Seq<char>|
                        0 <= k < i && st.contains_key(c) && #[trigger] lists_child(
                            snapshot@,
                            table.key_at_index(k),
                            c,
                        ) ==> lists_child(state.graph(), table.key_at_index(k), c),
                    forall|j2: int|
                        0 <= j2 < j && st.contains_key(#[trigger] ls[j2].id) ==> lists_child(
                            state.graph(),
                            p@,
                            ls[j2].id,
                        ),
                decreases list.len() - j,
            {
                let e = &list[j];
                assert(ls[j as int] == e.deep_view());
                if state.metadata.contains(&e.id) {
                    let ghost g0 = state.graph();
                    let ghost ev = e.deep_view();
                    state.path_resolver.add_relationship(p.clone(), e.clone());
                    proof {
                        let g1 = state.graph();
                        assert(g1 == graph_add(g0, p@, ev));
                        lemma_add_keeps_mirrored(g0, p@, ev);
                        assert forall|x: Seq<char>| !#[trigger] st.contains_key(x) implies parents_or_empty(
                            g1,
                            x,
                        ).len() == 0 by {
                            assert(x != ev.id);
                        }
                        assert forall|q: Seq<char>, c: Seq<char>|
                            lists_child(g0, q, c) || (q == p@ && c == ev.id) <==> #[trigger] lists_child(
                                g1,
                                q,
                                c,
                            ) by {
                            if q == p@ {
                                assert(children_or_empty(g1, q) == children_or_empty(g0, q).push(ev));
                                lemma_lists_child_push(children_or_empty(g0, q), ev, c);
                            } else {
                                assert(children_or_empty(g1, q) == children_or_empty(g0, q));
                            }
                        }
                        assert(lists_child(snapshot@, p@, ev.id)) by {
                            assert(children_or_empty(snapshot@, p@)[j as int].id == ev.id);
                        }
                    }
                }
                j = j + 1;
            }
            proof {
                assert forall|c: Seq<char>|
                    st.contains_key(c) && #[trigger] lists_child(snapshot@, p@, c) implies lists_child(
                    state.graph(),
                    p@,
                    c,
                ) by {
                    let j2 = choose|j2: int|
                        0 <= j2 < children_or_empty(snapshot@, p@).len() && (#[trigger] children_or_empty(
                            snapshot@,
                            p@,
                        )[j2]).id == c;
                    assert(ls[j2].id == c);
                }
            }
            i = i + 1;
        }
        proof {
            table.lemma_keys_listed();
            assert forall|p: Seq<char>, c: Seq<char>|
                lists_child(snapshot@, p, c) && st.contains_key(c) implies #[trigger] lists_child(
                state.graph(),
                p,
                c,
            ) by {
                let j2 = choose|j2: int|
                    0 <= j2 < children_or_empty(snapshot@, p).len() && (#[trigger] children_or_empty(
                        snapshot@,
                        p,
                    )[j2]).id == c;
                assert(table@.contains_key(p));
                let k = choose|k: int| 0 <= k < table.entry_count() && #[trigger] table.key_at_index(k) == p;
            }
        }
        self.put_state(state);
    }
}

/// Taking in a listing never drops a listing the graph has.
proof fn lemma_listing_keeps_listing(
    g: GraphView,
    st: Map<Seq<char>, MetadataView>,
    fs: Seq<RemoteFileView>,
    p: Seq<char>,
)
    requires
        g.children.contains_key(p),
    ensures
        load_listing(g, st, fs).0.children.contains_key(p),
    decreases fs.len(),
{
    if fs.len() > 0 {
        lemma_listing_keeps_listing(g, st, fs.drop_last(), p);
        let q = load_listing(g, st, fs.drop_last());
        if q.2.is_none() {
            if let Ok(d) = file_data_of(fs.last()) {
                lemma_add_all_keeps_listing(q.0, d.parents, entry_of(meta_of(d)), p);
            }
        }
    }
}

proof fn lemma_add_all_keeps_listing(g: GraphView, ps: Seq<Seq<char>>, e: EntryView, p: Seq<char>)
    requires
        g.children.contains_key(p),
    ensures
        add_all(g, ps, e).children.contains_key(p),
    decreases ps.len(),
{
    if ps.len() > 0 {
        lemma_add_all_keeps_listing(g, ps.drop_last(), e, p);
    }
}

} // verus!
