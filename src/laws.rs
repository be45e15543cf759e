//! Properties that hold across calls of the reconciliation engine.

use vstd::prelude::*;
use crate::drive::{
    store_covers_graph,
    add_all, apply_change, apply_changes, entry_of, incoming_meta, lemma_add_all_keeps_mirrored,
    lemma_remove_all_keeps_mirrored, load_listing, merge_meta, merge_time, reconcile_parents,
    remove_all,
};
use crate::meta::{MetadataView, Timestamp, timestamp_lt};
use crate::path_resolver::{
    EntryView, GraphView, graph_add, is_parent, lemma_filter_member, lists_child,
    mirrored, other_id, parents_or_empty,
};
use crate::remote::{ChangeView, RemoteFileView, file_data_of, meta_of};
use crate::filesystem::{FilesystemView, cached_ino, lookup_start_of};

verus! {

proof fn lemma_add_all_parents(g: GraphView, ps: Seq<Seq<char>>, e: EntryView)
    ensures
        parents_or_empty(add_all(g, ps, e), e.id) == parents_or_empty(g, e.id) + ps,
    decreases ps.len(),
{
    if ps.len() == 0 {
        assert(parents_or_empty(g, e.id) + ps =~= parents_or_empty(g, e.id));
    } else {
        lemma_add_all_parents(g, ps.drop_last(), e);
        let h = add_all(g, ps.drop_last(), e);
        assert(parents_or_empty(graph_add(h, ps.last(), e), e.id) == parents_or_empty(h, e.id).push(
            ps.last(),
        ));
        assert((parents_or_empty(g, e.id) + ps.drop_last()).push(ps.last()) =~= parents_or_empty(
            g,
            e.id,
        ) + ps);
    }
}

proof fn lemma_remove_all_parents(g: GraphView, ps: Seq<Seq<char>>, c: Seq<char>, x: Seq<char>)
    ensures
        parents_or_empty(remove_all(g, ps, c), c).contains(x) <==> (parents_or_empty(g, c).contains(x)
            && !ps.contains(x)),
    decreases ps.len(),
{
    if ps.len() > 0 {
        lemma_remove_all_parents(g, ps.drop_last(), c, x);
        let h = remove_all(g, ps.drop_last(), c);
        if h.parents.contains_key(c) {
            lemma_filter_member(h.parents[c], other_id(ps.last()), x);
        }
        if ps.contains(x) && !ps.drop_last().contains(x) {
            let i = choose|i: int| 0 <= i < ps.len() && ps[i] == x;
            if i < ps.len() - 1 {
                assert(ps.drop_last()[i] == x);
            }
        }
        if ps.drop_last().contains(x) {
            let i = choose|i: int| 0 <= i < ps.drop_last().len() && ps.drop_last()[i] == x;
            assert(ps[i] == x);
        }
        if ps.last() == x {
            assert(ps[ps.len() - 1] == x);
        }
    }
}

proof fn lemma_remove_all_own_parents(g: GraphView, c: Seq<char>)
    ensures
        parents_or_empty(remove_all(g, parents_or_empty(g, c), c), c) == Seq::<Seq<char>>::empty(),
{
    let s = parents_or_empty(remove_all(g, parents_or_empty(g, c), c), c);
    if s.len() > 0 {
        lemma_remove_all_parents(g, parents_or_empty(g, c), c, s[0]);
        assert(s.contains(s[0]));
    }
    assert(s =~= Seq::<Seq<char>>::empty());
}

proof fn lemma_reconciled_parents(
    g: GraphView,
    id: Seq<char>,
    stored_name: Seq<char>,
    ps: Seq<Seq<char>>,
    m: MetadataView,
)
    requires
        m.id == id,
    ensures
        parents_or_empty(reconcile_parents(g, id, stored_name, ps, m), id) == ps,
{
    if parents_or_empty(g, id) != ps || stored_name != m.name {
        let h = remove_all(g, parents_or_empty(g, id), id);
        lemma_remove_all_own_parents(g, id);
        lemma_add_all_parents(h, ps, entry_of(m));
        assert(Seq::<Seq<char>>::empty() + ps =~= ps);
    }
}

proof fn lemma_merge_time_twice(s: Timestamp, i: Timestamp)
    ensures
        merge_time(merge_time(s, i), i) == merge_time(s, i),
{
}

proof fn lemma_merge_twice(o: MetadataView, m: MetadataView)
    ensures
        merge_meta(merge_meta(o, m), m) == merge_meta(o, m),
{
    lemma_merge_time_twice(o.last_modified, m.last_modified);
    lemma_merge_time_twice(o.last_accessed, m.last_accessed);
    lemma_merge_time_twice(o.last_metadata_changed, m.last_metadata_changed);
}

pub proof fn lemma_add_all_other(g: GraphView, ps: Seq<Seq<char>>, e: EntryView, c: Seq<char>)
    requires
        c != e.id,
    ensures
        parents_or_empty(add_all(g, ps, e), c) == parents_or_empty(g, c),
    decreases ps.len(),
{
    if ps.len() > 0 {
        lemma_add_all_other(g, ps.drop_last(), e, c);
    }
}

proof fn lemma_remove_all_other(g: GraphView, ps: Seq<Seq<char>>, child: Seq<char>, c: Seq<char>)
    requires
        c != child,
    ensures
        parents_or_empty(remove_all(g, ps, child), c) == parents_or_empty(g, c),
    decreases ps.len(),
{
    if ps.len() > 0 {
        lemma_remove_all_other(g, ps.drop_last(), child, c);
    }
}

/// Applying a change record keeps every object with recorded parents backed
/// by a metadata record.
pub proof fn lemma_change_keeps_store_covering(
    g: GraphView,
    st: Map<Seq<char>, MetadataView>,
    c: ChangeView,
)
    requires
        store_covers_graph(g, st),
    ensures
        match apply_change(g, st, c) {
            Ok(next) => store_covers_graph(next.0, next.1),
            Err(e) => true,
        },
{
    if let Ok(next) = apply_change(g, st, c) {
        let d = file_data_of(c.file.unwrap()).unwrap();
        let id = c.file_id.unwrap();
        let m = incoming_meta(id, d);
        assert forall|x: Seq<char>| !#[trigger] next.1.contains_key(x) implies parents_or_empty(
            next.0,
            x,
        ).len() == 0 by {
            assert(x != id);
            assert(!st.contains_key(x));
            if !st.contains_key(id) {
                lemma_add_all_other(g, d.parents, entry_of(m), x);
            } else if parents_or_empty(g, id) != d.parents || st[id].name != m.name {
                let h = remove_all(g, parents_or_empty(g, id), id);
                lemma_remove_all_other(g, parents_or_empty(g, id), id, x);
                lemma_add_all_other(h, d.parents, entry_of(m), x);
            }
        }
    }
}

/// A bootstrap from a full listing, starting from a graph that the store
/// covers, leaves a graph that the store covers.
pub proof fn lemma_bootstrap_keeps_store_covering(
    g: GraphView,
    st: Map<Seq<char>, MetadataView>,
    fs: Seq<RemoteFileView>,
)
    requires
        store_covers_graph(g, st),
    ensures
        store_covers_graph(load_listing(g, st, fs).0, load_listing(g, st, fs).1),
    decreases fs.len(),
{
    if fs.len() > 0 {
        lemma_bootstrap_keeps_store_covering(g, st, fs.drop_last());
        let p = load_listing(g, st, fs.drop_last());
        if p.2.is_none() {
            if let Ok(d) = file_data_of(fs.last()) {
                let m = meta_of(d);
                let q = load_listing(g, st, fs);
                assert forall|x: Seq<char>| !#[trigger] q.1.contains_key(x) implies parents_or_empty(
                    q.0,
                    x,
                ).len() == 0 by {
                    assert(!p.1.contains_key(x));
                    lemma_add_all_other(p.0, d.parents, entry_of(m), x);
                }
            }
        }
    }
}

/// Applying the same change record twice in a row leaves the graph and the
/// store as applying it once does, on a state where every object with
/// recorded parents has a metadata record; every `Drive` is in such a state
/// (`Drive::engine_invariant`).
pub proof fn lemma_change_idempotent(g: GraphView, st: Map<Seq<char>, MetadataView>, c: ChangeView)
    requires
        store_covers_graph(g, st),
    ensures
        match apply_change(g, st, c) {
            Ok(next) => apply_change(next.0, next.1, c) == apply_change(g, st, c),
            Err(e) => true,
        },
{
    if let Ok(next) = apply_change(g, st, c) {
        let f = c.file.unwrap();
        let d = file_data_of(f).unwrap();
        let id = c.file_id.unwrap();
        let m = incoming_meta(id, d);
        let (g1, st1) = next;
        if !st.contains_key(id) {
            lemma_add_all_parents(g, d.parents, entry_of(m));
            assert(parents_or_empty(g, id).len() == 0);
            assert(parents_or_empty(g, id) =~= Seq::<Seq<char>>::empty());
            assert(Seq::<Seq<char>>::empty() + d.parents =~= d.parents);
            assert(st1[id] == m);
            lemma_merge_twice(m, m);
            assert(merge_meta(m, m) == m);
            assert(st1.insert(id, merge_meta(st1[id], m)) =~= st1);
        } else {
            lemma_reconciled_parents(g, id, st[id].name, d.parents, m);
            lemma_merge_twice(st[id], m);
            assert(st1.insert(id, merge_meta(st1[id], m)) =~= st1);
        }
    }
}

/// One change record applied to a mirrored graph leaves it mirrored.
pub proof fn lemma_change_keeps_mirrored(g: GraphView, st: Map<Seq<char>, MetadataView>, c: ChangeView)
    requires
        mirrored(g),
    ensures
        match apply_change(g, st, c) {
            Ok(next) => mirrored(next.0),
            Err(e) => true,
        },
{
    if let Ok(next) = apply_change(g, st, c) {
        let d = file_data_of(c.file.unwrap()).unwrap();
        let id = c.file_id.unwrap();
        let m = incoming_meta(id, d);
        if !st.contains_key(id) {
            lemma_add_all_keeps_mirrored(g, d.parents, entry_of(m));
        } else if parents_or_empty(g, id) != d.parents || st[id].name != m.name {
            lemma_remove_all_keeps_mirrored(g, parents_or_empty(g, id), id);
            lemma_add_all_keeps_mirrored(
                remove_all(g, parents_or_empty(g, id), id),
                d.parents,
                entry_of(m),
            );
        }
    }
}

/// A reconciliation pass over any sequence of change records leaves a
/// mirrored graph mirrored, whether it completes or stops on an error.
pub proof fn lemma_changes_keep_mirrored(
    g: GraphView,
    st: Map<Seq<char>, MetadataView>,
    cs: Seq<ChangeView>,
)
    requires
        mirrored(g),
    ensures
        mirrored(apply_changes(g, st, cs).0),
    decreases cs.len(),
{
    if cs.len() > 0 {
        lemma_changes_keep_mirrored(g, st, cs.drop_last());
        let p = apply_changes(g, st, cs.drop_last());
        if p.2.is_none() {
            lemma_change_keeps_mirrored(p.0, p.1, cs.last());
        }
    }
}

/// A change whose modification time is earlier than the stored one leaves
/// the stored modification time as it was.
pub proof fn lemma_stale_timestamp_kept(
    g: GraphView,
    st: Map<Seq<char>, MetadataView>,
    c: ChangeView,
    id: Seq<char>,
)
    requires
        c.file_id == Some(id),
        st.contains_key(id),
        c.file.is_some(),
        file_data_of(c.file.unwrap()) is Ok,
        timestamp_lt(meta_of(file_data_of(c.file.unwrap()).unwrap()).last_modified, st[id].last_modified),
    ensures
        apply_change(g, st, c) is Ok ==> apply_change(g, st, c).unwrap().1[id].last_modified
            == st[id].last_modified,
{
}

/// After a change for a known object, its parents are exactly the declared
/// ones: every declared parent lists it, and no other object does.
pub proof fn lemma_parent_set_replaced(
    g: GraphView,
    st: Map<Seq<char>, MetadataView>,
    c: ChangeView,
    id: Seq<char>,
)
    requires
        mirrored(g),
        c.file_id == Some(id),
        st.contains_key(id),
        apply_change(g, st, c) is Ok,
    ensures
        ({
            let declared = file_data_of(c.file.unwrap()).unwrap().parents;
            let h = apply_change(g, st, c).unwrap().0;
            &&& parents_or_empty(h, id) == declared
            &&& forall|p: Seq<char>| #[trigger] lists_child(h, p, id) <==> declared.contains(p)
        }),
{
    let d = file_data_of(c.file.unwrap()).unwrap();
    let m = incoming_meta(id, d);
    let h = apply_change(g, st, c).unwrap().0;
    lemma_reconciled_parents(g, id, st[id].name, d.parents, m);
    lemma_change_keeps_mirrored(g, st, c);
    assert forall|p: Seq<char>| #[trigger] lists_child(h, p, id) <==> d.parents.contains(p) by {
        assert(is_parent(h, id, p) <==> lists_child(h, p, id));
    }
}

/// A completed bootstrap from a full listing files a record for every
/// listed object under its id and leaves the graph mirrored.
pub proof fn lemma_bootstrap_files_every_object(
    g: GraphView,
    st: Map<Seq<char>, MetadataView>,
    fs: Seq<RemoteFileView>,
)
    requires
        mirrored(g),
    ensures
        mirrored(load_listing(g, st, fs).0),
        load_listing(g, st, fs).2.is_none() ==> forall|i: int|
            0 <= i < fs.len() ==> load_listing(g, st, fs).1.contains_key(
                #[trigger] file_data_of(fs[i]).unwrap().id,
            ),
    decreases fs.len(),
{
    if fs.len() > 0 {
        lemma_bootstrap_files_every_object(g, st, fs.drop_last());
        let p = load_listing(g, st, fs.drop_last());
        if p.2.is_none() {
            if let Ok(d) = file_data_of(fs.last()) {
                lemma_add_all_keeps_mirrored(p.0, d.parents, entry_of(meta_of(d)));
                let q = load_listing(g, st, fs);
                assert forall|i: int| 0 <= i < fs.len() implies q.1.contains_key(
                    #[trigger] file_data_of(fs[i]).unwrap().id,
                ) by {
                    if i < fs.len() - 1 {
                        assert(fs[i] == fs.drop_last()[i]);
                    }
                }
            }
        }
    }
}

/// Once a lookup has cached a handle for a name under a parent handle, every
/// later lookup of that pair starts from the cached handle, so two lookups of
/// the same pair in one session answer the same handle.
pub proof fn lemma_lookup_handle_stable(v: FilesystemView, parent: u64, name: Seq<char>, ino: u64)
    requires
        cached_ino(v.names, parent, name) == Some(ino),
    ensures
        lookup_start_of(v, parent, name).0,
        lookup_start_of(v, parent, name).1 == Some(ino),
{
}

/// A reconciliation pass keeps every object with recorded parents backed by
/// a metadata record, whether it completes or stops on an error.
pub proof fn lemma_changes_keep_store_covering(
    g: GraphView,
    st: Map<Seq<char>, MetadataView>,
    cs: Seq<ChangeView>,
)
    requires
        store_covers_graph(g, st),
    ensures
        store_covers_graph(apply_changes(g, st, cs).0, apply_changes(g, st, cs).1),
    decreases cs.len(),
{
    if cs.len() > 0 {
        lemma_changes_keep_store_covering(g, st, cs.drop_last());
        let p = apply_changes(g, st, cs.drop_last());
        if p.2.is_none() {
            lemma_change_keeps_store_covering(p.0, p.1, cs.last());
        }
    }
}

} // verus!
