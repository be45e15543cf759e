//! The identity graph: which objects hold which, kept in both directions.

use vstd::prelude::*;
use crate::drive_id::{DriveId, root_id, root_id_view};
use crate::id_table::IdTable;
use crate::meta::FileKind;

verus! {

/// One entry of a directory listing: an object's id, kind and name.
#[derive(Debug, Hash, PartialEq, Eq)]
pub struct ReadDirResult {
    pub id: DriveId,
    pub kind: FileKind,
    pub name: String,
}

/// The mathematical content of a directory-listing entry.
pub struct EntryView {
    pub id: Seq<char>,
    pub kind: FileKind,
    pub name: Seq<char>,
}

impl DeepView for ReadDirResult {
    type V = EntryView;

    open spec fn deep_view(&self) -> EntryView {
        EntryView { id: self.id@, kind: self.kind, name: self.name@ }
    }
}

impl Clone for ReadDirResult {
    fn clone(&self) -> (r: Self)
        ensures
            r.deep_view() == self.deep_view(),
    {
        ReadDirResult { id: self.id.clone(), kind: self.kind, name: self.name.clone() }
    }
}

/// Why a lookup in the identity graph failed.
#[derive(Debug, Clone, Copy, PartialEq, Eq, Structural)]
pub enum PathResolveError {
    /// The path could not be split into segments.
    InvalidPath,
    /// An identifier or a path segment is unknown.
    NotFound,
}

/// The two mirrored maps of the identity graph.
pub struct GraphView {
    /// For each object, the objects that hold it.
    pub parents: Map<Seq<char>, Seq<Seq<char>>>,
    /// For each object, the entries that it holds.
    pub children: Map<Seq<char>, Seq<EntryView>>,
}

/// The parents recorded for `c`, or none where `c` has no record.
pub open spec fn parents_or_empty(g: GraphView, c: Seq<char>) -> Seq<Seq<char>> {
    if g.parents.contains_key(c) {
        g.parents[c]
    } else {
        Seq::empty()
    }
}

/// The entries recorded under `p`, or none where `p` has no record.
pub open spec fn children_or_empty(g: GraphView, p: Seq<char>) -> Seq<EntryView> {
    if g.children.contains_key(p) {
        g.children[p]
    } else {
        Seq::empty()
    }
}

/// `p` is recorded as a parent of `c`.
pub open spec fn is_parent(g: GraphView, c: Seq<char>, p: Seq<char>) -> bool {
    parents_or_empty(g, c).contains(p)
}

/// The listing of `p` holds an entry whose id is `c`.
pub open spec fn lists_child(g: GraphView, p: Seq<char>, c: Seq<char>) -> bool {
    exists|i: int| 0 <= i < children_or_empty(g, p).len() && (#[trigger] children_or_empty(g, p)[i]).id == c
}

/// The parent map and the child listings are inverses of each other.
pub open spec fn mirrored(g: GraphView) -> bool {
    forall|c: Seq<char>, p: Seq<char>| #[trigger] is_parent(g, c, p) <==> #[trigger] lists_child(g, p, c)
}

/// Keeps the ids other than `id`.
pub open spec fn other_id(id: Seq<char>) -> spec_fn(Seq<char>) -> bool {
    |p: Seq<char>| p != id
}

/// Keeps the entries whose id is not `id`.
pub open spec fn other_entry(id: Seq<char>) -> spec_fn(EntryView) -> bool {
    |e: EntryView| e.id != id
}

/// The id of the first entry named `name`, if one is.
pub open spec fn first_named(s: Seq<EntryView>, name: Seq<char>) -> Option<Seq<char>>
    decreases s.len(),
{
    if s.len() == 0 {
        None
    } else if s[0].name == name {
        Some(s[0].id)
    } else {
        first_named(s.drop_first(), name)
    }
}

/// The id of the first entry named `name` in the listing of `parent`.
pub open spec fn child_named(g: GraphView, parent: Seq<char>, name: Seq<char>) -> Option<Seq<char>> {
    if g.children.contains_key(parent) {
        first_named(g.children[parent], name)
    } else {
        None
    }
}

/// The graph after `add_relationship(parent, entry)`.
pub open spec fn graph_add(g: GraphView, parent: Seq<char>, entry: EntryView) -> GraphView {
    GraphView {
        parents: g.parents.insert(entry.id, parents_or_empty(g, entry.id).push(parent)),
        children: g.children.insert(parent, children_or_empty(g, parent).push(entry)),
    }
}

/// The graph after `remove_relationship(parent, entry)` for an entry with id `child`.
pub open spec fn graph_remove(g: GraphView, parent: Seq<char>, child: Seq<char>) -> GraphView {
    GraphView {
        parents: if g.parents.contains_key(child) {
            g.parents.insert(child, g.parents[child].filter(other_id(parent)))
        } else {
            g.parents
        },
        children: if g.children.contains_key(parent) {
            g.children.insert(parent, g.children[parent].filter(other_entry(child)))
        } else {
            g.children
        },
    }
}

/// An element is kept by a filter exactly when it is present and passes.
pub proof fn lemma_filter_member<A>(s: Seq<A>, pred: spec_fn(A) -> bool, x: A)
    ensures
        s.filter(pred).contains(x) <==> (s.contains(x) && pred(x)),
    decreases s.len(),
{
    reveal(Seq::filter);
    if s.len() > 0 {
        lemma_filter_member(s.drop_last(), pred, x);
        if s.drop_last().contains(x) {
            let i = choose|i: int| 0 <= i < s.drop_last().len() && s.drop_last()[i] == x;
            assert(s[i] == x);
        }
        if s.contains(x) && !s.drop_last().contains(x) {
            let i = choose|i: int| 0 <= i < s.len() && s[i] == x;
            if i < s.len() - 1 {
                assert(s.drop_last()[i] == x);
            }
            assert(s.last() == x);
        }
        let sub = s.drop_last().filter(pred);
        if pred(s.last()) {
            assert(sub.push(s.last())[sub.len() as int] == s.last());
            if sub.push(s.last()).contains(x) {
                let i = choose|i: int| 0 <= i < sub.len() + 1 && sub.push(s.last())[i] == x;
                if i < sub.len() {
                    assert(sub[i] == x);
                }
            }
            if sub.contains(x) {
                let i = choose|i: int| 0 <= i < sub.len() && sub[i] == x;
                assert(sub.push(s.last())[i] == x);
            }
        }
    }
}

/// The identity graph: for each object its parents, and for each directory
/// the entries that it lists.
pub struct PathResolver {
    parents: IdTable<Vec<DriveId>>,
    children: IdTable<Vec<ReadDirResult>>,
}

impl View for PathResolver {
    type V = GraphView;

    closed spec fn view(&self) -> GraphView {
        GraphView { parents: self.parents@, children: self.children@ }
    }
}

/// Copies a list of identifiers.
pub fn copy_ids(list: &Vec<DriveId>) -> (r: Vec<DriveId>)
    ensures
        r.deep_view() == list.deep_view(),
{
    proof {
        assert(crate::lists::clone_keeps_content::<DriveId>());
    }
    crate::lists::copy_list(list)
}

/// Copies a directory listing.
pub fn copy_entries(list: &Vec<ReadDirResult>) -> (r: Vec<ReadDirResult>)
    ensures
        r.deep_view() == list.deep_view(),
{
    proof {
        assert(crate::lists::clone_keeps_content::<ReadDirResult>());
    }
    crate::lists::copy_list(list)
}

/// The identifiers of `list` other than `id`, in order.
fn ids_without(list: Vec<DriveId>, id: &DriveId) -> (r: Vec<DriveId>)
    ensures
        r.deep_view() == list.deep_view().filter(other_id(id@)),
{
    let ghost s = list.deep_view();
    let mut r: Vec<DriveId> = Vec::new();
    let mut i: usize = 0;
    while i < list.len()
        invariant
            i <= list.len(),
            s == list.deep_view(),
            r.deep_view() == s.subrange(0, i as int).filter(other_id(id@)),
        decreases list.len() - i,
    {
        let ghost prev = r.deep_view();
        proof {
            reveal(Seq::filter);
            assert(s.subrange(0, i + 1).drop_last() =~= s.subrange(0, i as int));
        }
        if !list[i].same(id) {
            r.push(list[i].clone());
            assert(r.deep_view() =~= prev.push(s[i as int]));
        }
        i = i + 1;
    }
    assert(s.subrange(0, i as int) =~= s);
    r
}

/// The entries of `list` whose id is not `id`, in order.
fn entries_without(list: Vec<ReadDirResult>, id: &DriveId) -> (r: Vec<ReadDirResult>)
    ensures
        r.deep_view() == list.deep_view().filter(other_entry(id@)),
{
    let ghost s = list.deep_view();
    let mut r: Vec<ReadDirResult> = Vec::new();
    let mut i: usize = 0;
    while i < list.len()
        invariant
            i <= list.len(),
            s == list.deep_view(),
            r.deep_view() == s.subrange(0, i as int).filter(other_entry(id@)),
        decreases list.len() - i,
    {
        let ghost prev = r.deep_view();
        proof {
            reveal(Seq::filter);
            assert(s.subrange(0, i + 1).drop_last() =~= s.subrange(0, i as int));
        }
        if !list[i].id.same(id) {
            r.push(list[i].clone());
            assert(r.deep_view() =~= prev.push(s[i as int]));
        }
        i = i + 1;
    }
    assert(s.subrange(0, i as int) =~= s);
    r
}

/// Whether two strings hold the same characters.
pub fn str_equal(a: &str, b: &str) -> (r: bool)
    ensures
        r == (a@ == b@),
{
    let n = a.unicode_len();
    if n != b.unicode_len() {
        return false;
    }
    let mut i: usize = 0;
    while i < n
        invariant
            i <= n,
            n == a@.len(),
            n == b@.len(),
            forall|j: int| 0 <= j < i ==> a@[j] == b@[j],
        decreases n - i,
    {
        if a.get_char(i) != b.get_char(i) {
            return false;
        }
        i = i + 1;
    }
    assert(a@ =~= b@);
    true
}

impl PathResolver {
    /// An empty graph.
    pub fn new() -> (r: Self)
        ensures
            r@.parents == Map::<Seq<char>, Seq<Seq<char>>>::empty(),
            r@.children == Map::<Seq<char>, Seq<EntryView>>::empty(),
    {
        PathResolver { parents: IdTable::new(), children: IdTable::new() }
    }

    /// Forgets every relationship, before the graph is rebuilt.
    pub fn reset(&mut self)
        ensures
            final(self)@.parents == Map::<Seq<char>, Seq<Seq<char>>>::empty(),
            final(self)@.children == Map::<Seq<char>, Seq<EntryView>>::empty(),
    {
        self.parents.clear();
        self.children.clear();
    }

    /// The parent lists, for writing a snapshot.
    pub fn parents_table(&self) -> (r: &IdTable<Vec<DriveId>>)
        ensures
            r@ == self@.parents,
    {
        &self.parents
    }

    /// The child listings, for writing a snapshot.
    pub fn children_table(&self) -> (r: &IdTable<Vec<ReadDirResult>>)
        ensures
            r@ == self@.children,
    {
        &self.children
    }

    /// Gives `id` an empty listing where it has none.
    pub fn add_listing(&mut self, id: DriveId)
        ensures
            final(self)@.parents == old(self)@.parents,
            final(self)@.children == if old(self)@.children.contains_key(id@) {
                old(self)@.children
            } else {
                old(self)@.children.insert(id@, Seq::<EntryView>::empty())
            },
    {
        if self.children.get(&id).is_none() {
            let empty: Vec<ReadDirResult> = Vec::new();
            assert(empty.deep_view() =~= Seq::<EntryView>::empty());
            self.children.replace(id, empty);
        }
    }

    /// Replaces the whole graph with a snapshot read back from storage.
    pub fn load_from_disk(&mut self, snapshot: PathResolver)
        ensures
            final(self)@ == snapshot@,
    {
        self.parents = snapshot.parents;
        self.children = snapshot.children;
    }

    /// The parents recorded for `id`.
    pub fn get_parents(&self, id: &DriveId) -> (r: Result<&Vec<DriveId>, PathResolveError>)
        ensures
            match r {
                Ok(list) => self@.parents.contains_key(id@) && list.deep_view() == self@.parents[id@],
                Err(e) => !self@.parents.contains_key(id@) && e == PathResolveError::NotFound,
            },
    {
        match self.parents.get(id) {
            Some(list) => Ok(list),
            None => Err(PathResolveError::NotFound),
        }
    }

    /// The listing recorded for `id`.
    pub fn get_children(&self, id: &DriveId) -> (r: Result<&Vec<ReadDirResult>, PathResolveError>)
        ensures
            match r {
                Ok(list) => self@.children.contains_key(id@) && list.deep_view()
                    == self@.children[id@],
                Err(e) => !self@.children.contains_key(id@) && e == PathResolveError::NotFound,
            },
    {
        match self.children.get(id) {
            Some(list) => Ok(list),
            None => Err(PathResolveError::NotFound),
        }
    }

    /// The id of the first entry named `name` in the listing of `parent`.
    pub fn get_id_from_parent_and_name(&self, name: &str, parent: &DriveId) -> (r: Option<DriveId>)
        ensures
            r.is_some() == child_named(self@, parent@, name@).is_some(),
            r.is_some() ==> r.unwrap()@ == child_named(self@, parent@, name@).unwrap(),
    {
        match self.children.get(parent) {
            None => None,
            Some(list) => {
                let ghost s = list.deep_view();
                assert(s.subrange(0, s.len() as int) =~= s);
                assert(self@.children.contains_key(parent@));
                assert(s == self@.children[parent@]);
                let mut i: usize = 0;
                while i < list.len()
                    invariant
                        i <= list.len(),
                        s == list.deep_view(),
                        self@.children.contains_key(parent@),
                        s == self@.children[parent@],
                        first_named(s, name@) == first_named(s.subrange(i as int, s.len() as int), name@),
                    decreases list.len() - i,
                {
                    let ghost rest = s.subrange(i as int, s.len() as int);
                    assert(rest.drop_first() =~= s.subrange(i + 1, s.len() as int));
                    if str_equal(list[i].name.as_str(), name) {
                        let found = list[i].id.clone();
                        assert(s[i as int] == list@[i as int].deep_view());
                        assert(rest[0] == s[i as int]);
                        assert(first_named(rest, name@) == Some(rest[0].id));
                        return Some(found);
                    }
                    i = i + 1;
                }
                None
            },
        }
    }

    /// Records `entry` under `parent` and `parent` among the parents of `entry.id`.
    pub fn add_relationship(&mut self, parent: DriveId, entry: ReadDirResult)
        ensures
            final(self)@ == graph_add(old(self)@, parent@, entry.deep_view()),
    {
        let mut ps: Vec<DriveId> = match self.parents.get(&entry.id) {
            Some(list) => copy_ids(list),
            None => Vec::new(),
        };
        assert(ps.deep_view() =~= parents_or_empty(old(self)@, entry.id@));
        ps.push(parent.clone());
        assert(ps.deep_view() =~= parents_or_empty(old(self)@, entry.id@).push(parent@));
        self.parents.replace(entry.id.clone(), ps);
        let mut cs: Vec<ReadDirResult> = match self.children.get(&parent) {
            Some(list) => copy_entries(list),
            None => Vec::new(),
        };
        assert(cs.deep_view() =~= children_or_empty(old(self)@, parent@));
        let ghost ev = entry.deep_view();
        cs.push(entry);
        assert(cs.deep_view() =~= children_or_empty(old(self)@, parent@).push(ev));
        self.children.replace(parent, cs);
    }

    /// Forgets that `parent` holds `entry.id`, in both directions; nothing
    /// happens where the relationship is not recorded.
    pub fn remove_relationship(&mut self, parent: DriveId, entry: ReadDirResult)
        ensures
            final(self)@ == graph_remove(old(self)@, parent@, entry.id@),
    {
        match self.parents.get(&entry.id) {
            Some(list) => {
                let kept = ids_without(copy_ids(list), &parent);
                self.parents.replace(entry.id.clone(), kept);
            },
            None => {},
        }
        match self.children.get(&parent) {
            Some(list) => {
                let kept = entries_without(copy_entries(list), &entry.id);
                self.children.replace(parent, kept);
            },
            None => {},
        }
    }
}

} // verus!

verus! {

pub proof fn lemma_lists_child_push(s: Seq<EntryView>, e: EntryView, c: Seq<char>)
    ensures
        (exists|i: int| 0 <= i < s.push(e).len() && (#[trigger] s.push(e)[i]).id == c) <==> ((exists|
            i: int,
        | 0 <= i < s.len() && (#[trigger] s[i]).id == c) || e.id == c),
{
    let t = s.push(e);
    if exists|i: int| 0 <= i < t.len() && (#[trigger] t[i]).id == c {
        let i = choose|i: int| 0 <= i < t.len() && (#[trigger] t[i]).id == c;
        if i < s.len() {
            assert(s[i].id == c);
        }
    }
    if exists|i: int| 0 <= i < s.len() && (#[trigger] s[i]).id == c {
        let i = choose|i: int| 0 <= i < s.len() && (#[trigger] s[i]).id == c;
        assert(t[i].id == c);
    }
    if e.id == c {
        assert(t[s.len() as int].id == c);
    }
}

proof fn lemma_lists_child_filter(s: Seq<EntryView>, child: Seq<char>, c: Seq<char>)
    ensures
        (exists|i: int|
            0 <= i < s.filter(other_entry(child)).len() && (#[trigger] s.filter(other_entry(child))[i]).id
                == c) <==> ((exists|i: int| 0 <= i < s.len() && (#[trigger] s[i]).id == c) && c != child),
{
    let t = s.filter(other_entry(child));
    if exists|i: int| 0 <= i < t.len() && (#[trigger] t[i]).id == c {
        let i = choose|i: int| 0 <= i < t.len() && (#[trigger] t[i]).id == c;
        let x = t[i];
        assert(t.contains(x));
        lemma_filter_member(s, other_entry(child), x);
        let j = choose|j: int| 0 <= j < s.len() && s[j] == x;
        assert(s[j].id == c);
    }
    if (exists|i: int| 0 <= i < s.len() && (#[trigger] s[i]).id == c) && c != child {
        let i = choose|i: int| 0 <= i < s.len() && (#[trigger] s[i]).id == c;
        let x = s[i];
        assert(s.contains(x));
        lemma_filter_member(s, other_entry(child), x);
        let j = choose|j: int| 0 <= j < t.len() && t[j] == x;
        assert(t[j].id == c);
    }
}

/// Recording a relationship keeps the parent map and the listings mirrored.
pub proof fn lemma_add_keeps_mirrored(g: GraphView, parent: Seq<char>, entry: EntryView)
    requires
        mirrored(g),
    ensures
        mirrored(graph_add(g, parent, entry)),
{
    let h = graph_add(g, parent, entry);
    assert forall|c: Seq<char>, p: Seq<char>| #[trigger] is_parent(h, c, p) <==> #[trigger] lists_child(
        h,
        p,
        c,
    ) by {
        assert(is_parent(g, c, p) <==> lists_child(g, p, c));
        if c == entry.id {
            assert(parents_or_empty(h, c) == parents_or_empty(g, c).push(parent));
            assert(parents_or_empty(g, c).push(parent).contains(p) <==> (parents_or_empty(g, c).contains(p)
                || p == parent)) by {
                let s = parents_or_empty(g, c);
                if s.push(parent).contains(p) {
                    let i = choose|i: int| 0 <= i < s.len() + 1 && s.push(parent)[i] == p;
                    if i < s.len() {
                        assert(s[i] == p);
                    }
                }
                if s.contains(p) {
                    let i = choose|i: int| 0 <= i < s.len() && s[i] == p;
                    assert(s.push(parent)[i] == p);
                }
                if p == parent {
                    assert(s.push(parent)[s.len() as int] == p);
                }
            }
        } else {
            assert(parents_or_empty(h, c) == parents_or_empty(g, c));
        }
        if p == parent {
            assert(children_or_empty(h, p) == children_or_empty(g, p).push(entry));
            lemma_lists_child_push(children_or_empty(g, p), entry, c);
        } else {
            assert(children_or_empty(h, p) == children_or_empty(g, p));
        }
    }
}

/// Forgetting a relationship keeps the parent map and the listings mirrored.
pub proof fn lemma_remove_keeps_mirrored(g: GraphView, parent: Seq<char>, child: Seq<char>)
    requires
        mirrored(g),
    ensures
        mirrored(graph_remove(g, parent, child)),
{
    let h = graph_remove(g, parent, child);
    assert forall|c: Seq<char>, p: Seq<char>| #[trigger] is_parent(h, c, p) <==> #[trigger] lists_child(
        h,
        p,
        c,
    ) by {
        assert(is_parent(g, c, p) <==> lists_child(g, p, c));
        if c == child && g.parents.contains_key(c) {
            assert(parents_or_empty(h, c) == g.parents[c].filter(other_id(parent)));
            lemma_filter_member(g.parents[c], other_id(parent), p);
        } else {
            assert(parents_or_empty(h, c) == parents_or_empty(g, c));
        }
        if p == parent && g.children.contains_key(p) {
            assert(children_or_empty(h, p) == g.children[p].filter(other_entry(child)));
            lemma_lists_child_filter(g.children[p], child, c);
        } else {
            assert(children_or_empty(h, p) == children_or_empty(g, p));
        }
    }
}

/// The segments of a path split at each `/`; a path without one is a single
/// segment, and empty segments are kept.
pub open spec fn split_segments(s: Seq<char>) -> Seq<Seq<char>>
    decreases s.len(),
{
    if s.len() == 0 {
        seq![Seq::<char>::empty()]
    } else {
        let prev = split_segments(s.drop_last());
        if s.last() == '/' {
            prev.push(Seq::<char>::empty())
        } else {
            prev.update(prev.len() - 1, prev.last().push(s.last()))
        }
    }
}

/// The object reached from `start` by following each segment as a child's
/// name in turn, if every step finds one.
pub open spec fn resolve_segments(g: GraphView, start: Seq<char>, segs: Seq<Seq<char>>) -> Option<
    Seq<char>,
>
    decreases segs.len(),
{
    if segs.len() == 0 {
        Some(start)
    } else {
        match resolve_segments(g, start, segs.drop_last()) {
            Some(c) => child_named(g, c, segs.last()),
            None => None,
        }
    }
}

proof fn lemma_resolve_stops(g: GraphView, start: Seq<char>, segs: Seq<Seq<char>>, k: int)
    requires
        0 <= k <= segs.len(),
        resolve_segments(g, start, segs.subrange(0, k)).is_none(),
    ensures
        resolve_segments(g, start, segs).is_none(),
    decreases segs.len(),
{
    if k < segs.len() {
        assert(segs.drop_last().subrange(0, k) =~= segs.subrange(0, k));
        lemma_resolve_stops(g, start, segs.drop_last(), k);
    } else {
        assert(segs.subrange(0, k) =~= segs);
    }
}

proof fn lemma_split_nonempty(s: Seq<char>)
    ensures
        split_segments(s).len() >= 1,
    decreases s.len(),
{
    if s.len() > 0 {
        lemma_split_nonempty(s.drop_last());
    }
}

/// Splits a path at each `/`.
pub fn split_path(path: &str) -> (r: Vec<String>)
    ensures
        r.deep_view() == split_segments(path@),
{
    let n = path.unicode_len();
    let ghost s = path@;
    let mut done: Vec<String> = Vec::new();
    let mut start: usize = 0;
    let mut i: usize = 0;
    assert(s.subrange(0, 0) =~= Seq::<char>::empty());
    assert(done.deep_view().push(s.subrange(0, 0)) =~= split_segments(s.subrange(0, 0)));
    while i < n
        invariant
            start <= i <= n,
            n == s.len(),
            s == path@,
            split_segments(s.subrange(0, i as int)) == done.deep_view().push(s.subrange(start as int, i as int)),
        decreases n - i,
    {
        let c = path.get_char(i);
        let ghost pre = s.subrange(0, i as int);
        assert(s.subrange(0, i + 1).drop_last() =~= pre);
        assert(s.subrange(0, i + 1).last() == c);
        proof {
            lemma_split_nonempty(pre);
        }
        if c == '/' {
            let seg = String::from_str(path.substring_char(start, i));
            let ghost prev = done.deep_view();
            done.push(seg);
            assert(done.deep_view() =~= prev.push(s.subrange(start as int, i as int)));
            start = i + 1;
            assert(s.subrange(start as int, i + 1) =~= Seq::<char>::empty());
        } else {
            assert(s.subrange(start as int, i + 1) =~= s.subrange(start as int, i as int).push(c));
            assert(split_segments(s.subrange(0, i + 1)) =~= done.deep_view().push(
                s.subrange(start as int, i + 1),
            ));
        }
        i = i + 1;
    }
    let last = String::from_str(path.substring_char(start, n));
    let ghost prev = done.deep_view();
    done.push(last);
    assert(s.subrange(0, n as int) =~= s);
    assert(done.deep_view() =~= prev.push(s.subrange(start as int, n as int)));
    done
}

impl PathResolver {
    /// The object that a `/`-separated path leads to from the root, each
    /// segment naming a child of the previous object.
    pub fn get_id_from_path(&self, path: &str) -> (r: Result<DriveId, PathResolveError>)
        ensures
            match resolve_segments(self@, root_id_view(), split_segments(path@)) {
                Some(id) => r is Ok && r.unwrap()@ == id,
                None => r == Err::<DriveId, PathResolveError>(PathResolveError::NotFound),
            },
    {
        let segments = split_path(path);
        let ghost segs = segments.deep_view();
        let mut current = root_id();
        let mut k: usize = 0;
        assert(segs.subrange(0, 0) =~= Seq::<Seq<char>>::empty());
        while k < segments.len()
            invariant
                k <= segments.len(),
                segs == segments.deep_view(),
                segs == split_segments(path@),
                resolve_segments(self@, root_id_view(), segs.subrange(0, k as int)) == Some(current@),
            decreases segments.len() - k,
        {
            assert(segs.subrange(0, k + 1).drop_last() =~= segs.subrange(0, k as int));
            match self.get_id_from_parent_and_name(segments[k].as_str(), &current) {
                Some(next) => {
                    current = next;
                },
                None => {
                    proof {
                        lemma_resolve_stops(self@, root_id_view(), segs, k + 1);
                    }
                    return Err(PathResolveError::NotFound);
                },
            }
            k = k + 1;
        }
        assert(segs.subrange(0, k as int) =~= segs);
        Ok(current)
    }
}

} // verus!
