//! The filesystem adapter's handle tables: ephemeral numeric handles paired
//! one to one with remote ids, and a cache from (parent handle, name) to handle.

use vstd::prelude::*;
use bimap::BiHashMap;
use crate::drive_id::{DriveId, root_id, root_id_view};
use crate::path_resolver::str_equal;

verus! {

#[verifier::external_type_specification]
#[verifier::external_body]
#[verifier::reject_recursive_types(L)]
#[verifier::reject_recursive_types(R)]
#[verifier::reject_recursive_types(LS)]
#[verifier::reject_recursive_types(RS)]
pub struct ExBiHashMap<L, R, LS, RS>(BiHashMap<L, R, LS, RS>);

/// The pairs that a handle table holds, from handle to id.
pub uninterp spec fn handle_pairs(m: BiHashMap<u64, String>) -> Map<u64, Seq<char>>;

/// Relies on bimap's `BiHashMap::new`: a new bimap holds no pair.
#[verifier::external_body]
fn handles_new() -> (r: BiHashMap<u64, String>)
    ensures
        forall|l: u64| !#[trigger] handle_pairs(r).contains_key(l),
{
    BiHashMap::new()
}

/// Relies on bimap's `BiHashMap::get_by_left`: the right value paired with
/// `left`, if any.
#[verifier::external_body]
fn handles_get_by_left(m: &BiHashMap<u64, String>, left: u64) -> (r: Option<String>)
    ensures
        r.is_some() == handle_pairs(*m).contains_key(left),
        r.is_some() ==> r.unwrap()@ == handle_pairs(*m)[left],
{
    m.get_by_left(&left).cloned()
}

/// Relies on bimap's `BiHashMap::get_by_right`: the left value paired with
/// `right`, if any.
#[verifier::external_body]
fn handles_get_by_right(m: &BiHashMap<u64, String>, right: &str) -> (r: Option<u64>)
    ensures
        match r {
            Some(l) => handle_pairs(*m).contains_key(l) && handle_pairs(*m)[l] == right@,
            None => forall|l: u64| #[trigger]
                handle_pairs(*m).contains_key(l) ==> handle_pairs(*m)[l] != right@,
        },
{
    m.get_by_right(right).copied()
}

/// Relies on bimap's `BiHashMap::insert`: the pairs whose left value is
/// `left` or whose right value is `right` are dropped, then the two are paired.
#[verifier::external_body]
fn handles_insert(m: &mut BiHashMap<u64, String>, left: u64, right: String)
    ensures
        forall|l: u64| #[trigger]
            handle_pairs(*final(m)).contains_key(l) <==> (l == left || (handle_pairs(
                *old(m),
            ).contains_key(l) && handle_pairs(*old(m))[l] != right@)),
        handle_pairs(*final(m))[left] == right@,
        forall|l: u64|
            l != left && #[trigger] handle_pairs(*old(m)).contains_key(l) && handle_pairs(*old(m))[l]
                != right@ ==> handle_pairs(*final(m))[l] == handle_pairs(*old(m))[l],
{
    m.insert(left, right);
}

/// Relies on bimap's `BiHashMap::remove_by_right`: the pair whose right
/// value is `right` is dropped, and its left value handed back.
#[verifier::external_body]
fn handles_remove_by_right(m: &mut BiHashMap<u64, String>, right: &str) -> (r: Option<u64>)
    ensures
        match r {
            Some(l) => handle_pairs(*old(m)).contains_key(l) && handle_pairs(*old(m))[l] == right@
                && handle_pairs(*final(m)) == handle_pairs(*old(m)).remove(l),
            None => handle_pairs(*final(m)) == handle_pairs(*old(m)) && forall|l: u64| #[trigger]
                handle_pairs(*old(m)).contains_key(l) ==> handle_pairs(*old(m))[l] != right@,
        },
{
    m.remove_by_right(right).map(|pair| pair.0)
}

/// How the adapter is asked to shut down.
#[derive(Debug, Clone, Copy, Hash, PartialEq, Eq, Structural)]
pub enum ShutdownRequest {
    Gracefully,
    Force,
}

/// The handle of the root directory.
pub const ROOT_INO: u64 = 1;

/// The first handle given out to objects other than the root.
pub const FIRST_FREE_INO: u64 = 222;

/// A cached lookup: the handle found for a name under a parent handle.
#[derive(Debug)]
pub struct NameEntry {
    pub parent: u64,
    pub name: String,
    pub ino: u64,
}

/// The handle that the first cached lookup of (`parent`, `name`) found.
pub open spec fn cached_ino(s: Seq<(u64, Seq<char>, u64)>, parent: u64, name: Seq<char>) -> Option<u64>
    decreases s.len(),
{
    if s.len() == 0 {
        None
    } else if s[0].0 == parent && s[0].1 == name {
        Some(s[0].2)
    } else {
        cached_ino(s.drop_first(), parent, name)
    }
}

proof fn lemma_cached_push(s: Seq<(u64, Seq<char>, u64)>, e: (u64, Seq<char>, u64), parent: u64, name: Seq<char>)
    ensures
        cached_ino(s.push(e), parent, name) == match cached_ino(s, parent, name) {
            Some(i) => Some(i),
            None => if e.0 == parent && e.1 == name {
                Some(e.2)
            } else {
                None
            },
        },
    decreases s.len(),
{
    reveal_with_fuel(cached_ino, 2);
    if s.len() > 0 {
        assert(s.push(e)[0] == s[0]);
        assert(s.push(e).drop_first() =~= s.drop_first().push(e));
        lemma_cached_push(s.drop_first(), e, parent, name);
    } else {
        assert(s.push(e)[0] == e);
        assert(s.push(e).drop_first() =~= Seq::<(u64, Seq<char>, u64)>::empty());
    }
}

/// The count recorded first for `ino` in a list of (handle, count) pairs.
pub open spec fn open_count(s: Seq<(u64, u64)>, ino: u64) -> u64
    decreases s.len(),
{
    if s.len() == 0 {
        0
    } else if s[0].0 == ino {
        s[0].1
    } else {
        open_count(s.drop_first(), ino)
    }
}

/// The adapter's state at the level of its tables.
pub struct FilesystemView {
    pub handles: Map<u64, Seq<char>>,
    pub names: Seq<(u64, Seq<char>, u64)>,
    pub next_ino: u64,
    pub open_handles: Seq<(u64, u64)>,
}

/// The first step of a lookup of `name` under the handle `parent`.
#[derive(Debug, PartialEq, Eq)]
pub enum LookupStart {
    /// A cached lookup gave the handle, which is paired with this id.
    Cached(u64, DriveId),
    /// The name must be resolved under this parent id by the sync service.
    Resolve(DriveId),
    /// The parent handle, or the cached handle, is paired with no id.
    NotFound,
}

/// Why a handle-table operation failed.
#[derive(Debug, Clone, Copy, PartialEq, Eq, Structural)]
pub enum HandleError {
    /// The id has no handle.
    NotFound,
    /// Every handle value has been given out.
    Exhausted,
}

/// The adapter's handle tables.
pub struct Filesystem {
    entry_ids: BiHashMap<u64, String>,
    open_file_handles: Vec<(u64, u64)>,
    next_ino: u64,
    entry_name_parent_to_ino: Vec<NameEntry>,
}

impl View for Filesystem {
    type V = FilesystemView;

    closed spec fn view(&self) -> FilesystemView {
        FilesystemView {
            handles: handle_pairs(self.entry_ids),
            names: self.entry_name_parent_to_ino@.map_values(
                |e: NameEntry| (e.parent, e.name@, e.ino),
            ),
            next_ino: self.next_ino,
            open_handles: self.open_file_handles@,
        }
    }
}

/// The handles given out so far lie below the counter, except the root's,
/// and no id has two handles.
pub open spec fn tables_ok(v: FilesystemView) -> bool {
    &&& forall|h: u64| #[trigger] v.handles.contains_key(h) ==> h < v.next_ino
    &&& FIRST_FREE_INO <= v.next_ino
    &&& forall|a: u64, b: u64|
        #[trigger] v.handles.contains_key(a) && #[trigger] v.handles.contains_key(b) && a != b
            ==> v.handles[a] != v.handles[b]
}

/// Some handle is paired with `id`.
pub open spec fn has_handle(v: FilesystemView, id: Seq<char>) -> bool {
    exists|h: u64| #[trigger] v.handles.contains_key(h) && v.handles[h] == id
}

/// What a lookup of `name` under `parent` starts with.
pub open spec fn lookup_start_of(v: FilesystemView, parent: u64, name: Seq<char>) -> (
    bool,
    Option<u64>,
    Option<Seq<char>>,
) {
    match cached_ino(v.names, parent, name) {
        Some(ino) => (
            true,
            Some(ino),
            if v.handles.contains_key(ino) {
                Some(v.handles[ino])
            } else {
                None
            },
        ),
        None => (
            false,
            None,
            if v.handles.contains_key(parent) {
                Some(v.handles[parent])
            } else {
                None
            },
        ),
    }
}

impl Filesystem {
    #[verifier::type_invariant]
    closed spec fn inv(&self) -> bool {
        tables_ok(self@)
    }

    /// Empty tables, with the counter at the first free handle.
    pub fn new() -> (r: Filesystem)
        ensures
            r@.handles == Map::<u64, Seq<char>>::empty(),
            r@.names.len() == 0,
            r@.open_handles.len() == 0,
            r@.next_ino == FIRST_FREE_INO,
            tables_ok(r@),
    {
        let r = Filesystem {
            entry_ids: handles_new(),
            open_file_handles: Vec::new(),
            next_ino: FIRST_FREE_INO,
            entry_name_parent_to_ino: Vec::new(),
        };
        assert(r@.names =~= Seq::<(u64, Seq<char>, u64)>::empty());
        assert(r@.handles =~= Map::<u64, Seq<char>>::empty());
        r
    }

    /// The tables are consistent.
    pub fn tables_consistent(&self)
        ensures
            tables_ok(self@),
    {
        proof {
            use_type_invariant(self);
        }
    }

    /// Pairs the root's handle with the root id.
    pub fn init(&mut self)
        ensures
            tables_ok(final(self)@),
            final(self)@.handles.contains_key(ROOT_INO),
            final(self)@.handles[ROOT_INO] == root_id_view(),
            forall|h: u64| #[trigger]
                final(self)@.handles.contains_key(h) <==> (h == ROOT_INO || (old(self)@.handles.contains_key(
                    h,
                ) && old(self)@.handles[h] != root_id_view())),
            forall|h: u64|
                h != ROOT_INO && #[trigger] old(self)@.handles.contains_key(h) && old(self)@.handles[h]
                    != root_id_view() ==> final(self)@.handles[h] == old(self)@.handles[h],
            final(self)@.names == old(self)@.names,
            final(self)@.open_handles == old(self)@.open_handles,
            final(self)@.next_ino == old(self)@.next_ino,
    {
        proof {
            use_type_invariant(&*self);
        }
        let mut ids = handles_new();
        std::mem::swap(&mut ids, &mut self.entry_ids);
        let ghost before = handle_pairs(ids);
        assert(before == old(self)@.handles);
        handles_insert(&mut ids, ROOT_INO, root_id().0);
        proof {
            let after = handle_pairs(ids);
            assert forall|h: u64| #[trigger] after.contains_key(h) implies h < self.next_ino by {
                if h != ROOT_INO {
                    assert(before.contains_key(h));
                }
            }
            assert forall|a: u64, b: u64|
                #[trigger] after.contains_key(a) && #[trigger] after.contains_key(b) && a != b
                    implies after[a] != after[b] by {
                if a != ROOT_INO && b != ROOT_INO {
                    assert(before.contains_key(a) && before.contains_key(b));
                } else if a == ROOT_INO {
                    assert(before.contains_key(b));
                } else {
                    assert(before.contains_key(a));
                }
            }
        }
        self.entry_ids = ids;
    }

    /// The id paired with `ino`.
    pub fn get_id_from_ino(&self, ino: u64) -> (r: Option<DriveId>)
        ensures
            r.is_some() == self@.handles.contains_key(ino),
            r.is_some() ==> r.unwrap()@ == self@.handles[ino],
    {
        match handles_get_by_left(&self.entry_ids, ino) {
            Some(s) => Some(DriveId(s)),
            None => None,
        }
    }

    /// Pairs `id` with a fresh handle.
    fn add_id(&mut self, id: &DriveId) -> (r: Result<u64, HandleError>)
        requires
            forall|h: u64| #[trigger] old(self)@.handles.contains_key(h) ==> old(self)@.handles[h] != id@,
        ensures
            match r {
                Ok(ino) => ino == old(self)@.next_ino && final(self)@.next_ino == ino + 1
                    && final(self)@.handles == old(self)@.handles.insert(ino, id@),
                Err(e) => e == HandleError::Exhausted && old(self)@.next_ino == u64::MAX
                    && final(self)@ == old(self)@,
            },
            final(self)@.names == old(self)@.names,
            final(self)@.open_handles == old(self)@.open_handles,
    {
        proof {
            use_type_invariant(&*self);
        }
        let mut ids = handles_new();
        std::mem::swap(&mut ids, &mut self.entry_ids);
        let ghost before = handle_pairs(ids);
        assert(before == old(self)@.handles);
        if self.next_ino == u64::MAX {
            self.entry_ids = ids;
            return Err(HandleError::Exhausted);
        }
        let ino = self.next_ino;
        assert(!before.contains_key(ino));
        let right = id.0.clone();
        assert(right@ == id@);
        handles_insert(&mut ids, ino, right);
        proof {
            let after = handle_pairs(ids);
            assert forall|l: u64| #[trigger] after.contains_key(l) <==> before.insert(ino, id@).contains_key(l) by {
                if before.contains_key(l) {
                    assert(before[l] != id@);
                }
            }
            assert forall|l: u64| #[trigger] after.contains_key(l) implies after[l] == before.insert(ino, id@)[l] by {
                if l != ino {
                    assert(before[l] != id@);
                }
            }
            assert(after =~= before.insert(ino, id@));
        }
        let mut names: Vec<NameEntry> = Vec::new();
        std::mem::swap(&mut names, &mut self.entry_name_parent_to_ino);
        let mut open: Vec<(u64, u64)> = Vec::new();
        std::mem::swap(&mut open, &mut self.open_file_handles);
        let next = self.next_ino + 1;
        let old_next = self.next_ino;
        proof {
            let after = handle_pairs(ids);
            assert forall|h: u64| #[trigger] after.contains_key(h) implies h < next by {
                if h != ino {
                    assert(before.contains_key(h));
                }
            }
            assert forall|a: u64, b: u64|
                #[trigger] after.contains_key(a) && #[trigger] after.contains_key(b) && a != b
                    implies after[a] != after[b] by {
                if a != ino && b != ino {
                    assert(before.contains_key(a) && before.contains_key(b));
                } else if a == ino {
                    assert(before.contains_key(b));
                } else {
                    assert(before.contains_key(a));
                }
            }
        }
        *self = Filesystem {
            entry_ids: ids,
            open_file_handles: open,
            next_ino: next,
            entry_name_parent_to_ino: names,
        };
        Ok(ino)
    }

    /// The handle of `id`: the one it has, or a fresh one.
    pub fn get_ino_from_id(&mut self, id: &DriveId) -> (r: Result<u64, HandleError>)
        ensures
            tables_ok(final(self)@),
            has_handle(old(self)@, id@) ==> r is Ok && old(self)@.handles.contains_key(r.unwrap())
                && old(self)@.handles[r.unwrap()] == id@ && final(self)@ == old(self)@,
            !has_handle(old(self)@, id@) ==> match r {
                Ok(ino) => ino == old(self)@.next_ino && final(self)@.next_ino == ino + 1
                    && final(self)@.handles == old(self)@.handles.insert(ino, id@),
                Err(e) => e == HandleError::Exhausted && old(self)@.next_ino == u64::MAX
                    && final(self)@ == old(self)@,
            },
            r is Ok ==> final(self)@.handles.contains_key(r.unwrap()) && final(self)@.handles[r.unwrap()]
                == id@,
            forall|h: u64| #[trigger]
                old(self)@.handles.contains_key(h) ==> final(self)@.handles.contains_key(h)
                    && final(self)@.handles[h] == old(self)@.handles[h],
            final(self)@.names == old(self)@.names,
            final(self)@.open_handles == old(self)@.open_handles,
    {
        proof {
            use_type_invariant(&*self);
        }
        match handles_get_by_right(&self.entry_ids, id.as_str()) {
            Some(ino) => Ok(ino),
            None => {
                let r = self.add_id(id);
                proof {
                    use_type_invariant(&*self);
                }
                r
            },
        }
    }

    /// Unpairs `id` from its handle and hands the handle back.
    pub fn remove_id(&mut self, id: &DriveId) -> (r: Result<u64, HandleError>)
        ensures
            tables_ok(final(self)@),
            match r {
                Ok(ino) => old(self)@.handles.contains_key(ino) && old(self)@.handles[ino] == id@
                    && final(self)@.handles == old(self)@.handles.remove(ino),
                Err(e) => e == HandleError::NotFound && final(self)@.handles == old(self)@.handles
                    && forall|h: u64| #[trigger]
                    old(self)@.handles.contains_key(h) ==> old(self)@.handles[h] != id@,
            },
            final(self)@.names == old(self)@.names,
            final(self)@.open_handles == old(self)@.open_handles,
            final(self)@.next_ino == old(self)@.next_ino,
    {
        proof {
            use_type_invariant(&*self);
        }
        let mut ids = handles_new();
        std::mem::swap(&mut ids, &mut self.entry_ids);
        let ghost before = handle_pairs(ids);
        assert(before == old(self)@.handles);
        let r = handles_remove_by_right(&mut ids, id.as_str());
        proof {
            let after = handle_pairs(ids);
            assert forall|h: u64| #[trigger] after.contains_key(h) implies h < self.next_ino by {
                assert(before.contains_key(h));
            }
            assert forall|a: u64, b: u64|
                #[trigger] after.contains_key(a) && #[trigger] after.contains_key(b) && a != b
                    implies after[a] != after[b] by {
                assert(before.contains_key(a) && before.contains_key(b));
            }
        }
        self.entry_ids = ids;
        match r {
            Some(ino) => Ok(ino),
            None => Err(HandleError::NotFound),
        }
    }

    /// The number of open file handles recorded for `ino`; none where nothing
    /// is recorded.
    pub fn open_file_handles(&self, ino: u64) -> (r: u64)
        ensures
            r == open_count(self@.open_handles, ino),
    {
        let ghost s = self.open_file_handles@;
        assert(s.subrange(0, s.len() as int) =~= s);
        let mut i: usize = 0;
        while i < self.open_file_handles.len()
            invariant
                i <= s.len(),
                s == self.open_file_handles@,
                open_count(s, ino) == open_count(s.subrange(i as int, s.len() as int), ino),
            decreases self.open_file_handles.len() - i,
        {
            let ghost rest = s.subrange(i as int, s.len() as int);
            assert(rest.drop_first() =~= s.subrange(i + 1, s.len() as int));
            if self.open_file_handles[i].0 == ino {
                return self.open_file_handles[i].1;
            }
            i = i + 1;
        }
        0
    }

    fn find_cached(&self, parent: u64, name: &str) -> (r: Option<u64>)
        ensures
            r == cached_ino(self@.names, parent, name@),
    {
        let ghost s = self@.names;
        let mut i: usize = 0;
        assert(s.subrange(0, s.len() as int) =~= s);
        while i < self.entry_name_parent_to_ino.len()
            invariant
                i <= self.entry_name_parent_to_ino.len(),
                s == self@.names,
                s.len() == self.entry_name_parent_to_ino.len(),
                cached_ino(s, parent, name@) == cached_ino(s.subrange(i as int, s.len() as int), parent, name@),
            decreases self.entry_name_parent_to_ino.len() - i,
        {
            let ghost rest = s.subrange(i as int, s.len() as int);
            assert(rest.drop_first() =~= s.subrange(i + 1, s.len() as int));
            let e = &self.entry_name_parent_to_ino[i];
            assert(rest[0] == (e.parent, e.name@, e.ino));
            if e.parent == parent && str_equal(e.name.as_str(), name) {
                return Some(e.ino);
            }
            i = i + 1;
        }
        None
    }

    /// The first step of a lookup of `name` under `parent`: a cached handle
    /// and its id, or the parent's id under which the name must be resolved.
    pub fn lookup_start(&self, parent: u64, name: &str) -> (r: LookupStart)
        ensures
            ({
                let s = lookup_start_of(self@, parent, name@);
                match r {
                    LookupStart::Cached(ino, id) => s.0 && s.1 == Some(ino) && s.2 == Some(id@),
                    LookupStart::Resolve(id) => !s.0 && s.2 == Some(id@),
                    LookupStart::NotFound => s.2.is_none(),
                }
            }),
    {
        match self.find_cached(parent, name) {
            Some(ino) => match self.get_id_from_ino(ino) {
                Some(id) => LookupStart::Cached(ino, id),
                None => LookupStart::NotFound,
            },
            None => match self.get_id_from_ino(parent) {
                Some(id) => LookupStart::Resolve(id),
                None => LookupStart::NotFound,
            },
        }
    }

    /// Completes a lookup whose name the sync service resolved to `id`. A
    /// handle cached for (`parent`, `name`) is the answer and nothing
    /// changes; otherwise the id's handle, or a fresh one where it has none,
    /// is the answer and is cached for the pair.
    pub fn lookup_resolved(&mut self, parent: u64, name: String, id: &DriveId) -> (r: Result<
        u64,
        HandleError,
    >)
        ensures
            match cached_ino(old(self)@.names, parent, name@) {
                Some(c) => r == Ok::<u64, HandleError>(c) && final(self)@ == old(self)@,
                None => if has_handle(old(self)@, id@) {
                    r is Ok && old(self)@.handles.contains_key(r.unwrap()) && old(self)@.handles[r.unwrap()]
                        == id@ && final(self)@.handles == old(self)@.handles && final(self)@.next_ino
                        == old(self)@.next_ino && final(self)@.names == old(self)@.names.push(
                        (parent, name@, r.unwrap()),
                    )
                } else if old(self)@.next_ino == u64::MAX {
                    r == Err::<u64, HandleError>(HandleError::Exhausted) && final(self)@ == old(self)@
                } else {
                    r == Ok::<u64, HandleError>(old(self)@.next_ino) && final(self)@.handles == old(
                        self,
                    )@.handles.insert(old(self)@.next_ino, id@) && final(self)@.next_ino == old(
                        self,
                    )@.next_ino + 1 && final(self)@.names == old(self)@.names.push(
                        (parent, name@, old(self)@.next_ino),
                    )
                },
            },
            r is Ok ==> cached_ino(final(self)@.names, parent, name@) == Some(r.unwrap()),
            final(self)@.open_handles == old(self)@.open_handles,
            tables_ok(final(self)@),
            forall|p: u64, n: Seq<char>| #[trigger]
                cached_ino(old(self)@.names, p, n).is_some() ==> cached_ino(final(self)@.names, p, n)
                    == cached_ino(old(self)@.names, p, n),
    {
        proof {
            use_type_invariant(&*self);
        }
        if let Some(ino) = self.find_cached(parent, name.as_str()) {
            return Ok(ino);
        }
        let ino = match self.get_ino_from_id(id) {
            Ok(i) => i,
            Err(e) => return Err(e),
        };
        proof {
            use_type_invariant(&*self);
        }
        let ghost before = self@.names;
        let ghost e = (parent, name@, ino);
        let mut names: Vec<NameEntry> = Vec::new();
        std::mem::swap(&mut names, &mut self.entry_name_parent_to_ino);
        names.push(NameEntry { parent, name, ino });
        self.entry_name_parent_to_ino = names;
        proof {
            assert(self@.names =~= before.push(e));
            lemma_cached_push(before, e, parent, e.1);
            assert forall|p: u64, n: Seq<char>| #[trigger]
                cached_ino(before, p, n).is_some() implies cached_ino(self@.names, p, n) == cached_ino(
                before,
                p,
                n,
            ) by {
                lemma_cached_push(before, e, p, n);
            }
        }
        Ok(ino)
    }
}

} // verus!
