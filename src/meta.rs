//! Per-object metadata records and the store that holds one per identifier.

use vstd::prelude::*;
use crate::drive_id::{DriveId, root_id, root_id_view};
use crate::id_table::IdTable;

verus! {

/// Seconds and nanoseconds since the Unix epoch; the seconds are signed so
/// that instants before the epoch can be held.
pub type Timestamp = (i64, u32);

/// Strict chronological order of two timestamps.
pub open spec fn timestamp_lt(a: Timestamp, b: Timestamp) -> bool {
    a.0 < b.0 || (a.0 == b.0 && a.1 < b.1)
}

/// Whether `a` lies strictly before `b`.
pub fn timestamp_before(a: Timestamp, b: Timestamp) -> (r: bool)
    ensures
        r == timestamp_lt(a, b),
{
    a.0 < b.0 || (a.0 == b.0 && a.1 < b.1)
}

/// How much of an object is materialised locally.
#[derive(Debug, Clone, Copy, Hash, PartialEq, Eq, Structural)]
pub enum FileState {
    Downloaded,
    Cached,
    MetadataOnly,
    Root,
}

/// The kind of a remote object.
#[derive(Debug, Clone, Copy, Hash, PartialEq, Eq, Structural)]
pub enum FileKind {
    File,
    Directory,
    Symlink,
}

/// One extended attribute: a byte-string key and its byte-string value.
#[derive(Debug, Hash, PartialEq, Eq)]
pub struct ExtraAttribute {
    pub key: Vec<u8>,
    pub value: Vec<u8>,
}

impl DeepView for ExtraAttribute {
    type V = (Seq<u8>, Seq<u8>);

    open spec fn deep_view(&self) -> (Seq<u8>, Seq<u8>) {
        (self.key@, self.value@)
    }
}

/// Copies a byte string.
pub fn copy_bytes(b: &Vec<u8>) -> (r: Vec<u8>)
    ensures
        r@ == b@,
{
    proof {
        assert(crate::lists::clone_keeps_content::<u8>());
    }
    let r = crate::lists::copy_list(b);
    assert(r@ =~= b@) by {
        assert(r.deep_view().len() == b.deep_view().len());
        assert forall|i: int| 0 <= i < r@.len() implies r@[i] == b@[i] by {
            assert(r.deep_view()[i] == b.deep_view()[i]);
        }
    }
    r
}

impl Clone for ExtraAttribute {
    fn clone(&self) -> (r: Self)
        ensures
            r.deep_view() == self.deep_view(),
    {
        ExtraAttribute { key: copy_bytes(&self.key), value: copy_bytes(&self.value) }
    }
}

/// Copies a list of extended attributes.
pub fn copy_attributes(a: &Vec<ExtraAttribute>) -> (r: Vec<ExtraAttribute>)
    ensures
        r.deep_view() == a.deep_view(),
{
    proof {
        assert(crate::lists::clone_keeps_content::<ExtraAttribute>());
    }
    crate::lists::copy_list(a)
}

/// Whether two byte strings are equal.
pub fn bytes_equal(a: &Vec<u8>, b: &Vec<u8>) -> (r: bool)
    ensures
        r == (a@ == b@),
{
    if a.len() != b.len() {
        return false;
    }
    let mut i: usize = 0;
    while i < a.len()
        invariant
            i <= a.len(),
            a.len() == b.len(),
            a@.subrange(0, i as int) == b@.subrange(0, i as int),
        decreases a.len() - i,
    {
        if a[i] != b[i] {
            assert(a@[i as int] != b@[i as int]);
            return false;
        }
        assert(a@.subrange(0, i + 1) =~= a@.subrange(0, i as int).push(a@[i as int]));
        assert(b@.subrange(0, i + 1) =~= b@.subrange(0, i as int).push(b@[i as int]));
        i = i + 1;
    }
    assert(a@ =~= a@.subrange(0, i as int));
    assert(b@ =~= b@.subrange(0, i as int));
    true
}

/// Whether two attribute lists are equal entry by entry.
pub fn attributes_equal(a: &Vec<ExtraAttribute>, b: &Vec<ExtraAttribute>) -> (r: bool)
    ensures
        r == (a.deep_view() == b.deep_view()),
{
    if a.len() != b.len() {
        assert(a.deep_view().len() != b.deep_view().len());
        return false;
    }
    let mut i: usize = 0;
    while i < a.len()
        invariant
            i <= a.len(),
            a.len() == b.len(),
            a.deep_view().subrange(0, i as int) == b.deep_view().subrange(0, i as int),
        decreases a.len() - i,
    {
        if !bytes_equal(&a[i].key, &b[i].key) || !bytes_equal(&a[i].value, &b[i].value) {
            assert(a.deep_view()[i as int] != b.deep_view()[i as int]);
            return false;
        }
        assert(a.deep_view().subrange(0, i + 1) =~= a.deep_view().subrange(0, i as int).push(
            a.deep_view()[i as int],
        ));
        assert(b.deep_view().subrange(0, i + 1) =~= b.deep_view().subrange(0, i as int).push(
            b.deep_view()[i as int],
        ));
        i = i + 1;
    }
    assert(a.deep_view() =~= a.deep_view().subrange(0, i as int));
    assert(b.deep_view() =~= b.deep_view().subrange(0, i as int));
    true
}

/// The mathematical content of a metadata record.
pub struct MetadataView {
    pub id: Seq<char>,
    pub name: Seq<char>,
    pub state: FileState,
    pub size: u64,
    pub last_accessed: Timestamp,
    pub last_modified: Timestamp,
    pub last_metadata_changed: Timestamp,
    pub kind: FileKind,
    pub permissions: u16,
    pub extra_attributes: Seq<(Seq<u8>, Seq<u8>)>,
}

/// The record kept for one remote object.
#[derive(Debug, Hash, PartialEq, Eq)]
pub struct Metadata {
    pub id: DriveId,
    pub name: String,
    pub state: FileState,
    pub size: u64,
    pub last_accessed: Timestamp,
    pub last_modified: Timestamp,
    pub last_metadata_changed: Timestamp,
    pub kind: FileKind,
    pub permissions: u16,
    pub extra_attributes: Vec<ExtraAttribute>,
}

impl View for Metadata {
    type V = MetadataView;

    open spec fn view(&self) -> MetadataView {
        MetadataView {
            id: self.id@,
            name: self.name@,
            state: self.state,
            size: self.size,
            last_accessed: self.last_accessed,
            last_modified: self.last_modified,
            last_metadata_changed: self.last_metadata_changed,
            kind: self.kind,
            permissions: self.permissions,
            extra_attributes: self.extra_attributes.deep_view(),
        }
    }
}

impl Clone for Metadata {
    fn clone(&self) -> (r: Self)
        ensures
            r@ == self@,
    {
        Metadata {
            id: self.id.clone(),
            name: self.name.clone(),
            state: self.state,
            size: self.size,
            last_accessed: self.last_accessed,
            last_modified: self.last_modified,
            last_metadata_changed: self.last_metadata_changed,
            kind: self.kind,
            permissions: self.permissions,
            extra_attributes: copy_attributes(&self.extra_attributes),
        }
    }
}

impl DeepView for Metadata {
    type V = MetadataView;

    open spec fn deep_view(&self) -> MetadataView {
        self@
    }
}

/// Read, write and execute for owner, group and others.
pub const PERMISSIONS_RWXRWXRWX: u16 = 511;

/// The permissions given to objects whose remote permissions are not mapped.
pub const DEFAULT_PERMISSIONS: u16 = 511;

impl Metadata {
    /// The record of the tree's root, stamped with the instant `now`.
    pub fn root(now: Timestamp) -> (r: Metadata)
        ensures
            r@.id == root_id_view(),
            r@.name.len() == 0,
            r@.state == FileState::Root,
            r@.size == 0,
            r@.last_accessed == now,
            r@.last_modified == now,
            r@.last_metadata_changed == now,
            r@.kind == FileKind::Directory,
            r@.permissions == PERMISSIONS_RWXRWXRWX,
            r@.extra_attributes.len() == 0,
    {
        Metadata {
            id: root_id(),
            name: String::new(),
            state: FileState::Root,
            size: 0,
            last_accessed: now,
            last_modified: now,
            last_metadata_changed: now,
            kind: FileKind::Directory,
            permissions: PERMISSIONS_RWXRWXRWX,
            extra_attributes: Vec::new(),
        }
    }
}

/// Why a metadata record could not be read.
#[derive(Debug, Clone, Copy, PartialEq, Eq, Structural)]
pub enum MetadataError {
    /// No record is kept for the identifier.
    NotFound,
}

/// The metadata records, one per known identifier, each filed under its own id.
pub struct MetadataStore {
    records: IdTable<Metadata>,
}

impl View for MetadataStore {
    type V = Map<Seq<char>, MetadataView>;

    closed spec fn view(&self) -> Map<Seq<char>, MetadataView> {
        self.records@
    }
}

/// Every record of a store is filed under its own id.
pub open spec fn filed_by_id(m: Map<Seq<char>, MetadataView>) -> bool {
    forall|k: Seq<char>| #[trigger] m.contains_key(k) ==> m[k].id == k
}

impl MetadataStore {
    #[verifier::type_invariant]
    closed spec fn inv(&self) -> bool {
        filed_by_id(self.records@)
    }

    /// A store with no records.
    pub fn new() -> (r: Self)
        ensures
            r@ == Map::<Seq<char>, MetadataView>::empty(),
    {
        MetadataStore { records: IdTable::new() }
    }

    /// The record kept for `id`.
    pub fn read_metadata_by_id(&self, id: &DriveId) -> (r: Result<Metadata, MetadataError>)
        ensures
            filed_by_id(self@),
            match r {
                Ok(m) => self@.contains_key(id@) && m@ == self@[id@],
                Err(e) => !self@.contains_key(id@) && e == MetadataError::NotFound,
            },
    {
        proof {
            use_type_invariant(self);
        }
        match self.records.get(id) {
            Some(m) => Ok(m.clone()),
            None => Err(MetadataError::NotFound),
        }
    }

    /// Whether a record is kept for `id`.
    pub fn contains(&self, id: &DriveId) -> (r: bool)
        ensures
            r == self@.contains_key(id@),
            filed_by_id(self@),
    {
        proof {
            use_type_invariant(self);
        }
        self.records.get(id).is_some()
    }

    /// The number of records.
    pub fn len(&self) -> (r: usize)
        ensures
            r == self@.len(),
            self@.dom().finite(),
    {
        self.records.len()
    }

    /// The record at position `i`, for walking the store.
    pub fn record_at(&self, i: usize) -> (r: &Metadata)
        requires
            i < self@.len(),
        ensures
            self@.contains_key(r@.id),
            self@[r@.id] == r@,
    {
        proof {
            use_type_invariant(self);
        }
        let (k, m) = self.records.entry_at(i);
        m
    }
}

/// Files `metadata` under its id, replacing any record kept there.
pub fn write_metadata_file(store: &mut MetadataStore, metadata: Metadata)
    ensures
        final(store)@ == old(store)@.insert(metadata@.id, metadata@),
{
    proof {
        use_type_invariant(&*store);
    }
    let id = metadata.id.clone();
    let mut records = IdTable::new();
    std::mem::swap(&mut records, &mut store.records);
    records.replace(id, metadata);
    store.records = records;
}

} // verus!
