//! Where the mirror keeps its state on local storage.

use vstd::prelude::*;
use crate::drive_id::DriveId;

verus! {

/// `base` and `name` joined by one separator; an empty base leaves the name.
pub open spec fn join_path(base: Seq<char>, name: Seq<char>) -> Seq<char> {
    if base.len() == 0 {
        name
    } else if base.last() == '/' {
        base + name
    } else {
        base + seq!['/'] + name
    }
}

/// Joins a directory path and a name.
pub fn join(base: &str, name: &str) -> (r: String)
    ensures
        r@ == join_path(base@, name@),
{
    proof {
        reveal_strlit("/");
    }
    let n = base.unicode_len();
    if n == 0 {
        return String::from_str(name);
    }
    let mut r = String::from_str(base);
    if base.get_char(n - 1) != '/' {
        r.append("/");
        assert("/"@ =~= seq!['/']);
    }
    r.append(name);
    r
}

/// The directories that hold the mirror's state.
#[derive(Debug, Clone)]
pub struct GDriverSettings {
    pub metadata_path: String,
    pub cache_path: String,
    pub downloaded_path: String,
    pub data_path: String,
}

/// `.meta`
pub open spec fn meta_suffix() -> Seq<char> {
    seq!['.', 'm', 'e', 't', 'a']
}

/// `changes.txt`
pub open spec fn changes_file_name() -> Seq<char> {
    seq!['c', 'h', 'a', 'n', 'g', 'e', 's', '.', 't', 'x', 't']
}

/// `relations.json`
pub open spec fn relations_file_name() -> Seq<char> {
    seq!['r', 'e', 'l', 'a', 't', 'i', 'o', 'n', 's', '.', 'j', 's', 'o', 'n']
}

impl GDriverSettings {
    /// Settings over the four given directories.
    pub fn new(metadata_path: String, cache_path: String, downloaded_path: String, data_path: String) -> (r:
        GDriverSettings)
        ensures
            r.metadata_path@ == metadata_path@,
            r.cache_path@ == cache_path@,
            r.downloaded_path@ == downloaded_path@,
            r.data_path@ == data_path@,
    {
        GDriverSettings { metadata_path, cache_path, downloaded_path, data_path }
    }

    /// The directory of the metadata records.
    pub fn metadata_path(&self) -> (r: &str)
        ensures
            r@ == self.metadata_path@,
    {
        self.metadata_path.as_str()
    }

    /// The directory of cached content.
    pub fn cache_path(&self) -> (r: &str)
        ensures
            r@ == self.cache_path@,
    {
        self.cache_path.as_str()
    }

    /// The directory of downloaded content.
    pub fn downloaded_path(&self) -> (r: &str)
        ensures
            r@ == self.downloaded_path@,
    {
        self.downloaded_path.as_str()
    }

    /// The directory of the graph snapshot and the continuation token.
    pub fn data_path(&self) -> (r: &str)
        ensures
            r@ == self.data_path@,
    {
        self.data_path.as_str()
    }

    /// The file that holds the continuation token.
    pub fn get_changes_file_path(&self) -> (r: String)
        ensures
            r@ == join_path(self.data_path@, changes_file_name()),
    {
        proof {
            reveal_strlit("changes.txt");
            assert("changes.txt"@ =~= changes_file_name());
        }
        join(self.data_path.as_str(), "changes.txt")
    }

    /// The file that holds the graph snapshot.
    pub fn get_path_resolver_file_path(&self) -> (r: String)
        ensures
            r@ == join_path(self.data_path@, relations_file_name()),
    {
        proof {
            reveal_strlit("relations.json");
            assert("relations.json"@ =~= relations_file_name());
        }
        join(self.data_path.as_str(), "relations.json")
    }

    /// The file that holds the metadata record of `id`.
    pub fn get_metadata_file_path(&self, id: &DriveId) -> (r: String)
        ensures
            r@ == join_path(self.metadata_path@, id@) + meta_suffix(),
    {
        proof {
            reveal_strlit(".meta");
            assert(".meta"@ =~= meta_suffix());
        }
        let mut r = join(self.metadata_path.as_str(), id.as_str());
        r.append(".meta");
        r
    }

    /// The file that holds the downloaded content of `id`.
    pub fn get_downloaded_file_path(&self, id: &DriveId) -> (r: String)
        ensures
            r@ == join_path(self.downloaded_path@, id@),
    {
        join(self.downloaded_path.as_str(), id.as_str())
    }

    /// The file that holds the cached content of `id`.
    pub fn get_cache_file_path(&self, id: &DriveId) -> (r: String)
        ensures
            r@ == join_path(self.cache_path@, id@),
    {
        join(self.cache_path.as_str(), id.as_str())
    }
}

} // verus!
