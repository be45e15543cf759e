//! The change feed's local state: the root alias and the continuation token,
//! and the decisions taken on each fetched page.

use vstd::prelude::*;
use crate::drive_id::{DriveId, root_id, root_id_view};
use crate::remote::{Change, ChangeView, RemoteFile, RemoteFileView, opt_str};

verus! {

/// An id with the root's alias replaced by the canonical root id.
pub open spec fn normalize_id(alias: Seq<char>, id: Seq<char>) -> Seq<char> {
    if id == alias {
        root_id_view()
    } else {
        id
    }
}

/// An optional id, normalised.
pub open spec fn normalize_opt(alias: Seq<char>, id: Option<Seq<char>>) -> Option<Seq<char>> {
    match id {
        Some(x) => Some(normalize_id(alias, x)),
        None => None,
    }
}

/// An object with its id and its parents' ids normalised.
pub open spec fn normalize_file(alias: Seq<char>, f: RemoteFileView) -> RemoteFileView {
    RemoteFileView {
        id: normalize_opt(alias, f.id),
        parents: match f.parents {
            Some(ps) => Some(ps.map_values(|p: Seq<char>| normalize_id(alias, p))),
            None => None,
        },
        ..f
    }
}

/// A change record with every id in it normalised.
pub open spec fn normalize_change(alias: Seq<char>, c: ChangeView) -> ChangeView {
    ChangeView {
        removed: c.removed,
        file_id: normalize_opt(alias, c.file_id),
        file: match c.file {
            Some(f) => Some(normalize_file(alias, f)),
            None => None,
        },
    }
}

/// What a fetched page of the change feed reported besides its records.
#[derive(Debug, Clone, PartialEq, Eq)]
pub struct ChangesPage {
    pub success: bool,
    pub next_page_token: Option<String>,
    pub new_start_page_token: Option<String>,
}

/// What to do after a page: the token to persist, if any, and the token of
/// the next page to fetch, if any.
#[derive(Debug, Clone, PartialEq, Eq)]
pub struct PageStep {
    pub persist: Option<String>,
    pub next: Option<String>,
}

/// Why the change feed could not be read.
#[derive(Debug, Clone, Copy, PartialEq, Eq, Structural)]
pub enum FeedError {
    /// The service answered with a failure.
    Remote,
    /// No continuation token is known.
    NoToken,
}

/// The token that marks the position after a successful page: the new start
/// token on the last page, the next page's token before it.
pub open spec fn token_after_page(p: ChangesPage) -> Option<Seq<char>> {
    match p.new_start_page_token {
        Some(t) => Some(t@),
        None => opt_str(p.next_page_token),
    }
}

/// The local state of the remote gateway: the root's alias and the
/// continuation token of the change feed.
pub struct GoogleDrive {
    pub changes_start_page_token: Option<String>,
    pub root_alt_id: DriveId,
}

impl GoogleDrive {
    /// A gateway state with no token, whose root alias is the root id itself.
    pub fn new() -> (r: GoogleDrive)
        ensures
            r.changes_start_page_token.is_none(),
            r.root_alt_id@ == root_id_view(),
    {
        GoogleDrive { changes_start_page_token: None, root_alt_id: root_id() }
    }

    /// Records the id under which the service reports the root; where it
    /// reported none, the root id itself.
    pub fn update_alt_root(&mut self, reported: Option<String>)
        ensures
            final(self).root_alt_id@ == match reported {
                Some(s) => s@,
                None => root_id_view(),
            },
            final(self).changes_start_page_token == old(self).changes_start_page_token,
    {
        self.root_alt_id = match reported {
            Some(s) => DriveId(s),
            None => root_id(),
        };
    }

    /// The id with the root's alias replaced by the canonical root id.
    pub fn map_id(&self, id: String) -> (r: String)
        ensures
            r@ == normalize_id(self.root_alt_id@, id@),
    {
        if self.root_alt_id.0 == id {
            root_id().0
        } else {
            id
        }
    }

    fn map_opt(&self, id: Option<String>) -> (r: Option<String>)
        ensures
            opt_str(r) == normalize_opt(self.root_alt_id@, opt_str(id)),
    {
        match id {
            Some(s) => Some(self.map_id(s)),
            None => None,
        }
    }

    /// The object with its id and its parents' ids normalised.
    pub fn map_in_file(&self, file: RemoteFile) -> (r: RemoteFile)
        ensures
            r@ == normalize_file(self.root_alt_id@, file@),
    {
        let ghost fv = file@;
        let ghost alias = self.root_alt_id@;
        let parents = match file.parents {
            Some(ps) => {
                let ghost s = ps.deep_view();
                let mut out: Vec<String> = Vec::new();
                let mut rest = ps;
                let n = rest.len();
                let mut i: usize = 0;
                while i < n
                    invariant
                        i <= n,
                        n == s.len(),
                        alias == self.root_alt_id@,
                        rest@.len() == n - i,
                        forall|j: int| 0 <= j < rest@.len() ==> #[trigger] rest@[j]@ == s[i + j],
                        out.deep_view() =~= s.subrange(0, i as int).map_values(
                            |p: Seq<char>| normalize_id(alias, p),
                        ),
                    decreases n - i,
                {
                    let ghost before = rest@;
                    let p = rest.remove(0);
                    assert(p@ == s[i as int]);
                    assert forall|j: int| 0 <= j < rest@.len() implies #[trigger] rest@[j]@ == s[i + 1
                        + j] by {
                        assert(rest@[j] == before[j + 1]);
                    }
                    let ghost prev = out.deep_view();
                    out.push(self.map_id(p));
                    assert(out.deep_view() =~= prev.push(normalize_id(alias, s[i as int])));
                    assert(s.subrange(0, i + 1).map_values(|p: Seq<char>| normalize_id(alias, p))
                        =~= s.subrange(0, i as int).map_values(|p: Seq<char>| normalize_id(alias, p)).push(
                        normalize_id(alias, s[i as int]),
                    ));
                    i = i + 1;
                }
                assert(s.subrange(0, n as int) =~= s);
                Some(out)
            },
            None => None,
        };
        let r = RemoteFile {
            id: self.map_opt(file.id),
            name: file.name,
            size: file.size,
            mime_type: file.mime_type,
            kind: file.kind,
            md5_checksum: file.md5_checksum,
            parents,
            trashed: file.trashed,
            created_time: file.created_time,
            modified_time: file.modified_time,
            viewed_by_me_time: file.viewed_by_me_time,
        };
        assert(r@ =~= normalize_file(alias, fv));
        r
    }

    /// The change record with every id in it normalised.
    pub fn map_id_in_change(&self, change: Change) -> (r: Change)
        ensures
            r@ == normalize_change(self.root_alt_id@, change@),
    {
        let file = match change.file {
            Some(f) => Some(self.map_in_file(f)),
            None => None,
        };
        Change { removed: change.removed, file_id: self.map_opt(change.file_id), file }
    }

    /// Takes `token` as the current continuation token; says whether it
    /// differs from the one held and so must be persisted.
    pub fn set_change_start_token(&mut self, token: String) -> (r: bool)
        ensures
            opt_str(final(self).changes_start_page_token) == Some(token@),
            r == (opt_str(old(self).changes_start_page_token) != Some(token@)),
            final(self).root_alt_id == old(self).root_alt_id,
    {
        let same = match &self.changes_start_page_token {
            Some(t) => *t == token,
            None => false,
        };
        if same {
            false
        } else {
            self.changes_start_page_token = Some(token);
            true
        }
    }

    /// Takes the token read back from storage; says whether it is usable,
    /// that is present and not empty.
    pub fn get_local_change_start_token(&mut self, stored: Option<String>) -> (r: bool)
        ensures
            opt_str(final(self).changes_start_page_token) == opt_str(stored),
            r == (match stored {
                Some(s) => s@.len() > 0,
                None => false,
            }),
            final(self).root_alt_id == old(self).root_alt_id,
    {
        let usable = match &stored {
            Some(s) => s.unicode_len() > 0,
            None => false,
        };
        self.changes_start_page_token = stored;
        usable
    }

    /// The token from which the next fetch of the change feed starts.
    pub fn get_change_start_token(&self) -> (r: Result<String, FeedError>)
        ensures
            match r {
                Ok(t) => opt_str(self.changes_start_page_token) == Some(t@),
                Err(e) => self.changes_start_page_token.is_none() && e == FeedError::NoToken,
            },
    {
        match &self.changes_start_page_token {
            Some(t) => Ok(t.clone()),
            None => Err(FeedError::NoToken),
        }
    }

    /// Decides what follows a fetched page: a failed page stops the fetch
    /// with nothing persisted; after a successful one the token that marks
    /// the position after it is taken, and persisted where it is new, and the
    /// next page is fetched where the service announced one.
    pub fn on_changes_page(&mut self, page: ChangesPage) -> (r: Result<PageStep, FeedError>)
        ensures
            !page.success ==> r == Err::<PageStep, FeedError>(FeedError::Remote) && *final(self)
                == *old(self),
            page.success ==> r is Ok && opt_str(r.unwrap().next) == opt_str(page.next_page_token)
                && (match token_after_page(page) {
                Some(t) => opt_str(final(self).changes_start_page_token) == Some(t) && (opt_str(
                    r.unwrap().persist,
                ) == if opt_str(old(self).changes_start_page_token) != Some(t) {
                    Some(t)
                } else {
                    None
                }),
                None => *final(self) == *old(self) && r.unwrap().persist.is_none(),
            }),
            final(self).root_alt_id == old(self).root_alt_id,
    {
        if !page.success {
            return Err(FeedError::Remote);
        }
        let token = match page.new_start_page_token {
            Some(t) => Some(t),
            None => match &page.next_page_token {
                Some(t) => Some(t.clone()),
                None => None,
            },
        };
        let persist = match token {
            Some(t) => {
                let copy = t.clone();
                if self.set_change_start_token(t) {
                    Some(copy)
                } else {
                    None
                }
            },
            None => None,
        };
        Ok(PageStep { persist, next: page.next_page_token })
    }
}

/// After a successful page that announces a next page and no new start
/// token, the token held is that next page's token: a fetch that stops there
/// resumes from the next page, not from where it began.
pub proof fn lemma_resume_from_next_page(page: ChangesPage)
    requires
        page.success,
        page.new_start_page_token.is_none(),
        page.next_page_token.is_some(),
    ensures
        token_after_page(page) == Some(page.next_page_token.unwrap()@),
{
}

} // verus!
