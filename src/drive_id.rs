//! Stable identifiers of remote objects.

use vstd::prelude::*;

verus! {

/// The identifier that the remote tree's root always has once normalised.
pub open spec fn root_id_view() -> Seq<char> {
    seq!['r', 'o', 'o', 't']
}

/// A stable identifier of a remote object; equal when the strings are equal.
#[derive(Debug, Hash, PartialEq, Eq)]
pub struct DriveId(pub String);

impl DeepView for DriveId {
    type V = Seq<char>;

    open spec fn deep_view(&self) -> Seq<char> {
        self.0@
    }
}

impl View for DriveId {
    type V = Seq<char>;

    open spec fn view(&self) -> Seq<char> {
        self.0@
    }
}

impl Clone for DriveId {
    fn clone(&self) -> (r: Self)
        ensures
            r == *self,
    {
        DriveId(self.0.clone())
    }
}

impl DriveId {
    /// Builds an identifier from its string form.
    pub fn from_str(s: &str) -> (r: DriveId)
        ensures
            r@ == s@,
    {
        DriveId(String::from_str(s))
    }

    /// The string form of the identifier.
    pub fn as_str(&self) -> (r: &str)
        ensures
            r@ == self@,
    {
        self.0.as_str()
    }

    /// The display form of the identifier: its string in square brackets.
    pub fn to_string(&self) -> (r: String)
        ensures
            r@ == seq!['['] + self@ + seq![']'],
    {
        proof {
            reveal_strlit("[");
            reveal_strlit("]");
            assert("["@ =~= seq!['[']);
            assert("]"@ =~= seq![']']);
        }
        let mut r = String::from_str("[");
        r.append(self.0.as_str());
        r.append("]");
        r
    }

    /// Whether two identifiers name the same object.
    pub fn same(&self, other: &DriveId) -> (r: bool)
        ensures
            r == (self@ == other@),
    {
        self.0 == other.0
    }
}

/// The canonical identifier of the tree's root.
pub fn root_id() -> (r: DriveId)
    ensures
        r@ == root_id_view(),
{
    proof {
        reveal_strlit("root");
    }
    DriveId::from_str("root")
}

} // verus!
