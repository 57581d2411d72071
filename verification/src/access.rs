//! What a caller may do: the record that the permission guard hands over
//! for one request.

use vstd::prelude::*;
use crate::path::{join, joined};

verus! {

/// Kind of permission on a path.
#[derive(Clone, Copy, Debug, PartialEq, Eq, Structural)]
pub enum AccessPerm {
    /// The directory may be listed; the files below it may not be read.
    IndexOnly,
    /// Everything below may be read.
    ReadOnly,
    /// Everything below may be read and changed.
    ReadWrite,
}

impl AccessPerm {
    pub open spec fn is_indexonly(&self) -> bool {
        *self == AccessPerm::IndexOnly
    }

    /// Whether the permission only allows listing.
    #[verifier::when_used_as_spec(is_indexonly)]
    pub fn indexonly(&self) -> (r: bool)
        ensures
            r == self.is_indexonly(),
    {
        matches!(self, AccessPerm::IndexOnly)
    }

    pub open spec fn is_readwrite(&self) -> bool {
        *self == AccessPerm::ReadWrite
    }

    /// Whether the permission allows changes.
    #[verifier::when_used_as_spec(is_readwrite)]
    pub fn readwrite(&self) -> (r: bool)
        ensures
            r == self.is_readwrite(),
    {
        matches!(self, AccessPerm::ReadWrite)
    }
}

/// The caller's permission on the requested path, with the names directly
/// below it that an index-only caller may see and the subtrees, relative to
/// it, that such a caller may walk.
#[derive(Clone, Debug, PartialEq, Eq)]
pub struct AccessPaths {
    pub perm: AccessPerm,
    pub children: Vec<String>,
    pub leaves: Vec<String>,
}

/// The subtrees below `base` that `leaves` name, in order; a leaf that
/// cannot lie below `base` is left out.
pub open spec fn leaves_below(base: Seq<char>, leaves: Seq<Seq<char>>) -> Seq<Seq<char>>
    decreases leaves.len(),
{
    if leaves.len() == 0 {
        Seq::<Seq<char>>::empty()
    } else {
        let front = leaves_below(base, leaves.drop_last());
        match joined(base, leaves.last()) {
            Some(p) => front.push(p),
            None => front,
        }
    }
}

impl AccessPaths {
    /// A permission without named children.
    pub fn new(perm: AccessPerm) -> (r: Self)
        ensures
            r.perm == perm,
            r.children@.len() == 0,
            r.leaves@.len() == 0,
    {
        AccessPaths { perm, children: Vec::new(), leaves: Vec::new() }
    }

    pub open spec fn spec_perm(&self) -> AccessPerm {
        self.perm
    }

    /// The kind of permission.
    #[verifier::when_used_as_spec(spec_perm)]
    pub fn perm(&self) -> (r: AccessPerm)
        ensures
            r == self.perm,
    {
        self.perm
    }

    /// The names directly below the path that an index-only caller may see.
    pub fn child_paths(&self) -> (r: &Vec<String>)
        ensures
            r == &self.children,
    {
        &self.children
    }

    /// The subtrees that the caller may walk when the target is `base`.
    pub open spec fn leaf_paths_spec(&self, base: Seq<char>) -> Seq<Seq<char>> {
        if self.perm.is_indexonly() {
            leaves_below(base, self.leaves.deep_view())
        } else {
            seq![base]
        }
    }

    /// The subtrees that the caller may walk when the target is `base`: all
    /// of `base` unless the permission is index-only, else the named leaves.
    pub fn leaf_paths(&self, base: &str) -> (r: Vec<String>)
        ensures
            r.deep_view() == self.leaf_paths_spec(base@),
    {
        let mut out: Vec<String> = Vec::new();
        if !self.perm.indexonly() {
            out.push(base.to_owned());
            assert(out.deep_view() =~= seq![base@]);
            return out;
        }
        let mut i: usize = 0;
        assert(out.deep_view() =~= Seq::<Seq<char>>::empty());
        assert(self.leaves.deep_view().take(0) =~= Seq::<Seq<char>>::empty());
        while i < self.leaves.len()
            invariant
                i <= self.leaves.len(),
                out.deep_view() == leaves_below(base@, self.leaves.deep_view().take(i as int)),
            decreases self.leaves.len() - i,
        {
            proof {
                let all = self.leaves.deep_view();
                let t = all.take(i + 1);
                assert(t.drop_last() =~= all.take(i as int));
                assert(t.last() == self.leaves@[i as int]@);
            }
            let ghost before = out.deep_view();
            match join(base, self.leaves[i].as_str()) {
                Some(p) => {
                    out.push(p);
                    assert(out.deep_view() =~= before.push(p@));
                },
                None => {},
            }
            i += 1;
        }
        assert(self.leaves.deep_view().take(self.leaves@.len() as int) =~= self.leaves.deep_view());
        out
    }
}

/// The guard's answer for one request.
#[derive(Clone, Debug, PartialEq, Eq)]
pub struct Guard {
    /// The authenticated user, if the request carried valid credentials.
    pub user: Option<String>,
    /// What the caller may do on the path; nothing when access is denied.
    pub access: Option<AccessPaths>,
    /// The challenge to send when credentials are missing; nothing when it
    /// could not be made up.
    pub challenge: Option<String>,
}

} // verus!
