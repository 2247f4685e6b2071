//! The base location against which every resource name is resolved.

use vstd::prelude::*;

verus! {

pub const SEPARATOR: u8 = 47;

/// The fixed root under which all resources live. It is chosen once, when
/// the host program starts, and never changes afterwards: resolution is a
/// pure join of this root with a resource name.
///
/// The two variants carry the same data; they record whether the full
/// location names a file on disk or a URL to request, which only the host
/// program acts on.
pub enum BaseLocation {
    /// A directory on the local filesystem, as its path bytes.
    Directory { prefix: Vec<u8> },
    /// A base URL on a remote server, as its text bytes.
    BaseUrl { prefix: Vec<u8> },
}

impl BaseLocation {
    /// The prefix every resolved location starts with.
    pub open spec fn spec_prefix(&self) -> Seq<u8> {
        match self {
            BaseLocation::Directory { prefix } => prefix@,
            BaseLocation::BaseUrl { prefix } => prefix@,
        }
    }

    /// A well-formed base: its prefix ends with the separator, so that a
    /// resolved location never runs the root and the name together.
    pub open spec fn wf(&self) -> bool {
        self.spec_prefix().len() > 0 && self.spec_prefix().last() == SEPARATOR
    }

    /// What a root becomes as a prefix: itself, with a separator appended
    /// unless it already ends with one.
    pub open spec fn spec_with_separator(root: Seq<u8>) -> Seq<u8> {
        if root.len() > 0 && root.last() == SEPARATOR {
            root
        } else {
            root.push(SEPARATOR)
        }
    }

    /// A base over a local directory.
    pub fn local_directory(root: Vec<u8>) -> (r: BaseLocation)
        ensures
            r.wf(),
            r is Directory,
            r.spec_prefix() == Self::spec_with_separator(root@),
    {
        BaseLocation::Directory { prefix: Self::terminated(root) }
    }

    /// A base over a remote URL.
    pub fn base_url(root: Vec<u8>) -> (r: BaseLocation)
        ensures
            r.wf(),
            r is BaseUrl,
            r.spec_prefix() == Self::spec_with_separator(root@),
    {
        BaseLocation::BaseUrl { prefix: Self::terminated(root) }
    }

    fn terminated(root: Vec<u8>) -> (r: Vec<u8>)
        ensures
            r@ == Self::spec_with_separator(root@),
            r@.len() > 0 && r@.last() == SEPARATOR,
    {
        let mut r = root;
        let n = r.len();
        if n == 0 || r[n - 1] != SEPARATOR {
            r.push(SEPARATOR);
        }
        r
    }

    /// Resolves a resource name: the full location is the base prefix with
    /// the name appended, and nothing else.
    pub fn resolve(&self, name: &[u8]) -> (r: Vec<u8>)
        ensures
            r@ == self.spec_prefix() + name@,
    {
        let prefix = match self {
            BaseLocation::Directory { prefix } => prefix,
            BaseLocation::BaseUrl { prefix } => prefix,
        };
        let mut r: Vec<u8> = Vec::new();
        r.extend_from_slice(prefix.as_slice());
        r.extend_from_slice(name);
        assert(r@ =~= self.spec_prefix() + name@);
        r
    }
}

/// Law: resolution is injective for a fixed base. Two distinct resource
/// names never resolve to the same full location, so distinct resources are
/// always read from distinct files or URLs.
pub proof fn lemma_resolve_injective(base: BaseLocation, name1: Seq<u8>, name2: Seq<u8>)
    requires
        name1 != name2,
    ensures
        base.spec_prefix() + name1 != base.spec_prefix() + name2,
{
    let p = base.spec_prefix();
    if p + name1 == p + name2 {
        assert((p + name1).len() == p.len() + name1.len());
        assert((p + name2).len() == p.len() + name2.len());
        assert(name1.len() == name2.len());
        assert forall|i: int| 0 <= i < name1.len() implies name1[i] == name2[i] by {
            assert((p + name1)[p.len() + i] == name1[i]);
            assert((p + name2)[p.len() + i] == name2[i]);
        }
        assert(name1 =~= name2);
    }
}

} // verus!
