//! The lock document: named nodes, each optionally locked to a source.

use crate::ordered_map::OrderedMap;
use vstd::prelude::*;

verus! {

/// The one schema version that the linter reads.
pub const SUPPORTED_VERSION: usize = 7;

/// Where a node is locked to. The kind decides which fields there are: the
/// hosted repositories have an owner and a repository name, the plain
/// transports have a URL, a local source has a path.
#[derive(Debug, PartialEq, Eq)]
pub enum Locked {
    GitHub { owner: String, repo: String },
    GitLab { owner: String, repo: String },
    SourceHut { owner: String, repo: String },
    Git { url: String },
    Hg { url: String },
    Tarball { url: String },
    Path { path: String },
}

/// The model of a [`Locked`]: the same record over sequences of characters.
pub enum LockedSource {
    GitHub { owner: Seq<char>, repo: Seq<char> },
    GitLab { owner: Seq<char>, repo: Seq<char> },
    SourceHut { owner: Seq<char>, repo: Seq<char> },
    Git { url: Seq<char> },
    Hg { url: Seq<char> },
    Tarball { url: Seq<char> },
    Path { path: Seq<char> },
}

impl View for Locked {
    type V = LockedSource;

    open spec fn view(&self) -> LockedSource {
        match *self {
            Locked::GitHub { owner, repo } => LockedSource::GitHub { owner: owner@, repo: repo@ },
            Locked::GitLab { owner, repo } => LockedSource::GitLab { owner: owner@, repo: repo@ },
            Locked::SourceHut { owner, repo } => LockedSource::SourceHut {
                owner: owner@,
                repo: repo@,
            },
            Locked::Git { url } => LockedSource::Git { url: url@ },
            Locked::Hg { url } => LockedSource::Hg { url: url@ },
            Locked::Tarball { url } => LockedSource::Tarball { url: url@ },
            Locked::Path { path } => LockedSource::Path { path: path@ },
        }
    }
}

impl DeepView for Locked {
    type V = LockedSource;

    open spec fn deep_view(&self) -> LockedSource {
        self@
    }
}

/// One entry of the lock document. A node without a locked source takes no
/// part in the lint.
#[derive(Debug)]
pub struct Node {
    pub locked: Option<Locked>,
}

impl View for Node {
    type V = Option<LockedSource>;

    open spec fn view(&self) -> Option<LockedSource> {
        match self.locked {
            Some(locked) => Some(locked@),
            None => None,
        }
    }
}

impl DeepView for Node {
    type V = Option<LockedSource>;

    open spec fn deep_view(&self) -> Option<LockedSource> {
        self@
    }
}

/// A decoded lock document.
#[derive(Debug)]
pub struct FlakeLock {
    pub nodes: OrderedMap<Node>,
    pub version: usize,
    pub root: String,
}

/// The model of a [`FlakeLock`]: its schema version and its nodes in order,
/// each a name with the source it is locked to, if any. The root entry plays
/// no part in the lint and is left out.
pub struct LockDocument {
    pub schema_version: nat,
    pub nodes: Seq<(Seq<char>, Option<LockedSource>)>,
}

impl View for FlakeLock {
    type V = LockDocument;

    open spec fn view(&self) -> LockDocument {
        LockDocument { schema_version: self.version as nat, nodes: self.nodes@ }
    }
}

} // verus!
