//! The lint as a whole: from a decoded lock document to a verdict and the
//! exit code that goes with it.

use crate::duplicates::{duplicate_groups, find_duplicates, lemma_no_groups_iff_distinct};
use crate::inputs::{canonical_inputs, parse_inputs};
use crate::lock::{FlakeLock, LockDocument, SUPPORTED_VERSION};
use crate::ordered_map::OrderedMap;
use vstd::prelude::*;

verus! {

/// What the lint found.
#[derive(Debug)]
pub enum Verdict {
    /// The document has a schema version that the linter does not read.
    /// Nothing else was looked at.
    UnsupportedVersion { found: usize },
    /// No two inputs share a canonical URI.
    NoDuplicates,
    /// Some inputs share a canonical URI: the groups, none of them empty.
    DuplicatesFound { groups: OrderedMap<Vec<String>> },
}

/// The model of a [`Verdict`].
pub enum Outcome {
    UnsupportedVersion { found: nat },
    NoDuplicates,
    DuplicatesFound { groups: Seq<(Seq<char>, Seq<Seq<char>>)> },
}

impl View for Verdict {
    type V = Outcome;

    open spec fn view(&self) -> Outcome {
        match *self {
            Verdict::UnsupportedVersion { found } => Outcome::UnsupportedVersion {
                found: found as nat,
            },
            Verdict::NoDuplicates => Outcome::NoDuplicates,
            Verdict::DuplicatesFound { groups } => Outcome::DuplicatesFound { groups: groups@ },
        }
    }
}

/// The outcome of the lint on a document. A document of another schema
/// version is turned down whatever its nodes are. Otherwise the nodes are
/// canonicalized and the duplicate groups among them decide.
pub open spec fn lint_outcome(document: LockDocument) -> Outcome {
    if document.schema_version != SUPPORTED_VERSION {
        Outcome::UnsupportedVersion { found: document.schema_version }
    } else {
        let groups = duplicate_groups(canonical_inputs(document.nodes));
        if groups.len() == 0 {
            Outcome::NoDuplicates
        } else {
            Outcome::DuplicatesFound { groups }
        }
    }
}

/// The exit code of a run with this outcome: 0 where no duplicates were
/// found, 1 otherwise.
pub open spec fn exit_code_of(outcome: Outcome) -> int {
    if outcome is NoDuplicates {
        0
    } else {
        1
    }
}

/// Lints a decoded lock document.
pub fn lint(flake_lock: FlakeLock) -> (verdict: Verdict)
    ensures
        verdict@ == lint_outcome(flake_lock@),
{
    if flake_lock.version != SUPPORTED_VERSION {
        return Verdict::UnsupportedVersion { found: flake_lock.version };
    }
    let inputs = parse_inputs(flake_lock);
    let duplicates = find_duplicates(inputs);
    if duplicates.is_empty() {
        Verdict::NoDuplicates
    } else {
        Verdict::DuplicatesFound { groups: duplicates }
    }
}

impl Verdict {
    /// The exit code of a run that ends with this verdict.
    pub fn exit_code(&self) -> (code: i32)
        ensures
            code == exit_code_of(self@),
    {
        match self {
            Verdict::NoDuplicates => 0,
            _ => 1,
        }
    }
}

/// A document of any schema version but the supported one is turned down
/// with exit code 1, and its nodes play no part: the outcome names the
/// version that was found and is the same whatever the nodes are.
pub proof fn lemma_unsupported_version_is_fatal(document: LockDocument, other: LockDocument)
    requires
        document.schema_version != SUPPORTED_VERSION,
        other.schema_version == document.schema_version,
    ensures
        lint_outcome(document) == (Outcome::UnsupportedVersion { found: document.schema_version }),
        lint_outcome(other) == lint_outcome(document),
        exit_code_of(lint_outcome(document)) == 1,
{
}

/// A document of the supported version in which every locked node has a
/// canonical URI of its own is clean: the lint finds no duplicates and the
/// exit code is 0.
pub proof fn lemma_distinct_uris_are_clean(document: LockDocument)
    requires
        document.schema_version == SUPPORTED_VERSION,
        forall|i: int, j: int|
            0 <= i < j < canonical_inputs(document.nodes).len() ==> (
            #[trigger] canonical_inputs(document.nodes)[i]).1 != (#[trigger] canonical_inputs(
                document.nodes,
            )[j]).1,
    ensures
        lint_outcome(document) == Outcome::NoDuplicates,
        exit_code_of(lint_outcome(document)) == 0,
{
    lemma_no_groups_iff_distinct(canonical_inputs(document.nodes));
}

} // verus!
