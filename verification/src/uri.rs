//! Canonical URIs: one string per locked source, equal for two sources
//! exactly when they name the same origin.

use crate::lock::{Locked, LockedSource};
use vstd::prelude::*;
use vstd::string::StringExecFns;

verus! {

/// What `str::to_lowercase` of the standard library returns for a string
/// with the characters `text`.
pub uninterp spec fn lowercase(text: Seq<char>) -> Seq<char>;

/// Lowercases a string with `str::to_lowercase`.
///
/// Trusted: the result is taken to be `lowercase` of the argument, which
/// says only that the conversion depends on the characters of the string and
/// on nothing else. Nothing is claimed about which characters come out.
#[verifier::external_body]
fn to_lowercase(text: &str) -> (lowered: String)
    ensures
        lowered@ == lowercase(text@),
{
    text.to_lowercase()
}

/// The text `kind:owner/repo`, with its parts as they are given.
pub open spec fn joined_scm(kind: Seq<char>, owner: Seq<char>, repo: Seq<char>) -> Seq<char> {
    kind + seq![':'] + owner + seq!['/'] + repo
}

/// The canonical URI of a hosted repository: `kind:owner/repo`, with the
/// owner and the repository name in lower case.
pub open spec fn scm_uri(kind: Seq<char>, owner: Seq<char>, repo: Seq<char>) -> Seq<char> {
    joined_scm(kind, lowercase(owner), lowercase(repo))
}

/// The canonical URI of a source that is named by a URL or a path: `kind:`
/// and then the URL or path, unchanged.
pub open spec fn url_uri(kind: Seq<char>, url: Seq<char>) -> Seq<char> {
    kind + seq![':'] + url
}

/// The tag under which a kind of source is written.
pub open spec fn kind_name(source: LockedSource) -> Seq<char> {
    match source {
        LockedSource::GitHub { .. } => seq!['g', 'i', 't', 'h', 'u', 'b'],
        LockedSource::GitLab { .. } => seq!['g', 'i', 't', 'l', 'a', 'b'],
        LockedSource::SourceHut { .. } => seq!['s', 'o', 'u', 'r', 'c', 'e', 'h', 'u', 't'],
        LockedSource::Git { .. } => seq!['g', 'i', 't'],
        LockedSource::Hg { .. } => seq!['h', 'g'],
        LockedSource::Tarball { .. } => seq!['t', 'a', 'r', 'b', 'a', 'l', 'l'],
        LockedSource::Path { .. } => seq!['p', 'a', 't', 'h'],
    }
}

/// The canonical URI of a locked source.
pub open spec fn canonical_uri(source: LockedSource) -> Seq<char> {
    match source {
        LockedSource::GitHub { owner, repo }
        | LockedSource::GitLab { owner, repo }
        | LockedSource::SourceHut { owner, repo } => scm_uri(kind_name(source), owner, repo),
        LockedSource::Git { url } | LockedSource::Hg { url } | LockedSource::Tarball { url } => url_uri(
            kind_name(source),
            url,
        ),
        LockedSource::Path { path } => url_uri(kind_name(source), path),
    }
}

/// The canonical URI of a hosted repository is its kind, a colon, and then
/// the owner and the repository name as lowercasing returns them, with a
/// slash between the two.
pub proof fn lemma_scm_uri_parts(kind: Seq<char>, owner: Seq<char>, repo: Seq<char>)
    ensures
        scm_uri(kind, owner, repo).take(kind.len() as int) == kind,
        scm_uri(kind, owner, repo)[kind.len() as int] == ':',
        scm_uri(kind, owner, repo).skip(kind.len() as int + 1) == lowercase(owner) + seq!['/']
            + lowercase(repo),
{
    let uri = scm_uri(kind, owner, repo);
    assert(uri.take(kind.len() as int) =~= kind);
    assert(uri.skip(kind.len() as int + 1) =~= lowercase(owner) + seq!['/'] + lowercase(repo));
}

/// The casing of an owner and of a repository name plays no part: two
/// hosted repositories of one kind whose owners lowercase to the same text,
/// and whose names do, have the same canonical URI.
pub proof fn lemma_scm_uri_ignores_case(
    kind: Seq<char>,
    owner: Seq<char>,
    repo: Seq<char>,
    other_owner: Seq<char>,
    other_repo: Seq<char>,
)
    requires
        lowercase(owner) == lowercase(other_owner),
        lowercase(repo) == lowercase(other_repo),
    ensures
        scm_uri(kind, owner, repo) == scm_uri(kind, other_owner, other_repo),
{
}

/// The canonical URI of a source that is named by a URL or a path is its
/// kind, a colon, and then the URL or path exactly as given.
pub proof fn lemma_url_uri_parts(kind: Seq<char>, url: Seq<char>)
    ensures
        url_uri(kind, url).take(kind.len() as int) == kind,
        url_uri(kind, url)[kind.len() as int] == ':',
        url_uri(kind, url).skip(kind.len() as int + 1) == url,
{
    let uri = url_uri(kind, url);
    assert(uri.take(kind.len() as int) =~= kind);
    assert(uri.skip(kind.len() as int + 1) =~= url);
}

/// Two sources of one kind that are named by a URL have the same canonical
/// URI only if the URLs are the same, character by character.
pub proof fn lemma_url_uri_tells_urls_apart(kind: Seq<char>, url: Seq<char>, other: Seq<char>)
    ensures
        url_uri(kind, url) == url_uri(kind, other) <==> url == other,
{
    lemma_url_uri_parts(kind, url);
    lemma_url_uri_parts(kind, other);
}

/// Joins a kind, an owner and a repository name into `kind:owner/repo`.
/// The parts are taken as they are; `make_scm_uri` lowercases first.
pub fn join_scm_uri(node_type: &str, owner: &str, repo: &str) -> (uri: String)
    ensures
        uri@ == joined_scm(node_type@, owner@, repo@),
{
    let mut uri = String::from_str(node_type);
    uri.append(":");
    uri.append(owner);
    uri.append("/");
    uri.append(repo);
    proof {
        reveal_strlit(":");
        reveal_strlit("/");
        assert(":"@ =~= seq![':']);
        assert("/"@ =~= seq!['/']);
    }
    uri
}

/// The canonical URI of a hosted repository.
pub fn make_scm_uri(node_type: &str, owner: &str, repo: &str) -> (uri: String)
    ensures
        uri@ == scm_uri(node_type@, owner@, repo@),
{
    let owner = to_lowercase(owner);
    let repo = to_lowercase(repo);
    join_scm_uri(node_type, owner.as_str(), repo.as_str())
}

/// The canonical URI of a source that is named by a URL.
pub fn make_url_uri(node_type: &str, url: &str) -> (uri: String)
    ensures
        uri@ == url_uri(node_type@, url@),
{
    let mut uri = String::from_str(node_type);
    uri.append(":");
    uri.append(url);
    proof {
        reveal_strlit(":");
        assert(":"@ =~= seq![':']);
    }
    uri
}

/// The canonical URI of a locked source. Every kind has one: this cannot
/// fail.
pub fn flake_uri(lock: Locked) -> (uri: String)
    ensures
        uri@ == canonical_uri(lock@),
{
    let ghost source = lock@;
    match lock {
        Locked::GitHub { owner, repo } => {
            proof {
                reveal_strlit("github");
                assert("github"@ =~= kind_name(source));
            }
            make_scm_uri("github", owner.as_str(), repo.as_str())
        },
        Locked::GitLab { owner, repo } => {
            proof {
                reveal_strlit("gitlab");
                assert("gitlab"@ =~= kind_name(source));
            }
            make_scm_uri("gitlab", owner.as_str(), repo.as_str())
        },
        Locked::SourceHut { owner, repo } => {
            proof {
                reveal_strlit("sourcehut");
                assert("sourcehut"@ =~= kind_name(source));
            }
            make_scm_uri("sourcehut", owner.as_str(), repo.as_str())
        },
        Locked::Git { url } => {
            proof {
                reveal_strlit("git");
                assert("git"@ =~= kind_name(source));
            }
            make_url_uri("git", url.as_str())
        },
        Locked::Hg { url } => {
            proof {
                reveal_strlit("hg");
                assert("hg"@ =~= kind_name(source));
            }
            make_url_uri("hg", url.as_str())
        },
        Locked::Tarball { url } => {
            proof {
                reveal_strlit("tarball");
                assert("tarball"@ =~= kind_name(source));
            }
            make_url_uri("tarball", url.as_str())
        },
        Locked::Path { path } => {
            proof {
                reveal_strlit("path");
                assert("path"@ =~= kind_name(source));
            }
            make_url_uri("path", path.as_str())
        },
    }
}

} // verus!
