//! How a local copy of an asset compares with the upstream snapshot, and
//! where that local copy lives.
use vstd::prelude::*;
use crate::model::AssetKind;

verus! {

/// State of the local copy of an asset against the upstream snapshot.
#[derive(Debug, Clone, Copy, PartialEq, Eq, Structural)]
pub enum LocalStatus {
    Missing,
    Same,
    Diff,
    NA,
}

/// One asset's local-copy status.
#[derive(Debug, Clone)]
pub struct DiffEntry {
    pub kind: AssetKind,
    pub relative_path: String,
    pub status: LocalStatus,
}

/// The status of an asset's local copy: not applicable to collections,
/// missing when there is no local file, and otherwise whether the local and
/// upstream fingerprints agree.
pub open spec fn status_of(kind: AssetKind, local_exists: bool, upstream_hash: Seq<char>, local_hash: Seq<char>) -> LocalStatus {
    if kind == AssetKind::Collection {
        LocalStatus::NA
    } else if !local_exists {
        LocalStatus::Missing
    } else if upstream_hash == local_hash {
        LocalStatus::Same
    } else {
        LocalStatus::Diff
    }
}

/// Decides the local-copy status from whether the local file exists and
/// the fingerprints of the upstream and local files.
pub fn compute_local_status(kind: AssetKind, local_exists: bool, upstream_hash: &str, local_hash: &str) -> (r: LocalStatus)
    ensures
        r == status_of(kind, local_exists, upstream_hash@, local_hash@),
{
    if kind == AssetKind::Collection {
        LocalStatus::NA
    } else if !local_exists {
        LocalStatus::Missing
    } else if crate::text::text_eq(upstream_hash, local_hash) {
        LocalStatus::Same
    } else {
        LocalStatus::Diff
    }
}

/// `p` without its first `/`-separated segment (empty when it has none).
pub open spec fn without_first_segment(p: Seq<char>) -> Seq<char> {
    if exists|i: int| 0 <= i < p.len() && p[i] == '/' {
        let i = choose|i: int| 0 <= i < p.len() && p[i] == '/' && forall|k: int| 0 <= k < i ==> p[k] != '/';
        p.skip(i + 1)
    } else {
        Seq::empty()
    }
}

/// Where an upstream path (`prompts/x.prompt.md`) lives under the local
/// directory of its kind: the path without its leading directory.
pub fn relative_path_for_kind(kind: AssetKind, relative_path: &str) -> (r: String)
    ensures
        r@ == without_first_segment(relative_path@),
{
    let n = relative_path.unicode_len();
    let mut i: usize = 0;
    while i < n && relative_path.get_char(i) != '/'
        invariant
            n == relative_path@.len(),
            i <= n,
            forall|k: int| 0 <= k < i ==> relative_path@[k] != '/',
        decreases n - i,
    {
        i = i + 1;
    }
    if i == n {
        return String::new();
    }
    let rest = relative_path.substring_char(i + 1, n).to_owned();
    proof {
        let p = relative_path@;
        let c = choose|c: int| 0 <= c < p.len() && p[c] == '/' && forall|k: int| 0 <= k < c ==> p[k] != '/';
        if c < i {
        } else if c > i {
            assert(p[i as int] == '/');
        }
        assert(rest@ =~= p.skip(i + 1));
    }
    rest
}

} // verus!
