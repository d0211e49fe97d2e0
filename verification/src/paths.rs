//! Walking up a directory tree in search of a configuration file.
//!
//! The walk is pure path arithmetic; whether a file exists is asked of a
//! caller-supplied oracle, so the walk itself does no I/O.
use vstd::prelude::*;

verus! {

/// `std::path::Path::parent` of a path: the path without its final
/// component, or `None` for a root or empty path.
pub uninterp spec fn parent_path(p: Seq<char>) -> Option<Seq<char>>;

/// `std::path::Path::join` of a directory and a relative name.
pub uninterp spec fn joined_path(dir: Seq<char>, name: Seq<char>) -> Seq<char>;

/// Calls `std::path::Path::parent`; the result depends on the path text alone.
#[verifier::external_body]
pub(crate) fn path_parent(p: &str) -> (r: Option<String>)
    ensures
        match r {
            Some(q) => parent_path(p@) == Some(q@),
            None => parent_path(p@) is None,
        },
{
    std::path::Path::new(p).parent().map(|q| q.to_string_lossy().into_owned())
}

/// Calls `std::path::Path::join`; the result depends on the two texts alone.
#[verifier::external_body]
fn path_join(dir: &str, name: &str) -> (r: String)
    ensures
        r@ == joined_path(dir@, name@),
{
    std::path::Path::new(dir).join(name).to_string_lossy().into_owned()
}

/// One step up: the parent, when there is one that is strictly shorter.
pub open spec fn walk_step(p: Seq<char>) -> Option<Seq<char>> {
    match parent_path(p) {
        Some(q) => if q.len() < p.len() {
            Some(q)
        } else {
            None
        },
        None => None,
    }
}

/// The directory `k` steps up from `p`, if the walk gets that far.
pub open spec fn ancestor(p: Seq<char>, k: nat) -> Option<Seq<char>>
    decreases k,
{
    if k == 0 {
        Some(p)
    } else {
        match ancestor(p, (k - 1) as nat) {
            Some(q) => walk_step(q),
            None => None,
        }
    }
}

/// The oracle `f` answered `b` when asked about `path`.
pub open spec fn answered<F: Fn(&str) -> bool>(f: F, path: Seq<char>, b: bool) -> bool {
    exists|s: &str| s@ == path && call_ensures(f, (s,), b)
}

/// The candidate file in the directory `k` steps up from `start`.
pub open spec fn candidate_at(start: Seq<char>, name: Seq<char>, k: nat) -> Option<Seq<char>> {
    match ancestor(start, k) {
        Some(d) => Some(joined_path(d, name)),
        None => None,
    }
}

/// The candidate `k` steps up, if the walk reaches it, was answered `false`.
pub open spec fn passed_over<F: Fn(&str) -> bool>(f: F, start: Seq<char>, name: Seq<char>, k: nat) -> bool {
    match candidate_at(start, name, k) {
        Some(p) => answered(f, p, false),
        None => true,
    }
}

/// The walk from `start` finds `c` at step `k`: every earlier candidate was
/// answered `false`, and `c` was answered `true`.
pub open spec fn found_at<F: Fn(&str) -> bool>(f: F, start: Seq<char>, name: Seq<char>, k: nat, c: Seq<char>) -> bool {
    &&& candidate_at(start, name, k) == Some(c)
    &&& answered(f, c, true)
    &&& forall|j: nat| j < k ==> #[trigger] passed_over(f, start, name, j)
}

/// The walk from `start` finds a candidate somewhere.
pub open spec fn found<F: Fn(&str) -> bool>(f: F, start: Seq<char>, name: Seq<char>, c: Seq<char>) -> bool {
    exists|k: nat| #[trigger] found_at(f, start, name, k, c)
}

/// Every candidate of the walk from `start` was answered `false`.
pub open spec fn none_found<F: Fn(&str) -> bool>(f: F, start: Seq<char>, name: Seq<char>) -> bool {
    forall|k: nat| #[trigger] passed_over(f, start, name, k)
}

/// Walk upward from `start_dir`, asking `is_file` about `file_name` in each
/// directory; the first directory where the oracle answers `true` wins, and
/// walking stops at the root.
pub fn find_upward<F: Fn(&str) -> bool>(start_dir: &str, file_name: &str, is_file: &F) -> (r: Option<
    String,
>)
    requires
        forall|s: &str| is_file.requires((s,)),
    ensures
        match r {
            Some(c) => found(*is_file, start_dir@, file_name@, c@),
            None => none_found(*is_file, start_dir@, file_name@),
        },
{
    let mut dir = String::from_str(start_dir);
    let ghost mut k: nat = 0;
    loop
        invariant
            forall|s: &str| is_file.requires((s,)),
            ancestor(start_dir@, k) == Some(dir@),
            forall|j: nat| j < k ==> #[trigger] passed_over(*is_file, start_dir@, file_name@, j),
        decreases dir@.len(),
    {
        let candidate = path_join(dir.as_str(), file_name);
        let found = is_file(candidate.as_str());
        if found {
            assert(found_at(*is_file, start_dir@, file_name@, k, candidate@));
            return Some(candidate);
        }
        assert(answered(*is_file, candidate@, false));
        assert(passed_over(*is_file, start_dir@, file_name@, k));
        match path_parent(dir.as_str()) {
            Some(parent) => {
                let shorter = crate::text::chars_vec(parent.as_str()).len()
                    < crate::text::chars_vec(dir.as_str()).len();
                if !shorter {
                    proof {
                        assert(ancestor(start_dir@, k + 1) is None);
                        lemma_walk_ends(start_dir@, file_name@, k, *is_file);
                    }
                    return None;
                }
                proof {
                    assert(ancestor(start_dir@, k + 1) == Some(parent@));
                    k = k + 1;
                }
                dir = parent;
            },
            None => {
                proof {
                    assert(ancestor(start_dir@, k + 1) is None);
                    lemma_walk_ends(start_dir@, file_name@, k, *is_file);
                }
                return None;
            },
        }
    }
}

/// Once the walk has ended it stays ended.
proof fn lemma_ancestor_none_after(start: Seq<char>, k: nat, m: nat)
    requires
        ancestor(start, k) is None,
        k <= m,
    ensures
        ancestor(start, m) is None,
    decreases m - k,
{
    if k < m {
        lemma_ancestor_none_after(start, k, (m - 1) as nat);
    }
}

/// When the walk ends after step `k`, and every candidate up to `k` was
/// answered `false`, every candidate of the walk was.
proof fn lemma_walk_ends<F: Fn(&str) -> bool>(start: Seq<char>, name: Seq<char>, k: nat, f: F)
    requires
        ancestor(start, k + 1) is None,
        forall|j: nat| j < k ==> #[trigger] passed_over(f, start, name, j),
        passed_over(f, start, name, k),
    ensures
        forall|m: nat| #[trigger] passed_over(f, start, name, m),
{
    assert forall|m: nat| #[trigger] passed_over(f, start, name, m) by {
        if m > k {
            lemma_ancestor_none_after(start, k + 1, m);
        }
    }
}

} // verus!
