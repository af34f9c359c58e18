//! Keeping a local checkout of a GitHub skill in sync: the refs a name may
//! stand for, and how failures of the git library are reported.
use vstd::prelude::*;

use crate::text;

pub mod git2_backend;
pub mod gix;

verus! {

/// `p` occurs in `s` at index `i`.
pub open spec fn occurs_at(s: Seq<char>, p: Seq<char>, i: int) -> bool {
    0 <= i && i + p.len() <= s.len() && s.subrange(i, i + p.len()) == p
}

/// `p` occurs in `s` (`str::contains`).
pub open spec fn contains_text(s: Seq<char>, p: Seq<char>) -> bool {
    exists|i: int| occurs_at(s, p, i)
}

/// Whether `p` occurs in `s`.
pub fn contains_exec(s: &str, p: &str) -> (b: bool)
    ensures
        b == contains_text(s@, p@),
{
    let sc = text::chars_of(s);
    let pc = text::chars_of(p);
    if pc.len() > sc.len() {
        proof {
            assert forall|i: int| !occurs_at(s@, p@, i) by {}
        }
        return false;
    }
    let last = sc.len() - pc.len();
    let mut i: usize = 0;
    loop
        invariant
            pc.len() <= sc.len(),
            last == sc.len() - pc.len(),
            sc@ == s@,
            pc@ == p@,
            i <= last,
            forall|j: int| 0 <= j < i ==> !occurs_at(s@, p@, j),
        decreases last - i,
    {
        let mut k: usize = 0;
        let mut same = true;
        while k < pc.len() && same
            invariant
                pc.len() <= sc.len(),
                i <= sc.len() - pc.len(),
                k <= pc.len(),
                same ==> forall|m: int| 0 <= m < k ==> sc@[i + m] == pc@[m],
                !same ==> sc@.subrange(i as int, i + pc.len()) != pc@,
            decreases pc.len() - k + (if same {
                1int
            } else {
                0
            }),
        {
            if sc[i + k] != pc[k] {
                assert(sc@.subrange(i as int, i + pc.len())[k as int] != pc@[k as int]);
                same = false;
            } else {
                k = k + 1;
            }
        }
        if same {
            assert(sc@.subrange(i as int, i + pc.len()) =~= pc@);
            assert(occurs_at(s@, p@, i as int));
            return true;
        }
        assert(!occurs_at(s@, p@, i as int));
        if i == last {
            proof {
                assert forall|j: int| !occurs_at(s@, p@, j) by {
                    if 0 <= j <= i {
                    } else if j > i {
                        assert(j + p@.len() > s@.len());
                    }
                }
            }
            return false;
        }
        i = i + 1;
    }
}

/// The names tried, in order, for a ref that is not `HEAD` or a commit id:
/// as given, then as a branch, a tag, and a branch of `origin`.
pub open spec fn spec_ref_candidates(r: Seq<char>) -> Seq<Seq<char>> {
    seq![r, "refs/heads/"@ + r, "refs/tags/"@ + r, "refs/remotes/origin/"@ + r]
}

/// `prefix` followed by `r`.
fn prefixed(prefix: &str, r: &str) -> (out: String)
    ensures
        out@ == prefix@ + r@,
{
    let mut s = text::owned(prefix);
    text::string_push_str(&mut s, r);
    s
}

/// The names tried, in order, for a ref (see `spec_ref_candidates`).
pub fn ref_candidates(r: &str) -> (out: Vec<String>)
    ensures
        text::string_views(out@) == spec_ref_candidates(r@),
{
    let v = vec![
        text::owned(r),
        prefixed("refs/heads/", r),
        prefixed("refs/tags/", r),
        prefixed("refs/remotes/origin/", r),
    ];
    assert(text::string_views(v@) =~= spec_ref_candidates(r@));
    v
}

/// Whether a ref name means the checked-out head.
pub fn is_head(r: &str) -> (b: bool)
    ensures
        b == (r@ == "HEAD"@),
{
    text::chars_eq(&text::chars_of(r), &text::chars_of("HEAD"))
}

/// A message that names a network failure.
pub open spec fn names_network_failure(msg: Seq<char>) -> bool {
    contains_text(msg, "Could not resolve host"@) || contains_text(msg, "timed out"@)
        || contains_text(msg, "connection"@) || contains_text(msg, "TLS"@)
}

/// Whether a message names a network failure.
pub fn names_network_failure_exec(msg: &str) -> (b: bool)
    ensures
        b == names_network_failure(msg@),
{
    contains_exec(msg, "Could not resolve host") || contains_exec(msg, "timed out")
        || contains_exec(msg, "connection") || contains_exec(msg, "TLS")
}

} // verus!
