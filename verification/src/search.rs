//! Case-insensitive substring search over pull requests: the query and each
//! searched field are lowercased, and a pull request matches when any of its
//! title, author, repository short name or qualified name contains the query.

use crate::models::{spec_full_name, PrModel, PullRequest};
use crate::strutil::lower_of;
use vstd::prelude::*;

verus! {

/// `needle` occurs contiguously inside `hay`.
pub open spec fn seq_contains_sub(hay: Seq<char>, needle: Seq<char>) -> bool {
    exists|i: int|
        0 <= i <= hay.len() - needle.len() && #[trigger] hay.subrange(i, i + needle.len())
            == needle
}

/// Verified substring search, character by character.
pub fn str_contains(hay: &str, needle: &str) -> (r: bool)
    ensures
        r == seq_contains_sub(hay@, needle@),
{
    let h = hay.unicode_len();
    let n = needle.unicode_len();
    if n > h {
        return false;
    }
    if n == 0 {
        proof {
            assert(hay@.subrange(0, 0 + needle@.len() as int) =~= needle@);
        }
        return true;
    }
    let mut i: usize = 0;
    while i <= h - n
        invariant
            1 <= n <= h,
            h == hay@.len(),
            n == needle@.len(),
            i <= h - n + 1,
            forall|k: int|
                0 <= k < i ==> #[trigger] hay@.subrange(k, k + needle@.len()) != needle@,
        decreases h - n - i + 1,
    {
        let mut j: usize = 0;
        let mut matches = true;
        while j < n
            invariant
                n <= h,
                h == hay@.len(),
                n == needle@.len(),
                i <= h - n,
                j <= n,
                matches ==> forall|k: int| 0 <= k < j ==> hay@[i + k] == needle@[k],
                !matches ==> hay@.subrange(i as int, i + needle@.len()) != needle@,
            decreases n - j,
        {
            if !(hay.get_char(i + j) == needle.get_char(j)) {
                proof {
                    assert(hay@.subrange(i as int, i + needle@.len())[j as int] == hay@[i + j]);
                }
                matches = false;
                j = n;
            } else {
                j = j + 1;
            }
        }
        if matches {
            proof {
                assert(hay@.subrange(i as int, i + needle@.len()) =~= needle@);
            }
            return true;
        }
        i = i + 1;
    }
    proof {
        assert forall|k: int| 0 <= k <= hay@.len() - needle@.len() implies #[trigger] hay@.subrange(
            k,
            k + needle@.len(),
        ) != needle@ by {
            assert(k < i);
        }
    }
    false
}

/// A pull request matches a lowercased query when any searched field,
/// lowercased, contains it.
pub open spec fn pr_matches(lq: Seq<char>, pr: PrModel) -> bool {
    ||| seq_contains_sub(lower_of(pr.title), lq)
    ||| seq_contains_sub(lower_of(pr.author), lq)
    ||| seq_contains_sub(lower_of(pr.repo_name), lq)
    ||| seq_contains_sub(lower_of(spec_full_name(pr.repo_owner, pr.repo_name)), lq)
}

/// Whether `pr` matches the already-lowercased query `lq`.
pub fn pr_matches_query(lq: &str, pr: &PullRequest) -> (r: bool)
    ensures
        r == pr_matches(lq@, pr@),
{
    let t = pr.title.as_str().to_lowercase();
    if str_contains(t.as_str(), lq) {
        return true;
    }
    let a = pr.author.as_str().to_lowercase();
    if str_contains(a.as_str(), lq) {
        return true;
    }
    let s = pr.repo_name.as_str().to_lowercase();
    if str_contains(s.as_str(), lq) {
        return true;
    }
    let full = pr.repo_full_name();
    let f = full.as_str().to_lowercase();
    str_contains(f.as_str(), lq)
}

/// The pull requests that survive filtering with `query`: everything when the
/// query is empty, otherwise those matching the lowercased query.
pub open spec fn spec_filter_prs(query: Seq<char>, prs: Seq<PrModel>) -> Seq<PrModel> {
    if query.len() == 0 {
        prs
    } else {
        prs.filter(|pr: PrModel| pr_matches(lower_of(query), pr))
    }
}

} // verus!
