//! The inbox: review-requested results followed by assigned results,
//! deduplicated by pull-request identity with the first occurrence winning,
//! then sorted by last update, newest first.

use crate::models::{pr_identity, PrModel, PullRequest};
use crate::strutil::str_eq;
use vstd::prelude::*;

verus! {

/// Some entry of `s` has this identity.
pub open spec fn id_seen(s: Seq<PrModel>, id: (Seq<char>, u32)) -> bool {
    exists|j: int| 0 <= j < s.len() && pr_identity(#[trigger] s[j]) == id
}

/// Walks `prs` keeping each entry whose identity has not been kept before.
pub open spec fn dedup_rec(prs: Seq<PrModel>, acc: Seq<PrModel>) -> Seq<PrModel>
    decreases prs.len(),
{
    if prs.len() == 0 {
        acc
    } else if id_seen(acc, pr_identity(prs[0])) {
        dedup_rec(prs.skip(1), acc)
    } else {
        dedup_rec(prs.skip(1), acc.push(prs[0]))
    }
}

/// The first occurrence of each identity, in arrival order.
pub open spec fn spec_dedup(prs: Seq<PrModel>) -> Seq<PrModel> {
    dedup_rec(prs, Seq::empty())
}

/// No two entries share an identity.
pub open spec fn ids_unique(s: Seq<PrModel>) -> bool {
    forall|i: int, j: int|
        0 <= i < j < s.len() ==> pr_identity(#[trigger] s[i]) != pr_identity(#[trigger] s[j])
}

/// Display order of the inbox: most recently updated first.
pub open spec fn pr_newer(a: PrModel, b: PrModel) -> bool {
    a.updated_at > b.updated_at
}

/// Where a pull request belongs in the sorted run: after every entry not
/// strictly older, so equally-recent entries keep their arrival order.
pub open spec fn pr_insert_pos(s: Seq<PrModel>, x: PrModel) -> int
    decreases s.len(),
{
    if s.len() == 0 {
        0
    } else if pr_newer(x, s[0]) {
        0
    } else {
        1 + pr_insert_pos(s.skip(1), x)
    }
}

pub open spec fn spec_insert_pr(s: Seq<PrModel>, x: PrModel) -> Seq<PrModel> {
    s.insert(pr_insert_pos(s, x), x)
}

/// Insertion sort by last update, newest first.
pub open spec fn spec_sort_prs(s: Seq<PrModel>) -> Seq<PrModel>
    decreases s.len(),
{
    if s.len() == 0 {
        Seq::empty()
    } else {
        spec_insert_pr(spec_sort_prs(s.drop_last()), s.last())
    }
}

/// No entry is strictly newer than an earlier one.
pub open spec fn prs_sorted(s: Seq<PrModel>) -> bool {
    forall|i: int, j: int| 0 <= i < j < s.len() ==> !pr_newer(#[trigger] s[j], #[trigger] s[i])
}

/// The whole merge: concatenate, deduplicate, sort.
pub open spec fn spec_merge_inbox(review: Seq<PrModel>, assigned: Seq<PrModel>) -> Seq<PrModel> {
    spec_sort_prs(spec_dedup(review + assigned))
}

pub proof fn lemma_pr_insert_pos_props(s: Seq<PrModel>, x: PrModel)
    ensures
        0 <= pr_insert_pos(s, x) <= s.len(),
        forall|k: int| 0 <= k < pr_insert_pos(s, x) ==> !pr_newer(x, #[trigger] s[k]),
        pr_insert_pos(s, x) < s.len() ==> pr_newer(x, s[pr_insert_pos(s, x)]),
    decreases s.len(),
{
    if s.len() == 0 {
    } else if pr_newer(x, s[0]) {
    } else {
        lemma_pr_insert_pos_props(s.skip(1), x);
        assert forall|k: int| 1 <= k < s.len() implies s[k] == s.skip(1)[k - 1] by {}
    }
}

pub proof fn lemma_insert_pr_sorted(s: Seq<PrModel>, x: PrModel)
    requires
        prs_sorted(s),
    ensures
        prs_sorted(spec_insert_pr(s, x)),
        spec_insert_pr(s, x).to_multiset() == s.push(x).to_multiset(),
        spec_insert_pr(s, x).len() == s.len() + 1,
{
    lemma_pr_insert_pos_props(s, x);
    let p = pr_insert_pos(s, x);
    let out = s.insert(p, x);
    s.insert_ensures(p, x);
    assert forall|i: int, j: int| 0 <= i < j < out.len() implies !pr_newer(
        #[trigger] out[j],
        #[trigger] out[i],
    ) by {
        if i < p && j == p {
            assert(out[i] == s[i]);
        } else if i == p && j > p {
            assert(out[j] == s[j - 1]);
            assert(pr_newer(x, s[p]));
        } else if i < p && j > p {
            assert(out[i] == s[i]);
            assert(out[j] == s[j - 1]);
        } else if j < p {
            assert(out[i] == s[i]);
            assert(out[j] == s[j]);
        } else if i > p {
            assert(out[i] == s[i - 1]);
            assert(out[j] == s[j - 1]);
        }
    }
    assert(out.to_multiset() == s.push(x).to_multiset()) by {
        vstd::seq_lib::lemma_multiset_commutative(s.take(p), seq![x] + s.skip(p));
        assert(out =~= s.take(p) + (seq![x] + s.skip(p)));
        assert(s.push(x) =~= s.take(p) + (s.skip(p) + seq![x]));
        vstd::seq_lib::lemma_multiset_commutative(s.take(p), s.skip(p) + seq![x]);
        vstd::seq_lib::lemma_multiset_commutative(seq![x], s.skip(p));
        vstd::seq_lib::lemma_multiset_commutative(s.skip(p), seq![x]);
    }
}

pub proof fn lemma_sort_prs_ensures(s: Seq<PrModel>)
    ensures
        prs_sorted(spec_sort_prs(s)),
        spec_sort_prs(s).to_multiset() == s.to_multiset(),
        spec_sort_prs(s).len() == s.len(),
    decreases s.len(),
{
    broadcast use vstd::seq_lib::group_to_multiset_ensures;

    if s.len() == 0 {
        assert(spec_sort_prs(s).to_multiset() =~= s.to_multiset());
    } else {
        lemma_sort_prs_ensures(s.drop_last());
        lemma_insert_pr_sorted(spec_sort_prs(s.drop_last()), s.last());
        assert(s.drop_last().push(s.last()) =~= s);
        assert(spec_sort_prs(s.drop_last()).push(s.last()).to_multiset() == s.drop_last().push(
            s.last(),
        ).to_multiset()) by {
            vstd::seq_lib::lemma_multiset_commutative(spec_sort_prs(s.drop_last()), seq![s.last()]);
            vstd::seq_lib::lemma_multiset_commutative(s.drop_last(), seq![s.last()]);
            assert(spec_sort_prs(s.drop_last()).push(s.last()) =~= spec_sort_prs(s.drop_last())
                + seq![s.last()]);
            assert(s.drop_last().push(s.last()) =~= s.drop_last() + seq![s.last()]);
        }
    }
}

/// What deduplication walks out with keeps identities unique.
pub proof fn lemma_dedup_rec_unique(prs: Seq<PrModel>, acc: Seq<PrModel>)
    requires
        ids_unique(acc),
    ensures
        ids_unique(dedup_rec(prs, acc)),
    decreases prs.len(),
{
    if prs.len() == 0 {
    } else if id_seen(acc, pr_identity(prs[0])) {
        lemma_dedup_rec_unique(prs.skip(1), acc);
    } else {
        let acc2 = acc.push(prs[0]);
        assert forall|i: int, j: int| 0 <= i < j < acc2.len() implies pr_identity(
            #[trigger] acc2[i],
        ) != pr_identity(#[trigger] acc2[j]) by {
            if j == acc.len() {
                assert(acc2[i] == acc[i]);
                assert(!id_seen(acc, pr_identity(prs[0])));
            }
        }
        lemma_dedup_rec_unique(prs.skip(1), acc2);
    }
}

/// The deduplicated inbox has pairwise distinct identities.
pub proof fn lemma_dedup_ids_unique(prs: Seq<PrModel>)
    ensures
        ids_unique(spec_dedup(prs)),
{
    lemma_dedup_rec_unique(prs, Seq::empty());
}

/// The merged inbox: every pull request appears once per identity, and the
/// list is ordered by last update, newest first.
pub proof fn lemma_merge_inbox_unique_sorted(review: Seq<PrModel>, assigned: Seq<PrModel>)
    ensures
        prs_sorted(spec_merge_inbox(review, assigned)),
        ids_unique(spec_merge_inbox(review, assigned)),
{
    broadcast use vstd::seq_lib::group_to_multiset_ensures;

    let combined = review + assigned;
    let deduped = spec_dedup(combined);
    let sorted = spec_sort_prs(deduped);
    lemma_dedup_ids_unique(combined);
    lemma_sort_prs_ensures(deduped);
    // identities unique implies values unique, so counts in the multiset
    // are at most one, and the sorted permutation keeps that
    assert(deduped.no_duplicates()) by {
        assert forall|i: int, j: int|
            0 <= i < deduped.len() && 0 <= j < deduped.len() && i != j implies deduped[i]
            != deduped[j] by {
            if i < j {
                assert(pr_identity(deduped[i]) != pr_identity(deduped[j]));
            } else {
                assert(pr_identity(deduped[j]) != pr_identity(deduped[i]));
            }
        }
    }
    deduped.lemma_multiset_has_no_duplicates();
    sorted.lemma_multiset_has_no_duplicates_conv();
    assert(sorted.no_duplicates());
    assert forall|i: int, j: int| 0 <= i < j < sorted.len() implies pr_identity(
        #[trigger] sorted[i],
    ) != pr_identity(#[trigger] sorted[j]) by {
        if pr_identity(sorted[i]) == pr_identity(sorted[j]) {
            assert(sorted[i] != sorted[j]);
            assert(deduped.contains(sorted[i])) by {
                assert(sorted.contains(sorted[i]));
                assert(sorted.to_multiset().count(sorted[i]) > 0);
                assert(deduped.to_multiset().count(sorted[i]) > 0);
            }
            assert(deduped.contains(sorted[j])) by {
                assert(sorted.contains(sorted[j]));
                assert(sorted.to_multiset().count(sorted[j]) > 0);
                assert(deduped.to_multiset().count(sorted[j]) > 0);
            }
            let a = choose|a: int| 0 <= a < deduped.len() && deduped[a] == sorted[i];
            let b = choose|b: int| 0 <= b < deduped.len() && deduped[b] == sorted[j];
            assert(a != b);
            if a < b {
                assert(pr_identity(deduped[a]) != pr_identity(deduped[b]));
            } else {
                assert(pr_identity(deduped[b]) != pr_identity(deduped[a]));
            }
        }
    }
}

fn same_identity(a: &PullRequest, b: &PullRequest) -> (r: bool)
    ensures
        r == (pr_identity(a@) == pr_identity(b@)),
{
    if a.number != b.number {
        return false;
    }
    let af = a.repo_full_name();
    let bf = b.repo_full_name();
    str_eq(af.as_str(), bf.as_str())
}

fn pr_newer_exec(a: &PullRequest, b: &PullRequest) -> (r: bool)
    ensures
        r == pr_newer(a@, b@),
{
    a.updated_at > b.updated_at
}

/// Merges the two inbox result sets: review-requested results first, then
/// assigned results, one entry per pull-request identity with the first
/// occurrence winning, sorted by last update, newest first.
pub fn merge_inbox(review: Vec<PullRequest>, assigned: Vec<PullRequest>) -> (r: Vec<PullRequest>)
    ensures
        r@.map_values(|p: PullRequest| p@) == spec_merge_inbox(
            review@.map_values(|p: PullRequest| p@),
            assigned@.map_values(|p: PullRequest| p@),
        ),
{
    let ghost reviewm = review@.map_values(|p: PullRequest| p@);
    let ghost assignedm = assigned@.map_values(|p: PullRequest| p@);
    let mut combined = review;
    let mut assigned_in = assigned;
    combined.append(&mut assigned_in);
    let ghost combm = combined@.map_values(|p: PullRequest| p@);
    proof {
        assert(combm =~= reviewm + assignedm);
    }
    // deduplicate by identity, first occurrence winning
    let mut acc: Vec<PullRequest> = Vec::new();
    let mut i: usize = 0;
    proof {
        assert(combm.skip(0) =~= combm);
        assert(acc@.map_values(|p: PullRequest| p@) =~= Seq::<PrModel>::empty());
    }
    while i < combined.len()
        invariant
            i <= combined.len(),
            combm == combined@.map_values(|p: PullRequest| p@),
            dedup_rec(combm, Seq::empty()) == dedup_rec(
                combm.skip(i as int),
                acc@.map_values(|p: PullRequest| p@),
            ),
        decreases combined.len() - i,
    {
        let ghost accm = acc@.map_values(|p: PullRequest| p@);
        let mut found = false;
        let mut j: usize = 0;
        loop
            invariant
                j <= acc.len(),
                accm == acc@.map_values(|p: PullRequest| p@),
                combm == combined@.map_values(|p: PullRequest| p@),
                i < combined@.len(),
                !found ==> forall|k: int|
                    0 <= k < j ==> pr_identity(#[trigger] accm[k]) != pr_identity(
                        combm[i as int],
                    ),
                found ==> id_seen(accm, pr_identity(combm[i as int])),
            ensures
                found == id_seen(accm, pr_identity(combm[i as int])),
            decreases acc.len() - j,
        {
            if j == acc.len() {
                proof {
                    if !found && id_seen(accm, pr_identity(combm[i as int])) {
                        let w = choose|w: int|
                            0 <= w < accm.len() && pr_identity(accm[w]) == pr_identity(
                                combm[i as int],
                            );
                        assert(pr_identity(accm[w]) != pr_identity(combm[i as int]));
                    }
                }
                break ;
            }
            if same_identity(&acc[j], &combined[i]) {
                proof {
                    assert(accm[j as int] == acc@[j as int]@);
                    assert(combm[i as int] == combined@[i as int]@);
                }
                found = true;
                j = acc.len();
                proof {
                    if !id_seen(accm, pr_identity(combm[i as int])) {
                        assert(pr_identity(accm[j as int - acc@.len()]) == pr_identity(
                            combm[i as int],
                        ));
                    }
                }
                break ;
            }
            proof {
                assert(accm[j as int] == acc@[j as int]@);
                assert(combm[i as int] == combined@[i as int]@);
            }
            j = j + 1;
        }
        if !found {
            acc.push(combined[i].clone());
            proof {
                assert(acc@.map_values(|p: PullRequest| p@) =~= accm.push(combm[i as int]));
            }
        }
        proof {
            assert(combm.skip(i as int)[0] == combm[i as int]);
            assert(combm.skip(i as int).skip(1) =~= combm.skip(i + 1));
        }
        i = i + 1;
    }
    proof {
        assert(combm.skip(combined@.len() as int) =~= Seq::<PrModel>::empty());
        assert(acc@.map_values(|p: PullRequest| p@) == spec_dedup(combm));
    }
    // sort by last update, newest first
    let ghost dedupm = acc@.map_values(|p: PullRequest| p@);
    let mut out: Vec<PullRequest> = Vec::new();
    let mut n: usize = 0;
    proof {
        assert(out@.map_values(|p: PullRequest| p@) =~= spec_sort_prs(dedupm.take(0)));
    }
    while n < acc.len()
        invariant
            n <= acc.len(),
            dedupm == acc@.map_values(|p: PullRequest| p@),
            out@.map_values(|p: PullRequest| p@) == spec_sort_prs(dedupm.take(n as int)),
        decreases acc.len() - n,
    {
        let ghost outm = out@.map_values(|p: PullRequest| p@);
        let x = acc[n].clone();
        let mut p: usize = 0;
        loop
            invariant
                p <= out.len(),
                x@ == dedupm[n as int],
                outm == out@.map_values(|y: PullRequest| y@),
                forall|k: int| 0 <= k < p ==> !pr_newer(x@, #[trigger] outm[k]),
            ensures
                p <= out.len(),
                forall|k: int| 0 <= k < p ==> !pr_newer(x@, #[trigger] outm[k]),
                p < out@.len() ==> pr_newer(x@, outm[p as int]),
            decreases out.len() - p,
        {
            if p == out.len() {
                break ;
            }
            if pr_newer_exec(&x, &out[p]) {
                break ;
            }
            p = p + 1;
        }
        proof {
            assert(pr_insert_pos(outm, x@) == p) by {
                lemma_pr_insert_pos_props(outm, x@);
                let q = pr_insert_pos(outm, x@);
                if q < p {
                    assert(!pr_newer(x@, outm[q]));
                } else if p < q {
                    assert(!pr_newer(x@, outm[p as int]));
                }
            }
        }
        out.insert(p, x);
        proof {
            assert(out@.map_values(|y: PullRequest| y@) =~= outm.insert(
                p as int,
                dedupm[n as int],
            ));
            assert(dedupm.take(n + 1).drop_last() =~= dedupm.take(n as int));
            assert(dedupm.take(n + 1).last() == dedupm[n as int]);
            assert(out@.map_values(|y: PullRequest| y@) == spec_sort_prs(dedupm.take(n + 1)));
        }
        n = n + 1;
    }
    proof {
        assert(dedupm.take(acc@.len() as int) =~= dedupm);
    }
    out
}

} // verus!
