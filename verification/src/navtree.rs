//! The navigation tree: two virtual nodes, then each organization in name
//! order, and under each expanded organization its non-archived repositories,
//! most open pull requests first, ties broken by name.

use crate::models::{Repo, RepoModel};
use crate::orgs::{OrgData, OrgModel};
use crate::sequtil::{lemma_filter_take_all, lemma_filter_take_step};
use crate::strutil::{lex_lt, str_lt, vec_contains_str};
use vstd::prelude::*;

verus! {

/// One entry of the navigation pane.
#[derive(Debug)]
pub enum NavNode {
    Org(String),
    Repo { owner: String, name: String, open_prs: u32 },
    AllPrs,
    MyInbox,
}

/// Mathematical image of a [`NavNode`].
#[verifier::ext_equal]
pub enum NavNodeModel {
    Org(Seq<char>),
    Repo { owner: Seq<char>, name: Seq<char>, open_prs: u32 },
    AllPrs,
    MyInbox,
}

impl View for NavNode {
    type V = NavNodeModel;

    open spec fn view(&self) -> NavNodeModel {
        match self {
            NavNode::Org(name) => NavNodeModel::Org(name@),
            NavNode::Repo { owner, name, open_prs } => NavNodeModel::Repo {
                owner: owner@,
                name: name@,
                open_prs: *open_prs,
            },
            NavNode::AllPrs => NavNodeModel::AllPrs,
            NavNode::MyInbox => NavNodeModel::MyInbox,
        }
    }
}

impl Clone for NavNode {
    fn clone(&self) -> (r: Self)
        ensures
            r@ == self@,
    {
        match self {
            NavNode::Org(name) => NavNode::Org(name.clone()),
            NavNode::Repo { owner, name, open_prs } => NavNode::Repo {
                owner: owner.clone(),
                name: name.clone(),
                open_prs: *open_prs,
            },
            NavNode::AllPrs => NavNode::AllPrs,
            NavNode::MyInbox => NavNode::MyInbox,
        }
    }
}

/// Display order of repositories: strictly more open pull requests first,
/// equal counts broken by name.
pub open spec fn repo_before(a: RepoModel, b: RepoModel) -> bool {
    a.open_pr_count > b.open_pr_count || (a.open_pr_count == b.open_pr_count && lex_lt(
        a.name,
        b.name,
    ))
}

fn repo_before_exec(a: &Repo, b: &Repo) -> (r: bool)
    ensures
        r == repo_before(a@, b@),
{
    if a.open_pr_count > b.open_pr_count {
        true
    } else if a.open_pr_count == b.open_pr_count {
        str_lt(a.name.as_str(), b.name.as_str())
    } else {
        false
    }
}

/// Where `x` belongs in the sorted run `s`: after every entry not strictly
/// behind it, so that equal entries keep their arrival order.
pub open spec fn repo_insert_pos(s: Seq<RepoModel>, x: RepoModel) -> int
    decreases s.len(),
{
    if s.len() == 0 {
        0
    } else if repo_before(x, s[0]) {
        0
    } else {
        1 + repo_insert_pos(s.skip(1), x)
    }
}

/// Insertion sort of repositories, one insertion at a time.
pub open spec fn spec_insert_repo(s: Seq<RepoModel>, x: RepoModel) -> Seq<RepoModel> {
    s.insert(repo_insert_pos(s, x), x)
}

/// The sorted rendering of a repository list.
pub open spec fn spec_sort_repos(s: Seq<RepoModel>) -> Seq<RepoModel>
    decreases s.len(),
{
    if s.len() == 0 {
        Seq::empty()
    } else {
        spec_insert_repo(spec_sort_repos(s.drop_last()), s.last())
    }
}

pub proof fn lemma_repo_insert_pos_props(s: Seq<RepoModel>, x: RepoModel)
    ensures
        0 <= repo_insert_pos(s, x) <= s.len(),
        forall|k: int| 0 <= k < repo_insert_pos(s, x) ==> !repo_before(x, #[trigger] s[k]),
        repo_insert_pos(s, x) < s.len() ==> repo_before(x, s[repo_insert_pos(s, x)]),
    decreases s.len(),
{
    if s.len() == 0 {
    } else if repo_before(x, s[0]) {
    } else {
        lemma_repo_insert_pos_props(s.skip(1), x);
        assert forall|k: int| 1 <= k < s.len() implies s[k] == s.skip(1)[k - 1] by {}
    }
}

/// The sorted rendering is sorted: no entry is strictly behind a later one.
pub open spec fn repos_sorted(s: Seq<RepoModel>) -> bool {
    forall|i: int, j: int| 0 <= i < j < s.len() ==> !repo_before(#[trigger] s[j], #[trigger] s[i])
}

/// The display order is asymmetric.
proof fn lemma_repo_before_asym(x: RepoModel, c: RepoModel)
    requires
        repo_before(x, c),
    ensures
        !repo_before(c, x),
{
    crate::strutil::lemma_lex_lt_total(x.name, c.name);
}

pub proof fn lemma_insert_repo_sorted(s: Seq<RepoModel>, x: RepoModel)
    requires
        repos_sorted(s),
    ensures
        repos_sorted(spec_insert_repo(s, x)),
        spec_insert_repo(s, x).to_multiset() == s.push(x).to_multiset(),
        spec_insert_repo(s, x).len() == s.len() + 1,
    decreases s.len(),
{
    lemma_repo_insert_pos_props(s, x);
    let p = repo_insert_pos(s, x);
    let out = s.insert(p, x);
    s.insert_ensures(p, x);
    assert forall|i: int, j: int| 0 <= i < j < out.len() implies !repo_before(
        #[trigger] out[j],
        #[trigger] out[i],
    ) by {
        if i < p && j == p {
            // out[i] == s[i], out[j] == x: !repo_before(x, s[i]) by pos props
            assert(out[i] == s[i]);
        } else if i == p && j > p {
            // out[i] == x, out[j] == s[j-1]: need !repo_before(s[j-1], x)
            assert(out[j] == s[j - 1]);
            assert(repo_before(x, s[p]));
            if j - 1 > p {
                // sorted: !repo_before(s[j-1], s[p]); with repo_before(x, s[p]):
                // if repo_before(s[j-1], x) then by transitivity-like reasoning
                lemma_repo_before_trans_helper(s[j - 1], x, s[p]);
            } else {
                lemma_repo_before_asym(x, s[p]);
            }
        } else if i < p && j > p {
            assert(out[i] == s[i]);
            assert(out[j] == s[j - 1]);
        } else if j < p {
            assert(out[i] == s[i]);
            assert(out[j] == s[j]);
        } else if i > p {
            assert(out[i] == s[i - 1]);
            assert(out[j] == s[j - 1]);
        }
    }
    // multiset equality: insert anywhere is the same multiset as push
    assert(out.to_multiset() == s.push(x).to_multiset()) by {
        vstd::seq_lib::lemma_multiset_commutative(s.take(p), seq![x] + s.skip(p));
        assert(out =~= s.take(p) + (seq![x] + s.skip(p)));
        assert(s.push(x) =~= s.take(p) + (s.skip(p) + seq![x]));
        vstd::seq_lib::lemma_multiset_commutative(s.take(p), s.skip(p) + seq![x]);
        vstd::seq_lib::lemma_multiset_commutative(seq![x], s.skip(p));
        vstd::seq_lib::lemma_multiset_commutative(s.skip(p), seq![x]);
    }
}

/// If `x` is strictly before `c` and `a` is not strictly before `x`'s
/// position witness `c`, then `a` is not strictly before `x`.
proof fn lemma_repo_before_trans_helper(a: RepoModel, x: RepoModel, c: RepoModel)
    requires
        repo_before(x, c),
        !repo_before(a, c),
    ensures
        !repo_before(a, x),
{
    if repo_before(a, x) {
        crate::strutil::lemma_lex_lt_total(a.name, c.name);
        if a.open_pr_count == x.open_pr_count && x.open_pr_count == c.open_pr_count {
            crate::strutil::lemma_lex_lt_trans(a.name, x.name, c.name);
        }
    }
}

/// The sorted rendering keeps exactly the given repositories, in sorted
/// order.
pub proof fn lemma_sort_repos_ensures(s: Seq<RepoModel>)
    ensures
        repos_sorted(spec_sort_repos(s)),
        spec_sort_repos(s).to_multiset() == s.to_multiset(),
        spec_sort_repos(s).len() == s.len(),
    decreases s.len(),
{
    broadcast use vstd::seq_lib::group_to_multiset_ensures;

    if s.len() == 0 {
        assert(spec_sort_repos(s).to_multiset() =~= s.to_multiset());
    } else {
        lemma_sort_repos_ensures(s.drop_last());
        lemma_insert_repo_sorted(spec_sort_repos(s.drop_last()), s.last());
        assert(s.drop_last().push(s.last()) =~= s);
        assert(spec_sort_repos(s.drop_last()).push(s.last()).to_multiset() == s.drop_last().push(
            s.last(),
        ).to_multiset()) by {
            vstd::seq_lib::lemma_multiset_commutative(spec_sort_repos(s.drop_last()), seq![s.last()]);
            vstd::seq_lib::lemma_multiset_commutative(s.drop_last(), seq![s.last()]);
            assert(spec_sort_repos(s.drop_last()).push(s.last()) =~= spec_sort_repos(s.drop_last())
                + seq![s.last()]);
            assert(s.drop_last().push(s.last()) =~= s.drop_last() + seq![s.last()]);
        }
    }
}

/// Sorts repositories for display.
pub fn sort_repos(input: &Vec<Repo>) -> (r: Vec<Repo>)
    ensures
        r@.map_values(|x: Repo| x@) == spec_sort_repos(input@.map_values(|x: Repo| x@)),
{
    let ghost inm = input@.map_values(|x: Repo| x@);
    let mut acc: Vec<Repo> = Vec::new();
    let mut i: usize = 0;
    while i < input.len()
        invariant
            i <= input.len(),
            inm == input@.map_values(|x: Repo| x@),
            acc@.map_values(|x: Repo| x@) == spec_sort_repos(inm.take(i as int)),
        decreases input.len() - i,
    {
        let ghost accm = acc@.map_values(|x: Repo| x@);
        let x = input[i].clone();
        let mut p: usize = 0;
        loop
            invariant
                p <= acc.len(),
                x@ == inm[i as int],
                accm == acc@.map_values(|y: Repo| y@),
                forall|k: int| 0 <= k < p ==> !repo_before(x@, #[trigger] accm[k]),
            ensures
                p <= acc.len(),
                forall|k: int| 0 <= k < p ==> !repo_before(x@, #[trigger] accm[k]),
                p < acc@.len() ==> repo_before(x@, accm[p as int]),
            decreases acc.len() - p,
        {
            if p == acc.len() {
                break ;
            }
            if repo_before_exec(&x, &acc[p]) {
                break ;
            }
            p = p + 1;
        }
        proof {
            assert(repo_insert_pos(accm, x@) == p) by {
                lemma_repo_insert_pos_props(accm, x@);
                let q = repo_insert_pos(accm, x@);
                if q < p {
                    assert(!repo_before(x@, accm[q]));
                } else if p < q {
                    assert(!repo_before(x@, accm[p as int]));
                }
            }
        }
        acc.insert(p, x);
        proof {
            assert(acc@.map_values(|y: Repo| y@) =~= accm.insert(p as int, inm[i as int]));
            assert(inm.take(i + 1).drop_last() =~= inm.take(i as int));
            assert(inm.take(i + 1).last() == inm[i as int]);
            assert(acc@.map_values(|y: Repo| y@) == spec_sort_repos(inm.take(i + 1)));
        }
        i = i + 1;
    }
    proof {
        assert(inm.take(input@.len() as int) =~= inm);
    }
    acc
}

/// The non-archived repositories, in arrival order.
pub fn active_repos(repos: &Vec<Repo>) -> (r: Vec<Repo>)
    ensures
        r@.map_values(|x: Repo| x@) == repos@.map_values(|x: Repo| x@).filter(
            |rm: RepoModel| !rm.is_archived,
        ),
{
    let ghost inm = repos@.map_values(|x: Repo| x@);
    let ghost pred = |rm: RepoModel| !rm.is_archived;
    let mut r: Vec<Repo> = Vec::new();
    let mut i: usize = 0;
    proof {
        reveal(Seq::filter);
        assert(inm.take(0).filter(pred) =~= Seq::<RepoModel>::empty());
    }
    while i < repos.len()
        invariant
            i <= repos.len(),
            inm == repos@.map_values(|x: Repo| x@),
            pred == (|rm: RepoModel| !rm.is_archived),
            r@.map_values(|x: Repo| x@) == inm.take(i as int).filter(pred),
        decreases repos.len() - i,
    {
        let ghost rm = r@.map_values(|x: Repo| x@);
        proof {
            assert(inm[i as int] == repos@[i as int]@);
            assert(pred(inm[i as int]) == !repos@[i as int]@.is_archived);
            lemma_filter_take_step(inm, pred, i as int);
        }
        if !repos[i].is_archived {
            r.push(repos[i].clone());
            proof {
                assert(r@.map_values(|x: Repo| x@) =~= rm.push(inm[i as int]));
                assert(r@.map_values(|x: Repo| x@) == inm.take(i + 1).filter(pred));
            }
        } else {
            proof {
                assert(r@.map_values(|x: Repo| x@) == inm.take(i + 1).filter(pred));
            }
        }
        i = i + 1;
    }
    proof {
        lemma_filter_take_all(inm, pred);
    }
    r
}

/// The nodes shown for a sorted repository run.
pub open spec fn repo_nodes(rs: Seq<RepoModel>) -> Seq<NavNodeModel> {
    rs.map_values(
        |r: RepoModel| NavNodeModel::Repo { owner: r.owner, name: r.name, open_prs: r.open_pr_count },
    )
}

/// The repositories an expanded organization contributes to the tree.
pub open spec fn org_repo_section(o: OrgModel) -> Seq<NavNodeModel> {
    repo_nodes(spec_sort_repos(o.repos.filter(|rm: RepoModel| !rm.is_archived)))
}

/// The nodes one organization contributes: its own entry, and its
/// repositories when expanded.
pub open spec fn org_section(o: OrgModel, expanded: Seq<Seq<char>>) -> Seq<NavNodeModel> {
    seq![NavNodeModel::Org(o.name)] + (if expanded.contains(o.name) {
        org_repo_section(o)
    } else {
        Seq::empty()
    })
}

/// The sections of all organizations, in list order.
pub open spec fn orgs_sections(orgs: Seq<OrgModel>, expanded: Seq<Seq<char>>) -> Seq<NavNodeModel>
    decreases orgs.len(),
{
    if orgs.len() == 0 {
        Seq::empty()
    } else {
        org_section(orgs[0], expanded) + orgs_sections(orgs.skip(1), expanded)
    }
}

/// The whole navigation tree.
pub open spec fn nav_tree(orgs: Seq<OrgModel>, expanded: Seq<Seq<char>>) -> Seq<NavNodeModel> {
    seq![NavNodeModel::MyInbox, NavNodeModel::AllPrs] + orgs_sections(orgs, expanded)
}

pub proof fn lemma_orgs_sections_snoc(orgs: Seq<OrgModel>, x: OrgModel, expanded: Seq<Seq<char>>)
    ensures
        orgs_sections(orgs.push(x), expanded) == orgs_sections(orgs, expanded) + org_section(
            x,
            expanded,
        ),
    decreases orgs.len(),
{
    if orgs.len() == 0 {
        assert(orgs.push(x)[0] == x);
        assert(orgs.push(x).skip(1) =~= Seq::<OrgModel>::empty());
        assert(orgs_sections(Seq::<OrgModel>::empty(), expanded) =~= Seq::<NavNodeModel>::empty());
        assert(orgs_sections(orgs.push(x), expanded) =~= orgs_sections(orgs, expanded)
            + org_section(x, expanded));
    } else {
        assert(orgs.push(x).skip(1) =~= orgs.skip(1).push(x));
        lemma_orgs_sections_snoc(orgs.skip(1), x, expanded);
        assert(orgs.push(x)[0] == orgs[0]);
        assert(orgs_sections(orgs.push(x), expanded) =~= orgs_sections(orgs, expanded)
            + org_section(x, expanded));
    }
}

/// Builds the navigation tree for these organizations and expansion flags.
pub fn build_nav_tree(orgs: &Vec<OrgData>, expanded: &Vec<String>) -> (nodes: Vec<NavNode>)
    ensures
        nodes@.map_values(|n: NavNode| n@) == nav_tree(
            orgs@.map_values(|o: OrgData| o@),
            expanded@.map_values(|s: String| s@),
        ),
{
    let ghost orgsm = orgs@.map_values(|o: OrgData| o@);
    let ghost expm = expanded@.map_values(|s: String| s@);
    let mut nodes: Vec<NavNode> = Vec::new();
    nodes.push(NavNode::MyInbox);
    nodes.push(NavNode::AllPrs);
    proof {
        assert(orgsm.take(0) =~= Seq::<OrgModel>::empty());
        assert(nodes@.map_values(|n: NavNode| n@) =~= seq![
            NavNodeModel::MyInbox,
            NavNodeModel::AllPrs,
        ] + orgs_sections(orgsm.take(0), expm));
    }
    let mut i: usize = 0;
    while i < orgs.len()
        invariant
            i <= orgs.len(),
            orgsm == orgs@.map_values(|o: OrgData| o@),
            expm == expanded@.map_values(|s: String| s@),
            nodes@.map_values(|n: NavNode| n@) == seq![
                NavNodeModel::MyInbox,
                NavNodeModel::AllPrs,
            ] + orgs_sections(orgsm.take(i as int), expm),
        decreases orgs.len() - i,
    {
        let ghost before = nodes@.map_values(|n: NavNode| n@);
        let org_name = orgs[i].name.clone();
        nodes.push(NavNode::Org(org_name));
        proof {
            assert(nodes@.map_values(|n: NavNode| n@) =~= before + seq![
                NavNodeModel::Org(orgsm[i as int].name),
            ]);
        }
        if vec_contains_str(expanded, orgs[i].name.as_str()) {
            let filtered = active_repos(&orgs[i].repos);
            let sorted = sort_repos(&filtered);
            let ghost sortedm = sorted@.map_values(|x: Repo| x@);
            proof {
                assert(sortedm == spec_sort_repos(
                    orgsm[i as int].repos.filter(|rm: RepoModel| !rm.is_archived),
                ));
            }
            let ghost mid = nodes@.map_values(|n: NavNode| n@);
            let mut j: usize = 0;
            while j < sorted.len()
                invariant
                    j <= sorted.len(),
                    sortedm == sorted@.map_values(|x: Repo| x@),
                    nodes@.map_values(|n: NavNode| n@) == mid + repo_nodes(sortedm).take(j as int),
                decreases sorted.len() - j,
            {
                let ghost cur = nodes@.map_values(|n: NavNode| n@);
                nodes.push(
                    NavNode::Repo {
                        owner: sorted[j].owner.clone(),
                        name: sorted[j].name.clone(),
                        open_prs: sorted[j].open_pr_count,
                    },
                );
                proof {
                    assert(repo_nodes(sortedm)[j as int] == NavNodeModel::Repo {
                        owner: sortedm[j as int].owner,
                        name: sortedm[j as int].name,
                        open_prs: sortedm[j as int].open_pr_count,
                    });
                    assert(nodes@.map_values(|n: NavNode| n@) =~= cur + seq![
                        repo_nodes(sortedm)[j as int],
                    ]);
                    assert(repo_nodes(sortedm).take(j + 1) =~= repo_nodes(sortedm).take(j as int)
                        + seq![repo_nodes(sortedm)[j as int]]);
                    assert(nodes@.map_values(|n: NavNode| n@) =~= mid + repo_nodes(sortedm).take(
                        j + 1,
                    ));
                }
                j = j + 1;
            }
            proof {
                assert(repo_nodes(sortedm).take(sorted@.len() as int) =~= repo_nodes(sortedm));
                assert(expm.contains(orgsm[i as int].name));
                assert(org_section(orgsm[i as int], expm) =~= seq![
                    NavNodeModel::Org(orgsm[i as int].name),
                ] + repo_nodes(sortedm));
                assert(nodes@.map_values(|n: NavNode| n@) =~= before + org_section(
                    orgsm[i as int],
                    expm,
                ));
            }
        } else {
            proof {
                assert(!expm.contains(orgsm[i as int].name));
                assert(org_section(orgsm[i as int], expm) =~= seq![
                    NavNodeModel::Org(orgsm[i as int].name),
                ]);
                assert(nodes@.map_values(|n: NavNode| n@) =~= before + org_section(
                    orgsm[i as int],
                    expm,
                ));
            }
        }
        proof {
            assert(orgsm.take(i + 1) =~= orgsm.take(i as int).push(orgsm[i as int]));
            lemma_orgs_sections_snoc(orgsm.take(i as int), orgsm[i as int], expm);
            assert(nodes@.map_values(|n: NavNode| n@) =~= seq![
                NavNodeModel::MyInbox,
                NavNodeModel::AllPrs,
            ] + orgs_sections(orgsm.take(i + 1), expm));
        }
        i = i + 1;
    }
    proof {
        assert(orgsm.take(orgs@.len() as int) =~= orgsm);
    }
    nodes
}


/// The organization names named by the tree's organization nodes, in
/// order.
pub open spec fn org_names_in(nodes: Seq<NavNodeModel>) -> Seq<Seq<char>> {
    nodes.filter(|n: NavNodeModel| n is Org).map_values(|n: NavNodeModel| n->Org_0)
}

proof fn lemma_filter_org_singleton(name: Seq<char>)
    ensures
        seq![NavNodeModel::Org(name)].filter(|n: NavNodeModel| n is Org) =~= seq![
            NavNodeModel::Org(name),
        ],
{
    reveal(Seq::filter);
    let s = seq![NavNodeModel::Org(name)];
    assert(s.drop_last() =~= Seq::<NavNodeModel>::empty());
    assert(Seq::<NavNodeModel>::empty().filter(|n: NavNodeModel| n is Org) =~= Seq::<
        NavNodeModel,
    >::empty());
}

proof fn lemma_filter_repo_nodes_empty(rs: Seq<RepoModel>)
    ensures
        repo_nodes(rs).filter(|n: NavNodeModel| n is Org) =~= Seq::<NavNodeModel>::empty(),
{
    assert forall|k: int| 0 <= k < repo_nodes(rs).len() implies !((#[trigger] repo_nodes(
        rs,
    )[k]) is Org) by {}
    repo_nodes(rs).lemma_all_neg_filter_empty(|n: NavNodeModel| n is Org);
}

proof fn lemma_org_names_sections(orgs: Seq<OrgModel>, expanded: Seq<Seq<char>>)
    ensures
        org_names_in(orgs_sections(orgs, expanded)) =~= orgs.map_values(|o: OrgModel| o.name),
    decreases orgs.len(),
{
    reveal(Seq::filter);
    let pred = |n: NavNodeModel| n is Org;
    if orgs.len() == 0 {
        assert(orgs_sections(orgs, expanded).filter(pred) =~= Seq::<NavNodeModel>::empty());
    } else {
        lemma_org_names_sections(orgs.skip(1), expanded);
        let sec = org_section(orgs[0], expanded);
        let rest = orgs_sections(orgs.skip(1), expanded);
        Seq::<NavNodeModel>::filter_distributes_over_add(sec, rest, pred);
        let tail = if expanded.contains(orgs[0].name) {
            org_repo_section(orgs[0])
        } else {
            Seq::<NavNodeModel>::empty()
        };
        Seq::<NavNodeModel>::filter_distributes_over_add(seq![NavNodeModel::Org(orgs[0].name)], tail, pred);
        lemma_filter_org_singleton(orgs[0].name);
        if expanded.contains(orgs[0].name) {
            lemma_filter_repo_nodes_empty(
                spec_sort_repos(orgs[0].repos.filter(|rm: RepoModel| !rm.is_archived)),
            );
        } else {
            assert(Seq::<NavNodeModel>::empty().filter(pred) =~= Seq::<NavNodeModel>::empty());
        }
        assert(sec.filter(pred) =~= seq![NavNodeModel::Org(orgs[0].name)]);
        assert(orgs_sections(orgs, expanded).filter(pred) =~= seq![
            NavNodeModel::Org(orgs[0].name),
        ] + rest.filter(pred));
        assert(org_names_in(orgs_sections(orgs, expanded)) =~= seq![orgs[0].name]
            + org_names_in(rest));
        assert(orgs.map_values(|o: OrgModel| o.name) =~= seq![orgs[0].name] + orgs.skip(
            1,
        ).map_values(|o: OrgModel| o.name));
    }
}

/// The navigation tree always begins with the inbox node and then the
/// all-pull-requests node, and its organization nodes name exactly the
/// organizations, in their sorted order.
pub proof fn lemma_nav_tree_shape(orgs: Seq<OrgModel>, expanded: Seq<Seq<char>>)
    requires
        crate::orgs::orgs_sorted(orgs),
    ensures
        nav_tree(orgs, expanded).len() >= 2,
        nav_tree(orgs, expanded)[0] == NavNodeModel::MyInbox,
        nav_tree(orgs, expanded)[1] == NavNodeModel::AllPrs,
        org_names_in(nav_tree(orgs, expanded)) =~= orgs.map_values(|o: OrgModel| o.name),
        forall|i: int, j: int|
            0 <= i < j < org_names_in(nav_tree(orgs, expanded)).len() ==> lex_lt(
                #[trigger] org_names_in(nav_tree(orgs, expanded))[i],
                #[trigger] org_names_in(nav_tree(orgs, expanded))[j],
            ),
{
    reveal(Seq::filter);
    let pred = |n: NavNodeModel| n is Org;
    let head = seq![NavNodeModel::MyInbox, NavNodeModel::AllPrs];
    let tree = nav_tree(orgs, expanded);
    Seq::<NavNodeModel>::filter_distributes_over_add(head, orgs_sections(orgs, expanded), pred);
    assert(head.filter(pred) =~= Seq::<NavNodeModel>::empty()) by {
        assert forall|k: int| 0 <= k < head.len() implies !pred(#[trigger] head[k]) by {}
        head.lemma_all_neg_filter_empty(pred);
    }
    lemma_org_names_sections(orgs, expanded);
    assert(org_names_in(tree) =~= orgs.map_values(|o: OrgModel| o.name));
    assert forall|i: int, j: int|
        0 <= i < j < org_names_in(tree).len() implies lex_lt(
        #[trigger] org_names_in(tree)[i],
        #[trigger] org_names_in(tree)[j],
    ) by {
        assert(org_names_in(tree)[i] == orgs[i].name);
        assert(org_names_in(tree)[j] == orgs[j].name);
    }
}

/// Whether a node, when it is a repository node, names a non-archived
/// repository of one of the organizations.
pub open spec fn node_from_active_repo(orgs: Seq<OrgModel>, node: NavNodeModel) -> bool {
    node matches NavNodeModel::Repo { owner, name, open_prs } ==> exists|oi: int, ri: int|
        0 <= oi < orgs.len() && 0 <= ri < (#[trigger] orgs[oi]).repos.len() && !(
        #[trigger] orgs[oi].repos[ri]).is_archived && orgs[oi].repos[ri].owner == owner
            && orgs[oi].repos[ri].name == name && orgs[oi].repos[ri].open_pr_count == open_prs
}

proof fn lemma_section_nodes_active(o: OrgModel, i: int)
    requires
        0 <= i < org_repo_section(o).len(),
    ensures
        org_repo_section(o)[i] matches NavNodeModel::Repo { owner, name, open_prs }
            && exists|ri: int|
            0 <= ri < o.repos.len() && !(#[trigger] o.repos[ri]).is_archived
                && o.repos[ri].owner == owner && o.repos[ri].name == name
                && o.repos[ri].open_pr_count == open_prs,
{
    broadcast use vstd::seq_lib::group_to_multiset_ensures;

    let filtered = o.repos.filter(|rm: RepoModel| !rm.is_archived);
    let sorted = spec_sort_repos(filtered);
    lemma_sort_repos_ensures(filtered);
    let x = sorted[i];
    assert(org_repo_section(o)[i] == NavNodeModel::Repo {
        owner: x.owner,
        name: x.name,
        open_prs: x.open_pr_count,
    });
    assert(filtered.contains(x)) by {
        assert(sorted.contains(x));
        assert(sorted.to_multiset().count(x) > 0);
        assert(filtered.to_multiset().count(x) > 0);
    }
    let k = choose|k: int| 0 <= k < filtered.len() && filtered[k] == x;
    assert(!x.is_archived) by {
        broadcast use vstd::seq_lib::group_filter_ensures;

        assert(filtered[k] == x);
    }
    assert(o.repos.contains(x)) by {
        o.repos.lemma_filter_contains_rev(|rm: RepoModel| !rm.is_archived, x);
    }
    let ri = choose|ri: int| 0 <= ri < o.repos.len() && o.repos[ri] == x;
    assert(0 <= ri < o.repos.len() && !o.repos[ri].is_archived && o.repos[ri].owner == x.owner
        && o.repos[ri].name == x.name && o.repos[ri].open_pr_count == x.open_pr_count);
}

proof fn lemma_sections_nodes_active(orgs: Seq<OrgModel>, expanded: Seq<Seq<char>>, i: int)
    requires
        0 <= i < orgs_sections(orgs, expanded).len(),
    ensures
        node_from_active_repo(orgs, orgs_sections(orgs, expanded)[i]),
    decreases orgs.len(),
{
    if orgs.len() == 0 {
    } else {
        let sec = org_section(orgs[0], expanded);
        let rest = orgs_sections(orgs.skip(1), expanded);
        if i < sec.len() {
            if i == 0 {
            } else {
                assert(expanded.contains(orgs[0].name));
                assert(sec[i] == org_repo_section(orgs[0])[i - 1]);
                lemma_section_nodes_active(orgs[0], i - 1);
                let node = sec[i];
                match node {
                    NavNodeModel::Repo { owner, name, open_prs } => {
                        let ri = choose|ri: int|
                            0 <= ri < orgs[0].repos.len() && !(#[trigger] orgs[0].repos[
                            ri]).is_archived && orgs[0].repos[ri].owner == owner && orgs[0].repos[
                            ri].name == name && orgs[0].repos[ri].open_pr_count == open_prs;
                        assert(0 <= 0 < orgs.len() && 0 <= ri < orgs[0].repos.len() && !orgs[
                            0].repos[ri].is_archived && orgs[0].repos[ri].owner == owner && orgs[
                            0].repos[ri].name == name && orgs[0].repos[ri].open_pr_count
                            == open_prs);
                    },
                    _ => {},
                }
            }
        } else {
            lemma_sections_nodes_active(orgs.skip(1), expanded, i - sec.len());
            let node = orgs_sections(orgs, expanded)[i];
            assert(node == rest[i - sec.len()]);
            match node {
                NavNodeModel::Repo { owner, name, open_prs } => {
                    let (oi, ri): (int, int) = choose|oi: int, ri: int|
                        0 <= oi < orgs.skip(1).len() && 0 <= ri < (#[trigger] orgs.skip(1)[
                        oi]).repos.len() && !(#[trigger] orgs.skip(1)[oi].repos[ri]).is_archived
                            && orgs.skip(1)[oi].repos[ri].owner == owner && orgs.skip(1)[
                        oi].repos[ri].name == name && orgs.skip(1)[oi].repos[ri].open_pr_count
                            == open_prs;
                    assert(orgs.skip(1)[oi] == orgs[oi + 1]);
                    assert(0 <= oi + 1 < orgs.len() && 0 <= ri < orgs[oi + 1].repos.len() && !orgs[
                        oi + 1].repos[ri].is_archived && orgs[oi + 1].repos[ri].owner == owner
                        && orgs[oi + 1].repos[ri].name == name && orgs[oi + 1].repos[
                    ri].open_pr_count == open_prs);
                },
                _ => {},
            }
        }
    }
}

/// Archived repositories never appear in the navigation tree: every
/// repository node names a non-archived repository of one of the
/// organizations, whatever its open-pull-request count.
pub proof fn lemma_nav_tree_no_archived(orgs: Seq<OrgModel>, expanded: Seq<Seq<char>>)
    ensures
        forall|i: int|
            0 <= i < nav_tree(orgs, expanded).len() ==> node_from_active_repo(
                orgs,
                #[trigger] nav_tree(orgs, expanded)[i],
            ),
{
    let tree = nav_tree(orgs, expanded);
    assert forall|i: int| 0 <= i < tree.len() implies node_from_active_repo(
        orgs,
        #[trigger] tree[i],
    ) by {
        if i >= 2 {
            assert(tree[i] == orgs_sections(orgs, expanded)[i - 2]);
            lemma_sections_nodes_active(orgs, expanded, i - 2);
        }
    }
}

} // verus!
