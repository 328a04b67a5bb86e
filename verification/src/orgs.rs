//! The per-organization repository lists, kept sorted by organization name
//! and unique, so that the navigation tree can be derived without re-sorting.

use crate::models::{Repo, RepoModel};
use crate::strutil::{lemma_lex_lt_total, lemma_lex_lt_trans, lex_lt, str_eq, str_lt};
use vstd::prelude::*;

verus! {

/// One organization (or user account) and the repositories fetched for it.
#[derive(Debug, Clone)]
pub struct OrgData {
    pub name: String,
    pub repos: Vec<Repo>,
}

/// Mathematical image of an [`OrgData`].
#[verifier::ext_equal]
pub struct OrgModel {
    pub name: Seq<char>,
    pub repos: Seq<RepoModel>,
}

impl View for OrgData {
    type V = OrgModel;

    open spec fn view(&self) -> OrgModel {
        OrgModel { name: self.name@, repos: self.repos@.map_values(|r: Repo| r@) }
    }
}

/// The organizations are strictly sorted by name, hence unique.
pub open spec fn orgs_sorted(orgs: Seq<OrgModel>) -> bool {
    forall|i: int, j: int|
        0 <= i < j < orgs.len() ==> #[trigger] lex_lt(orgs[i].name, orgs[j].name)
}

/// Index of the organization with this name, `-1` when absent.
pub open spec fn org_index(orgs: Seq<OrgModel>, name: Seq<char>) -> int
    decreases orgs.len(),
{
    if orgs.len() == 0 {
        -1
    } else if orgs[0].name == name {
        0
    } else {
        let r = org_index(orgs.skip(1), name);
        if r < 0 {
            -1
        } else {
            1 + r
        }
    }
}

/// Where a new organization of this name belongs in the sorted list.
pub open spec fn org_insert_pos(orgs: Seq<OrgModel>, name: Seq<char>) -> int
    decreases orgs.len(),
{
    if orgs.len() == 0 {
        0
    } else if lex_lt(name, orgs[0].name) {
        0
    } else {
        1 + org_insert_pos(orgs.skip(1), name)
    }
}

/// Replaces the repository list of the named organization, or inserts the
/// organization at its sorted position when absent.
pub open spec fn upsert_org_model(
    orgs: Seq<OrgModel>,
    name: Seq<char>,
    repos: Seq<RepoModel>,
) -> Seq<OrgModel> {
    let j = org_index(orgs, name);
    if j >= 0 {
        orgs.update(j, OrgModel { name, repos })
    } else {
        orgs.insert(org_insert_pos(orgs, name), OrgModel { name, repos })
    }
}

pub proof fn lemma_org_index_props(orgs: Seq<OrgModel>, name: Seq<char>)
    ensures
        -1 <= org_index(orgs, name) < orgs.len(),
        org_index(orgs, name) >= 0 ==> orgs[org_index(orgs, name)].name == name,
        org_index(orgs, name) >= 0 ==> forall|k: int|
            0 <= k < org_index(orgs, name) ==> (#[trigger] orgs[k]).name != name,
        org_index(orgs, name) < 0 ==> forall|k: int|
            0 <= k < orgs.len() ==> (#[trigger] orgs[k]).name != name,
    decreases orgs.len(),
{
    if orgs.len() == 0 {
    } else if orgs[0].name == name {
    } else {
        lemma_org_index_props(orgs.skip(1), name);
        assert forall|k: int| 1 <= k < orgs.len() implies orgs[k] == orgs.skip(1)[k - 1] by {}
    }
}

pub proof fn lemma_org_insert_pos_props(orgs: Seq<OrgModel>, name: Seq<char>)
    ensures
        0 <= org_insert_pos(orgs, name) <= orgs.len(),
        forall|k: int|
            0 <= k < org_insert_pos(orgs, name) ==> !lex_lt(name, (#[trigger] orgs[k]).name),
        org_insert_pos(orgs, name) < orgs.len() ==> lex_lt(
            name,
            orgs[org_insert_pos(orgs, name)].name,
        ),
    decreases orgs.len(),
{
    if orgs.len() == 0 {
    } else if lex_lt(name, orgs[0].name) {
    } else {
        lemma_org_insert_pos_props(orgs.skip(1), name);
        assert forall|k: int| 1 <= k < orgs.len() implies orgs[k] == orgs.skip(1)[k - 1] by {}
    }
}

/// An upsert into a sorted organization list leaves it sorted.
pub proof fn lemma_upsert_sorted(orgs: Seq<OrgModel>, name: Seq<char>, repos: Seq<RepoModel>)
    requires
        orgs_sorted(orgs),
    ensures
        orgs_sorted(upsert_org_model(orgs, name, repos)),
{
    lemma_org_index_props(orgs, name);
    lemma_org_insert_pos_props(orgs, name);
    let j = org_index(orgs, name);
    if j >= 0 {
        let out = orgs.update(j, OrgModel { name, repos });
        assert forall|a: int, b: int| 0 <= a < b < out.len() implies #[trigger] lex_lt(
            out[a].name,
            out[b].name,
        ) by {
            assert(orgs[j].name == name);
            assert(out[a].name == orgs[a].name);
            assert(out[b].name == orgs[b].name);
        }
    } else {
        let p = org_insert_pos(orgs, name);
        let elt = OrgModel { name, repos };
        let out = orgs.insert(p, elt);
        orgs.insert_ensures(p, elt);
        assert forall|k: int| 0 <= k < p implies #[trigger] lex_lt(orgs[k].name, name) by {
            lemma_lex_lt_total(orgs[k].name, name);
        }
        assert forall|a: int, b: int| 0 <= a < b < out.len() implies #[trigger] lex_lt(
            out[a].name,
            out[b].name,
        ) by {
            if b < p {
                assert(out[a].name == orgs[a].name);
                assert(out[b].name == orgs[b].name);
            } else if a < p && b == p {
                assert(out[a].name == orgs[a].name);
                assert(out[b].name == name);
            } else if a == p && b > p {
                assert(out[a].name == name);
                assert(out[b].name == orgs[b - 1].name);
                assert(p < orgs.len());
                assert(lex_lt(name, orgs[p].name));
                if b - 1 > p {
                    assert(lex_lt(orgs[p].name, orgs[b - 1].name));
                    lemma_lex_lt_trans(name, orgs[p].name, orgs[b - 1].name);
                }
            } else if a < p && b > p {
                assert(out[a].name == orgs[a].name);
                assert(out[b].name == orgs[b - 1].name);
                assert(a < b - 1);
            } else {
                assert(a > p && b > p);
                assert(out[a].name == orgs[a - 1].name);
                assert(out[b].name == orgs[b - 1].name);
            }
        }
    }
}

/// Upserts in place, keeping the list sorted.
pub fn upsert_org(orgs: &mut Vec<OrgData>, name: &str, repos: Vec<Repo>)
    requires
        orgs_sorted(old(orgs)@.map_values(|o: OrgData| o@)),
    ensures
        final(orgs)@.map_values(|o: OrgData| o@) == upsert_org_model(
            old(orgs)@.map_values(|o: OrgData| o@),
            name@,
            repos@.map_values(|r: Repo| r@),
        ),
        orgs_sorted(final(orgs)@.map_values(|o: OrgData| o@)),
{
    let ghost orgsm = orgs@.map_values(|o: OrgData| o@);
    let ghost reposm = repos@.map_values(|r: Repo| r@);
    let mut i: usize = 0;
    while i < orgs.len()
        invariant
            i <= orgs.len(),
            orgs@ == old(orgs)@,
            orgsm == orgs@.map_values(|o: OrgData| o@),
            reposm == repos@.map_values(|r: Repo| r@),
            orgs_sorted(orgsm),
            forall|k: int| 0 <= k < i ==> (#[trigger] orgsm[k]).name != name@,
        decreases orgs.len() - i,
    {
        if str_eq(orgs[i].name.as_str(), name) {
            proof {
                lemma_org_index_props(orgsm, name@);
                assert(orgsm[i as int].name == name@);
                assert(org_index(orgsm, name@) == i) by {
                    let j = org_index(orgsm, name@);
                    if 0 <= j < i {
                        assert(orgsm[j].name != name@);
                    }
                }
                lemma_upsert_sorted(orgsm, name@, reposm);
            }
            let name_owned = orgs.remove(i).name;
            orgs.insert(i, OrgData { name: name_owned, repos });
            proof {
                assert(orgs@.map_values(|o: OrgData| o@) =~= orgsm.update(
                    i as int,
                    OrgModel { name: name@, repos: reposm },
                ));
            }
            return ;
        }
        i = i + 1;
    }
    // name is absent: find the sorted insert position
    proof {
        assert(org_index(orgsm, name@) < 0) by {
            lemma_org_index_props(orgsm, name@);
            let j = org_index(orgsm, name@);
            if j >= 0 {
                assert(orgsm[j].name != name@);
            }
        }
    }
    let mut p: usize = 0;
    loop
        invariant
            p <= orgs.len(),
            orgs@ == old(orgs)@,
            orgsm == orgs@.map_values(|o: OrgData| o@),
            forall|k: int| 0 <= k < p ==> !lex_lt(name@, (#[trigger] orgsm[k]).name),
        ensures
            p <= orgs.len(),
            orgs@ == old(orgs)@,
            forall|k: int| 0 <= k < p ==> !lex_lt(name@, (#[trigger] orgsm[k]).name),
            p < orgs@.len() ==> lex_lt(name@, orgsm[p as int].name),
        decreases orgs.len() - p,
    {
        if p == orgs.len() {
            break ;
        }
        if str_lt(name, orgs[p].name.as_str()) {
            break ;
        }
        proof {
            lemma_lex_lt_total(name@, orgsm[p as int].name);
        }
        p = p + 1;
    }
    proof {
        assert(org_insert_pos(orgsm, name@) == p) by {
            lemma_org_insert_pos_props(orgsm, name@);
            let q = org_insert_pos(orgsm, name@);
            if q < p {
                assert(!lex_lt(name@, orgsm[q].name));
            } else if p < q {
                assert(!lex_lt(name@, orgsm[p as int].name));
            }
        }
        lemma_upsert_sorted(orgsm, name@, reposm);
    }
    let mut name_s = String::new();
    name_s.append(name);
    orgs.insert(p, OrgData { name: name_s, repos });
    proof {
        assert(orgs@.map_values(|o: OrgData| o@) =~= orgsm.insert(
            p as int,
            OrgModel { name: name@, repos: reposm },
        ));
    }
}

} // verus!
