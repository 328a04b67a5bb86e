//! The scheduler's decision logic: how the macro-intent fans out into
//! fetches, which cache key each fetch consults, and the search queries the
//! data source is asked to run. The dispatching itself — tasks, permits,
//! the cache on disk — lives outside the core and consumes these values.

use crate::actions::{IntentModel, SideEffect};
use vstd::prelude::*;

verus! {

/// What the refresh macro-intent expands into: one repository fetch per
/// configured organization, then one per configured user, then the inbox
/// fetch and the all-open-pull-requests fetch.
pub open spec fn spec_expand_refresh_all(
    orgs: Seq<Seq<char>>,
    users: Seq<Seq<char>>,
) -> Seq<IntentModel> {
    orgs.map_values(|o: Seq<char>| IntentModel::FetchOrgRepos(o)) + users.map_values(
        |u: Seq<char>| IntentModel::FetchUserRepos(u),
    ) + seq![IntentModel::FetchInbox, IntentModel::FetchAllOpenPrs]
}

/// Expands the refresh macro-intent. For `n` organizations and `m` users
/// the result holds exactly `n + m + 2` fetch intents, in dispatch order.
pub fn expand_refresh_all(orgs: &Vec<String>, users: &Vec<String>) -> (r: Vec<SideEffect>)
    ensures
        r@.map_values(|e: SideEffect| e@) == spec_expand_refresh_all(
            orgs@.map_values(|s: String| s@),
            users@.map_values(|s: String| s@),
        ),
        r@.len() == orgs@.len() + users@.len() + 2,
{
    let ghost orgsm = orgs@.map_values(|s: String| s@);
    let ghost usersm = users@.map_values(|s: String| s@);
    let ghost part1 = orgsm.map_values(|o: Seq<char>| IntentModel::FetchOrgRepos(o));
    let ghost part2 = usersm.map_values(|u: Seq<char>| IntentModel::FetchUserRepos(u));
    let mut r: Vec<SideEffect> = Vec::new();
    let mut i: usize = 0;
    while i < orgs.len()
        invariant
            i <= orgs.len(),
            orgsm == orgs@.map_values(|s: String| s@),
            part1 == orgsm.map_values(|o: Seq<char>| IntentModel::FetchOrgRepos(o)),
            r@.map_values(|e: SideEffect| e@) == part1.take(i as int),
        decreases orgs.len() - i,
    {
        let ghost rm = r@.map_values(|e: SideEffect| e@);
        r.push(SideEffect::FetchOrgRepos(orgs[i].clone()));
        proof {
            assert(r@.map_values(|e: SideEffect| e@) =~= rm.push(part1[i as int]));
            assert(part1.take(i + 1) =~= part1.take(i as int).push(part1[i as int]));
        }
        i = i + 1;
    }
    proof {
        assert(part1.take(orgs@.len() as int) =~= part1);
    }
    let mut j: usize = 0;
    while j < users.len()
        invariant
            j <= users.len(),
            usersm == users@.map_values(|s: String| s@),
            part1 == orgsm.map_values(|o: Seq<char>| IntentModel::FetchOrgRepos(o)),
            part2 == usersm.map_values(|u: Seq<char>| IntentModel::FetchUserRepos(u)),
            r@.map_values(|e: SideEffect| e@) == part1 + part2.take(j as int),
        decreases users.len() - j,
    {
        let ghost rm = r@.map_values(|e: SideEffect| e@);
        r.push(SideEffect::FetchUserRepos(users[j].clone()));
        proof {
            assert(r@.map_values(|e: SideEffect| e@) =~= rm.push(part2[j as int]));
            assert(part2.take(j + 1) =~= part2.take(j as int).push(part2[j as int]));
            assert(part1 + part2.take(j + 1) =~= (part1 + part2.take(j as int)).push(
                part2[j as int],
            ));
        }
        j = j + 1;
    }
    proof {
        assert(part2.take(users@.len() as int) =~= part2);
    }
    let ghost before_tail = r@.map_values(|e: SideEffect| e@);
    r.push(SideEffect::FetchInbox);
    r.push(SideEffect::FetchAllOpenPrs);
    proof {
        assert(r@.map_values(|e: SideEffect| e@) =~= before_tail + seq![
            IntentModel::FetchInbox,
            IntentModel::FetchAllOpenPrs,
        ]);
        assert(r@.map_values(|e: SideEffect| e@) =~= spec_expand_refresh_all(orgsm, usersm));
    }
    r
}

/// The cache key an owner's repository fetch consults.
pub fn org_repos_key(org: &str) -> (r: String)
    ensures
        r@ == "org_repos_"@ + org@,
{
    let mut s = String::new();
    s.append("org_repos_");
    s.append(org);
    s
}

/// The cache key a user's repository fetch consults.
pub fn user_repos_key(user: &str) -> (r: String)
    ensures
        r@ == "user_repos_"@ + user@,
{
    let mut s = String::new();
    s.append("user_repos_");
    s.append(user);
    s
}

/// The cache key the inbox fetch consults, per viewer login.
pub fn inbox_key(login: &str) -> (r: String)
    ensures
        r@ == "inbox_"@ + login@,
{
    let mut s = String::new();
    s.append("inbox_");
    s.append(login);
    s
}

/// The cache key of the all-open-pull-requests fetch.
pub fn all_open_prs_key() -> (r: String)
    ensures
        r@ == "all_open_prs"@,
{
    let mut s = String::new();
    s.append("all_open_prs");
    s
}

/// The search query for pull requests awaiting the viewer's review.
pub fn review_query(login: &str) -> (r: String)
    ensures
        r@ == "is:open is:pr review-requested:"@ + login@ + " archived:false"@,
{
    let mut s = String::new();
    s.append("is:open is:pr review-requested:");
    s.append(login);
    s.append(" archived:false");
    s
}

/// The search query for pull requests assigned to the viewer.
pub fn assigned_query(login: &str) -> (r: String)
    ensures
        r@ == "is:open is:pr assignee:"@ + login@ + " archived:false"@,
{
    let mut s = String::new();
    s.append("is:open is:pr assignee:");
    s.append(login);
    s.append(" archived:false");
    s
}

/// The owner filters of the all-open-pull-requests query, one per
/// configured organization and user.
pub open spec fn spec_owner_filters(
    orgs: Seq<Seq<char>>,
    users: Seq<Seq<char>>,
) -> Seq<Seq<char>> {
    orgs.map_values(|o: Seq<char>| "org:"@ + o) + users.map_values(|u: Seq<char>| "user:"@ + u)
}

/// The parts joined with single spaces.
pub open spec fn spec_join_space(parts: Seq<Seq<char>>) -> Seq<char>
    decreases parts.len(),
{
    if parts.len() == 0 {
        Seq::empty()
    } else if parts.len() == 1 {
        parts[0]
    } else {
        spec_join_space(parts.drop_last()) + " "@ + parts.last()
    }
}

/// The search query behind the all-open-pull-requests fetch.
pub open spec fn spec_all_open_prs_query(orgs: Seq<Seq<char>>, users: Seq<Seq<char>>) -> Seq<
    char,
> {
    "is:open is:pr archived:false "@ + spec_join_space(spec_owner_filters(orgs, users))
}

/// Builds the all-open-pull-requests search query from the configured
/// owners.
pub fn all_open_prs_query(orgs: &Vec<String>, users: &Vec<String>) -> (r: String)
    ensures
        r@ == spec_all_open_prs_query(
            orgs@.map_values(|s: String| s@),
            users@.map_values(|s: String| s@),
        ),
{
    let ghost orgsm = orgs@.map_values(|s: String| s@);
    let ghost usersm = users@.map_values(|s: String| s@);
    let ghost filters = spec_owner_filters(orgsm, usersm);
    let ghost fo = orgsm.map_values(|o: Seq<char>| "org:"@ + o);
    let ghost fu = usersm.map_values(|u: Seq<char>| "user:"@ + u);
    let mut joined = String::new();
    let mut i: usize = 0;
    while i < orgs.len()
        invariant
            i <= orgs.len(),
            orgsm == orgs@.map_values(|s: String| s@),
            fo == orgsm.map_values(|o: Seq<char>| "org:"@ + o),
            joined@ == spec_join_space(fo.take(i as int)),
        decreases orgs.len() - i,
    {
        let ghost pre = joined@;
        if i > 0 {
            joined.append(" ");
        }
        joined.append("org:");
        joined.append(orgs[i].as_str());
        proof {
            assert(fo[i as int] == "org:"@ + orgsm[i as int]);
            assert(fo.take(i + 1).drop_last() =~= fo.take(i as int));
            assert(fo.take(i + 1).last() == fo[i as int]);
            if i == 0 {
                assert(joined@ =~= spec_join_space(fo.take(1)));
            } else {
                assert(joined@ =~= spec_join_space(fo.take(i as int)) + " "@ + fo[i as int]);
            }
        }
        i = i + 1;
    }
    proof {
        assert(fo.take(orgs@.len() as int) =~= fo);
    }
    let has_orgs = orgs.len() > 0;
    let mut j: usize = 0;
    while j < users.len()
        invariant
            j <= users.len(),
            has_orgs == (orgs@.len() > 0),
            usersm == users@.map_values(|s: String| s@),
            fo == orgsm.map_values(|o: Seq<char>| "org:"@ + o),
            fu == usersm.map_values(|u: Seq<char>| "user:"@ + u),
            fo.len() == orgs@.len(),
            joined@ == spec_join_space(fo + fu.take(j as int)),
        decreases users.len() - j,
    {
        let ghost pre = joined@;
        let first = !has_orgs && j == 0;
        if !first {
            joined.append(" ");
        }
        joined.append("user:");
        joined.append(users[j].as_str());
        proof {
            let parts = fo + fu.take(j + 1);
            assert(fu[j as int] == "user:"@ + usersm[j as int]);
            assert(parts.drop_last() =~= fo + fu.take(j as int));
            assert(parts.last() == fu[j as int]);
            if first {
                assert(fo.len() == 0 && j == 0);
                assert(parts.len() == 1);
                assert(parts[0] == fu[0]);
                assert(pre =~= Seq::<char>::empty());
                assert(joined@ =~= spec_join_space(parts));
            } else {
                assert(parts.len() > 1);
                assert(joined@ =~= spec_join_space(parts.drop_last()) + " "@ + parts.last());
            }
        }
        j = j + 1;
    }
    proof {
        assert(fu.take(users@.len() as int) =~= fu);
        assert(filters =~= fo + fu);
    }
    let mut r = String::new();
    r.append("is:open is:pr archived:false ");
    r.append(joined.as_str());
    r
}

} // verus!
