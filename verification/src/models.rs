//! Plain data carried through the dashboard: repositories, pull requests and
//! rate-limit telemetry. Timestamps are seconds since the Unix epoch.

use vstd::prelude::*;

verus! {

/// A repository, as a fetch reports it.
#[derive(Debug)]
pub struct Repo {
    pub name: String,
    pub owner: String,
    pub url: String,
    pub description: Option<String>,
    pub open_pr_count: u32,
    pub is_archived: bool,
}

/// Mathematical image of a [`Repo`].
#[verifier::ext_equal]
pub struct RepoModel {
    pub name: Seq<char>,
    pub owner: Seq<char>,
    pub url: Seq<char>,
    pub description: Option<Seq<char>>,
    pub open_pr_count: u32,
    pub is_archived: bool,
}

impl View for Repo {
    type V = RepoModel;

    open spec fn view(&self) -> RepoModel {
        RepoModel {
            name: self.name@,
            owner: self.owner@,
            url: self.url@,
            description: match self.description {
                Some(ref d) => Some(d@),
                None => None,
            },
            open_pr_count: self.open_pr_count,
            is_archived: self.is_archived,
        }
    }
}

/// The `owner/name` form of a repository's name, as a sequence.
pub open spec fn spec_full_name(owner: Seq<char>, name: Seq<char>) -> Seq<char> {
    owner + "/"@ + name
}

impl Clone for Repo {
    fn clone(&self) -> (r: Self)
        ensures
            r@ == self@,
    {
        Repo {
            name: self.name.clone(),
            owner: self.owner.clone(),
            url: self.url.clone(),
            description: match self.description {
                Some(ref d) => Some(d.clone()),
                None => None,
            },
            open_pr_count: self.open_pr_count,
            is_archived: self.is_archived,
        }
    }
}

impl Repo {
    pub fn full_name(&self) -> (r: String)
        ensures
            r@ == spec_full_name(self@.owner, self@.name),
    {
        let mut s = self.owner.clone();
        s.append("/");
        s.append(self.name.as_str());
        s
    }
}

/// An open pull request, as a fetch reports it.
#[derive(Debug)]
pub struct PullRequest {
    pub number: u32,
    pub title: String,
    pub author: String,
    pub repo_owner: String,
    pub repo_name: String,
    pub url: String,
    pub created_at: i64,
    pub updated_at: i64,
    pub is_draft: bool,
    pub additions: u32,
    pub deletions: u32,
    pub review_decision: Option<String>,
    pub labels: Vec<String>,
}

/// Mathematical image of a [`PullRequest`].
#[verifier::ext_equal]
pub struct PrModel {
    pub number: u32,
    pub title: Seq<char>,
    pub author: Seq<char>,
    pub repo_owner: Seq<char>,
    pub repo_name: Seq<char>,
    pub url: Seq<char>,
    pub created_at: i64,
    pub updated_at: i64,
    pub is_draft: bool,
    pub additions: u32,
    pub deletions: u32,
    pub review_decision: Option<Seq<char>>,
    pub labels: Seq<Seq<char>>,
}

impl View for PullRequest {
    type V = PrModel;

    open spec fn view(&self) -> PrModel {
        PrModel {
            number: self.number,
            title: self.title@,
            author: self.author@,
            repo_owner: self.repo_owner@,
            repo_name: self.repo_name@,
            url: self.url@,
            created_at: self.created_at,
            updated_at: self.updated_at,
            is_draft: self.is_draft,
            additions: self.additions,
            deletions: self.deletions,
            review_decision: match self.review_decision {
                Some(ref d) => Some(d@),
                None => None,
            },
            labels: self.labels@.map_values(|l: String| l@),
        }
    }
}

/// A pull request's identity for deduplication: qualified repository name
/// paired with the pull-request number.
pub open spec fn pr_identity(pr: PrModel) -> (Seq<char>, u32) {
    (spec_full_name(pr.repo_owner, pr.repo_name), pr.number)
}

impl Clone for PullRequest {
    fn clone(&self) -> (r: Self)
        ensures
            r@ == self@,
    {
        let labels = self.labels.clone();
        proof {
            assert forall|i: int| 0 <= i < labels@.len() implies labels@[i]@
                == self.labels@[i]@ by {
                assert(vstd::pervasive::cloned::<String>(self.labels[i], labels[i]));
            }
            assert(labels@.map_values(|l: String| l@) =~= self.labels@.map_values(
                |l: String| l@,
            ));
        }
        PullRequest {
            number: self.number,
            title: self.title.clone(),
            author: self.author.clone(),
            repo_owner: self.repo_owner.clone(),
            repo_name: self.repo_name.clone(),
            url: self.url.clone(),
            created_at: self.created_at,
            updated_at: self.updated_at,
            is_draft: self.is_draft,
            additions: self.additions,
            deletions: self.deletions,
            review_decision: match self.review_decision {
                Some(ref d) => Some(d.clone()),
                None => None,
            },
            labels,
        }
    }
}

impl PullRequest {
    pub fn repo_full_name(&self) -> (r: String)
        ensures
            r@ == spec_full_name(self@.repo_owner, self@.repo_name),
    {
        let mut s = self.repo_owner.clone();
        s.append("/");
        s.append(self.repo_name.as_str());
        s
    }
}

/// Remaining-quota telemetry reported by the remote API.
#[derive(Debug, Clone)]
pub struct RateLimit {
    pub remaining: u32,
    pub limit: u32,
    pub reset_at: Option<i64>,
}

/// Mathematical image of a [`RateLimit`].
#[verifier::ext_equal]
pub struct RateLimitModel {
    pub remaining: u32,
    pub limit: u32,
    pub reset_at: Option<i64>,
}

impl View for RateLimit {
    type V = RateLimitModel;

    open spec fn view(&self) -> RateLimitModel {
        RateLimitModel { remaining: self.remaining, limit: self.limit, reset_at: self.reset_at }
    }
}

impl Default for RateLimit {
    fn default() -> (r: Self)
        ensures
            r@ == (RateLimitModel { remaining: 0u32, limit: 0u32, reset_at: None }),
    {
        RateLimit { remaining: 0, limit: 0, reset_at: None }
    }
}

/// The authenticated account, as the remote API reports it.
#[derive(Debug, Clone)]
pub struct ViewerInfo {
    pub login: String,
}

} // verus!
