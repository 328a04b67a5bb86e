//! Read-only queries on the application state: the filtered pull-request
//! lists the content pane shows, and the URL under either cursor.

use crate::models::{spec_full_name, PrModel, PullRequest};
use crate::navtree::{NavNode, NavNodeModel};
use crate::search::{pr_matches, pr_matches_query, spec_filter_prs};
use crate::sequtil::lemma_filter_take_step;
use crate::state::{AppState, ContentView, ContentViewModel, StateModel};
use crate::strutil::{lower_of, str_eq};
use vstd::prelude::*;

verus! {

/// The pull requests the content pane currently shows, after search
/// filtering; an organization overview shows none.
pub open spec fn spec_current_prs(s: StateModel) -> Seq<PrModel> {
    match s.content_view {
        ContentViewModel::Inbox => spec_filter_prs(s.search_query, s.inbox),
        ContentViewModel::AllOpenPrs => spec_filter_prs(s.search_query, s.all_open_prs),
        ContentViewModel::RepoPrList { owner, name } => spec_filter_prs(
            s.search_query,
            s.all_open_prs.filter(
                |pr: PrModel|
                    spec_full_name(pr.repo_owner, pr.repo_name) == spec_full_name(owner, name),
            ),
        ),
        ContentViewModel::OrgOverview(_) => Seq::empty(),
    }
}

/// The URL of the pull request under the content cursor, if the cursor is
/// on one.
pub open spec fn spec_selected_pr_url(s: StateModel) -> Option<Seq<char>> {
    let prs = spec_current_prs(s);
    if 0 <= s.content_cursor < prs.len() {
        Some(prs[s.content_cursor].url)
    } else {
        None
    }
}

/// The URL of the organization or repository under the navigation cursor,
/// if the cursor is on one.
pub open spec fn spec_selected_nav_url(s: StateModel) -> Option<Seq<char>> {
    if 0 <= s.nav_cursor < s.nav_nodes.len() {
        match s.nav_nodes[s.nav_cursor] {
            NavNodeModel::Repo { owner, name, .. } => Some(
                "https://github.com/"@ + owner + "/"@ + name,
            ),
            NavNodeModel::Org(org) => Some("https://github.com/"@ + org),
            _ => None,
        }
    } else {
        None
    }
}

impl AppState {
    /// Filters a pull-request list with the current search query:
    /// everything when the query is empty, otherwise the case-insensitive
    /// matches.
    pub fn filtered_prs(&self, prs: &[PullRequest]) -> (r: Vec<PullRequest>)
        ensures
            r@.map_values(|p: PullRequest| p@) == spec_filter_prs(
                self.search_query@,
                prs@.map_values(|p: PullRequest| p@),
            ),
    {
        let ghost inm = prs@.map_values(|p: PullRequest| p@);
        let mut r: Vec<PullRequest> = Vec::new();
        if self.search_query.as_str().is_empty() {
            let mut i: usize = 0;
            proof {
                assert(r@.map_values(|p: PullRequest| p@) =~= inm.take(0));
            }
            while i < prs.len()
                invariant
                    i <= prs.len(),
                    inm == prs@.map_values(|p: PullRequest| p@),
                    r@.map_values(|p: PullRequest| p@) == inm.take(i as int),
                decreases prs.len() - i,
            {
                let ghost rm = r@.map_values(|p: PullRequest| p@);
                r.push(prs[i].clone());
                proof {
                    assert(r@.map_values(|p: PullRequest| p@) =~= rm.push(inm[i as int]));
                    assert(inm.take(i + 1) =~= inm.take(i as int).push(inm[i as int]));
                }
                i = i + 1;
            }
            proof {
                assert(inm.take(prs@.len() as int) =~= inm);
            }
            return r;
        }
        let lq = self.search_query.as_str().to_lowercase();
        let ghost pred = |pr: PrModel| pr_matches(lower_of(self.search_query@), pr);
        let mut i: usize = 0;
        proof {
            reveal(Seq::filter);
            assert(inm.take(0).filter(pred) =~= Seq::<PrModel>::empty());
            assert(r@.map_values(|p: PullRequest| p@) =~= Seq::<PrModel>::empty());
        }
        while i < prs.len()
            invariant
                i <= prs.len(),
                inm == prs@.map_values(|p: PullRequest| p@),
                lq@ == lower_of(self.search_query@),
                pred == (|pr: PrModel| pr_matches(lower_of(self.search_query@), pr)),
                r@.map_values(|p: PullRequest| p@) == inm.take(i as int).filter(pred),
            decreases prs.len() - i,
        {
            let ghost rm = r@.map_values(|p: PullRequest| p@);
            proof {
                assert(inm[i as int] == prs@[i as int]@);
                lemma_filter_take_step(inm, pred, i as int);
            }
            if pr_matches_query(lq.as_str(), &prs[i]) {
                r.push(prs[i].clone());
                proof {
                    assert(r@.map_values(|p: PullRequest| p@) =~= rm.push(inm[i as int]));
                    assert(r@.map_values(|p: PullRequest| p@) == inm.take(i + 1).filter(pred));
                }
            } else {
                proof {
                    assert(r@.map_values(|p: PullRequest| p@) == inm.take(i + 1).filter(pred));
                }
            }
            i = i + 1;
        }
        proof {
            assert(inm.take(prs@.len() as int) =~= inm);
        }
        r
    }

    /// The pull requests the content pane currently shows.
    pub fn current_pr_list(&self) -> (r: Vec<PullRequest>)
        ensures
            r@.map_values(|p: PullRequest| p@) == spec_current_prs(self@),
    {
        match &self.content_view {
            ContentView::Inbox => self.filtered_prs(self.inbox.as_slice()),
            ContentView::AllOpenPrs => self.filtered_prs(self.all_open_prs.as_slice()),
            ContentView::RepoPrList { owner, name } => {
                let mut full = owner.clone();
                full.append("/");
                full.append(name.as_str());
                proof {
                    assert(full@ == spec_full_name(owner@, name@));
                }
                let ghost allm = self.all_open_prs@.map_values(|p: PullRequest| p@);
                let ghost pred = |pr: PrModel|
                    spec_full_name(pr.repo_owner, pr.repo_name) == spec_full_name(owner@, name@);
                let mut sel: Vec<PullRequest> = Vec::new();
                let mut i: usize = 0;
                proof {
                    reveal(Seq::filter);
                    assert(allm.take(0).filter(pred) =~= Seq::<PrModel>::empty());
                    assert(sel@.map_values(|p: PullRequest| p@) =~= Seq::<PrModel>::empty());
                }
                while i < self.all_open_prs.len()
                    invariant
                        i <= self.all_open_prs.len(),
                        allm == self.all_open_prs@.map_values(|p: PullRequest| p@),
                        full@ == spec_full_name(owner@, name@),
                        pred == (|pr: PrModel|
                            spec_full_name(pr.repo_owner, pr.repo_name) == spec_full_name(
                                owner@,
                                name@,
                            )),
                        sel@.map_values(|p: PullRequest| p@) == allm.take(i as int).filter(pred),
                    decreases self.all_open_prs.len() - i,
                {
                    let ghost selm = sel@.map_values(|p: PullRequest| p@);
                    proof {
                        assert(allm[i as int] == self.all_open_prs@[i as int]@);
                        lemma_filter_take_step(allm, pred, i as int);
                    }
                    let prf = self.all_open_prs[i].repo_full_name();
                    if str_eq(prf.as_str(), full.as_str()) {
                        sel.push(self.all_open_prs[i].clone());
                        proof {
                            assert(sel@.map_values(|p: PullRequest| p@) =~= selm.push(
                                allm[i as int],
                            ));
                            assert(sel@.map_values(|p: PullRequest| p@) == allm.take(
                                i + 1,
                            ).filter(pred));
                        }
                    } else {
                        proof {
                            assert(sel@.map_values(|p: PullRequest| p@) == allm.take(
                                i + 1,
                            ).filter(pred));
                        }
                    }
                    i = i + 1;
                }
                proof {
                    assert(allm.take(self.all_open_prs@.len() as int) =~= allm);
                }
                self.filtered_prs(sel.as_slice())
            },
            ContentView::OrgOverview(_) => Vec::new(),
        }
    }

    /// The URL of the pull request under the content cursor.
    pub fn selected_pr_url(&self) -> (r: Option<String>)
        ensures
            (r is Some) == (spec_selected_pr_url(self@) is Some),
            r matches Some(u) ==> spec_selected_pr_url(self@) == Some(u@),
    {
        let prs = self.current_pr_list();
        if self.content_cursor < prs.len() {
            proof {
                assert(prs@.map_values(|p: PullRequest| p@)[self.content_cursor as int]
                    == prs@[self.content_cursor as int]@);
            }
            Some(prs[self.content_cursor].url.clone())
        } else {
            None
        }
    }

    /// The URL of the organization or repository under the navigation
    /// cursor.
    pub fn selected_nav_url(&self) -> (r: Option<String>)
        ensures
            (r is Some) == (spec_selected_nav_url(self@) is Some),
            r matches Some(u) ==> spec_selected_nav_url(self@) == Some(u@),
    {
        if self.nav_cursor < self.nav_nodes.len() {
            proof {
                assert(self.nav_nodes@.map_values(|n: NavNode| n@)[self.nav_cursor as int]
                    == self.nav_nodes@[self.nav_cursor as int]@);
            }
            match &self.nav_nodes[self.nav_cursor] {
                NavNode::Repo { owner, name, .. } => {
                    let mut u = String::new();
                    u.append("https://github.com/");
                    u.append(owner.as_str());
                    u.append("/");
                    u.append(name.as_str());
                    Some(u)
                },
                NavNode::Org(org) => {
                    let mut u = String::new();
                    u.append("https://github.com/");
                    u.append(org.as_str());
                    Some(u)
                },
                NavNode::AllPrs => None,
                NavNode::MyInbox => None,
            }
        } else {
            None
        }
    }
}

} // verus!
