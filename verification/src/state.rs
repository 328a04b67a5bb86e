//! The single mutable application state: fetched data, navigation, search
//! and UI flags, with its well-formedness invariant and its construction.

use crate::models::{PrModel, PullRequest, RateLimit, RateLimitModel};
use crate::navtree::{build_nav_tree, nav_tree, NavNode, NavNodeModel};
use crate::orgs::{orgs_sorted, upsert_org, upsert_org_model, OrgData, OrgModel};
use crate::strutil::vec_contains_str;
use vstd::prelude::*;

verus! {

/// Which pane receives movement and selection keys.
#[derive(Debug, Clone, Copy, PartialEq, Eq, Structural)]
pub enum FocusedPane {
    Navigation,
    Content,
}

/// What the content pane shows.
#[derive(Debug, Clone, PartialEq, Eq)]
pub enum ContentView {
    OrgOverview(String),
    RepoPrList { owner: String, name: String },
    AllOpenPrs,
    Inbox,
}

/// Mathematical image of a [`ContentView`].
#[verifier::ext_equal]
pub enum ContentViewModel {
    OrgOverview(Seq<char>),
    RepoPrList { owner: Seq<char>, name: Seq<char> },
    AllOpenPrs,
    Inbox,
}

impl View for ContentView {
    type V = ContentViewModel;

    open spec fn view(&self) -> ContentViewModel {
        match self {
            ContentView::OrgOverview(org) => ContentViewModel::OrgOverview(org@),
            ContentView::RepoPrList { owner, name } => ContentViewModel::RepoPrList {
                owner: owner@,
                name: name@,
            },
            ContentView::AllOpenPrs => ContentViewModel::AllOpenPrs,
            ContentView::Inbox => ContentViewModel::Inbox,
        }
    }
}

/// No name occurs twice.
pub open spec fn names_unique(names: Seq<Seq<char>>) -> bool {
    forall|i: int, j: int| 0 <= i < j < names.len() ==> names[i] != names[j]
}

/// The list with the first occurrence of `x` removed; unchanged when `x`
/// is absent.
pub open spec fn remove_first(names: Seq<Seq<char>>, x: Seq<char>) -> Seq<Seq<char>>
    decreases names.len(),
{
    if names.len() == 0 {
        names
    } else if names[0] == x {
        names.skip(1)
    } else {
        seq![names[0]] + remove_first(names.skip(1), x)
    }
}

/// Removing the first occurrence at its index `i` is removing index `i`.
pub proof fn lemma_remove_first_at(names: Seq<Seq<char>>, x: Seq<char>, i: int)
    requires
        0 <= i < names.len(),
        names[i] == x,
        forall|k: int| 0 <= k < i ==> names[k] != x,
    ensures
        remove_first(names, x) == names.remove(i),
    decreases i,
{
    if i == 0 {
        assert(remove_first(names, x) =~= names.remove(0));
    } else {
        assert(names[0] != x);
        assert forall|k: int| 0 <= k < i - 1 implies names.skip(1)[k] != x by {
            assert(names[k + 1] != x);
        }
        assert(names.skip(1)[i - 1] == names[i]);
        lemma_remove_first_at(names.skip(1), x, i - 1);
        assert(remove_first(names, x) =~= names.remove(i)) by {
            assert(remove_first(names, x) == seq![names[0]] + names.skip(1).remove(i - 1));
        }
    }
}

/// Removing an absent name changes nothing.
pub proof fn lemma_remove_first_absent(names: Seq<Seq<char>>, x: Seq<char>)
    requires
        !names.contains(x),
    ensures
        remove_first(names, x) == names,
    decreases names.len(),
{
    if names.len() == 0 {
    } else {
        assert(names[0] != x);
        assert(!names.skip(1).contains(x)) by {
            if names.skip(1).contains(x) {
                let w = choose|w: int| 0 <= w < names.skip(1).len() && names.skip(1)[w] == x;
                assert(names[w + 1] == x);
            }
        }
        lemma_remove_first_absent(names.skip(1), x);
        assert(remove_first(names, x) =~= names);
    }
}

/// A removal keeps uniqueness.
pub proof fn lemma_remove_first_unique(names: Seq<Seq<char>>, x: Seq<char>)
    requires
        names_unique(names),
    ensures
        names_unique(remove_first(names, x)),
{
    if names.contains(x) {
        let i = choose|i: int| 0 <= i < names.len() && names[i] == x && forall|k: int|
            0 <= k < i ==> names[k] != x;
        assert(exists|i: int|
            0 <= i < names.len() && names[i] == x && forall|k: int|
                0 <= k < i ==> names[k] != x) by {
            names.index_of_first_ensures(x);
            let w = names.index_of_first(x).unwrap();
            assert(0 <= w < names.len() && names[w] == x && forall|k: int|
                0 <= k < w ==> names[k] != x);
        }
        lemma_remove_first_at(names, x, i);
        let out = names.remove(i);
        names.remove_ensures(i);
        assert forall|a: int, b: int| 0 <= a < b < out.len() implies out[a] != out[b] by {
            if b < i {
            } else if a < i && b >= i {
                assert(out[b] == names[b + 1]);
            } else {
                assert(out[a] == names[a + 1]);
                assert(out[b] == names[b + 1]);
            }
        }
    } else {
        lemma_remove_first_absent(names, x);
    }
}

/// The single mutable root of the application.
#[derive(Debug)]
pub struct AppState {
    // Data
    pub orgs: Vec<OrgData>,
    pub all_open_prs: Vec<PullRequest>,
    pub inbox: Vec<PullRequest>,
    pub viewer_login: String,
    pub rate_limit: RateLimit,
    pub last_refresh: Option<i64>,
    // Navigation
    pub nav_nodes: Vec<NavNode>,
    pub nav_cursor: usize,
    pub nav_expanded: Vec<String>,
    pub focused_pane: FocusedPane,
    pub content_view: ContentView,
    pub content_cursor: usize,
    // Search
    pub search_active: bool,
    pub search_query: String,
    // UI flags
    pub loading: bool,
    pub loading_orgs: Vec<String>,
    pub error_message: Option<String>,
    pub should_quit: bool,
}

/// Mathematical image of the whole [`AppState`].
#[verifier::ext_equal]
pub struct StateModel {
    pub orgs: Seq<OrgModel>,
    pub all_open_prs: Seq<PrModel>,
    pub inbox: Seq<PrModel>,
    pub viewer_login: Seq<char>,
    pub rate_limit: RateLimitModel,
    pub last_refresh: Option<i64>,
    pub nav_nodes: Seq<NavNodeModel>,
    pub nav_cursor: int,
    pub nav_expanded: Seq<Seq<char>>,
    pub focused_pane: FocusedPane,
    pub content_view: ContentViewModel,
    pub content_cursor: int,
    pub search_active: bool,
    pub search_query: Seq<char>,
    pub loading: bool,
    pub loading_orgs: Seq<Seq<char>>,
    pub error_message: Option<Seq<char>>,
    pub should_quit: bool,
}

impl View for AppState {
    type V = StateModel;

    open spec fn view(&self) -> StateModel {
        StateModel {
            orgs: self.orgs@.map_values(|o: OrgData| o@),
            all_open_prs: self.all_open_prs@.map_values(|p: PullRequest| p@),
            inbox: self.inbox@.map_values(|p: PullRequest| p@),
            viewer_login: self.viewer_login@,
            rate_limit: self.rate_limit@,
            last_refresh: self.last_refresh,
            nav_nodes: self.nav_nodes@.map_values(|n: NavNode| n@),
            nav_cursor: self.nav_cursor as int,
            nav_expanded: self.nav_expanded@.map_values(|s: String| s@),
            focused_pane: self.focused_pane,
            content_view: self.content_view@,
            content_cursor: self.content_cursor as int,
            search_active: self.search_active,
            search_query: self.search_query@,
            loading: self.loading,
            loading_orgs: self.loading_orgs@.map_values(|s: String| s@),
            error_message: match self.error_message {
                Some(ref m) => Some(m@),
                None => None,
            },
            should_quit: self.should_quit,
        }
    }
}

/// A cursor clamped into a list of the given length.
pub open spec fn clamp_cursor(cur: int, len: int) -> int {
    if len > 0 && cur >= len {
        len - 1
    } else {
        cur
    }
}

impl StateModel {
    /// What every reachable state satisfies: organizations sorted and
    /// unique, expansion and loading sets free of duplicates, the
    /// navigation tree derived from the data, and the navigation cursor in
    /// bounds.
    pub open spec fn wf(self) -> bool {
        &&& orgs_sorted(self.orgs)
        &&& names_unique(self.nav_expanded)
        &&& names_unique(self.loading_orgs)
        &&& self.nav_nodes == nav_tree(self.orgs, self.nav_expanded)
        &&& 0 <= self.nav_cursor < self.nav_nodes.len()
    }
}

/// The organization list built from the configured owner names: one entry
/// per distinct name, empty repositories, sorted.
pub open spec fn init_orgs(names: Seq<Seq<char>>) -> Seq<OrgModel>
    decreases names.len(),
{
    if names.len() == 0 {
        Seq::empty()
    } else {
        upsert_org_model(init_orgs(names.drop_last()), names.last(), Seq::empty())
    }
}

/// The distinct owner names in first-appearance order: the initial
/// expansion set.
pub open spec fn dedup_names(names: Seq<Seq<char>>) -> Seq<Seq<char>>
    decreases names.len(),
{
    if names.len() == 0 {
        Seq::empty()
    } else {
        let p = dedup_names(names.drop_last());
        if p.contains(names.last()) {
            p
        } else {
            p.push(names.last())
        }
    }
}

pub proof fn lemma_init_orgs_sorted(names: Seq<Seq<char>>)
    ensures
        orgs_sorted(init_orgs(names)),
    decreases names.len(),
{
    if names.len() == 0 {
    } else {
        lemma_init_orgs_sorted(names.drop_last());
        crate::orgs::lemma_upsert_sorted(
            init_orgs(names.drop_last()),
            names.last(),
            Seq::empty(),
        );
    }
}

pub proof fn lemma_dedup_names_unique(names: Seq<Seq<char>>)
    ensures
        names_unique(dedup_names(names)),
    decreases names.len(),
{
    if names.len() == 0 {
    } else {
        lemma_dedup_names_unique(names.drop_last());
        let p = dedup_names(names.drop_last());
        if !p.contains(names.last()) {
            let out = p.push(names.last());
            assert forall|i: int, j: int| 0 <= i < j < out.len() implies out[i] != out[j] by {
                if j == p.len() {
                    assert(out[i] == p[i]);
                    assert(!p.contains(names.last()));
                }
            }
        }
    }
}

/// The state a run starts from: the configured owners, all expanded, empty
/// data, loading, the cursor on the first virtual node.
pub open spec fn initial_state(login: Seq<char>, names: Seq<Seq<char>>) -> StateModel {
    let orgs = init_orgs(names);
    let expanded = dedup_names(names);
    StateModel {
        orgs,
        all_open_prs: Seq::empty(),
        inbox: Seq::empty(),
        viewer_login: login,
        rate_limit: RateLimitModel { remaining: 0, limit: 0, reset_at: None },
        last_refresh: None,
        nav_nodes: nav_tree(orgs, expanded),
        nav_cursor: 0,
        nav_expanded: expanded,
        focused_pane: FocusedPane::Navigation,
        content_view: ContentViewModel::Inbox,
        content_cursor: 0,
        search_active: false,
        search_query: Seq::empty(),
        loading: true,
        loading_orgs: Seq::empty(),
        error_message: None,
        should_quit: false,
    }
}

impl AppState {
    /// Starts from the configured owner names, every one expanded, with
    /// empty data and the loading flag raised.
    pub fn new(viewer_login: String, org_names: Vec<String>) -> (s: Self)
        ensures
            s@ == initial_state(viewer_login@, org_names@.map_values(|n: String| n@)),
            s@.wf(),
    {
        let ghost namesm = org_names@.map_values(|n: String| n@);
        let mut orgs: Vec<OrgData> = Vec::new();
        let mut nav_expanded: Vec<String> = Vec::new();
        let mut i: usize = 0;
        proof {
            assert(namesm.take(0) =~= Seq::<Seq<char>>::empty());
            assert(orgs@.map_values(|o: OrgData| o@) =~= Seq::<OrgModel>::empty());
            assert(nav_expanded@.map_values(|s: String| s@) =~= Seq::<Seq<char>>::empty());
        }
        while i < org_names.len()
            invariant
                i <= org_names.len(),
                namesm == org_names@.map_values(|n: String| n@),
                orgs@.map_values(|o: OrgData| o@) == init_orgs(namesm.take(i as int)),
                orgs_sorted(orgs@.map_values(|o: OrgData| o@)),
                nav_expanded@.map_values(|s: String| s@) == dedup_names(namesm.take(i as int)),
            decreases org_names.len() - i,
        {
            let ghost orgsm = orgs@.map_values(|o: OrgData| o@);
            let ghost expm = nav_expanded@.map_values(|s: String| s@);
            let empty_repos: Vec<crate::models::Repo> = Vec::new();
            proof {
                assert(empty_repos@.map_values(|r: crate::models::Repo| r@) =~= Seq::<
                    crate::models::RepoModel,
                >::empty());
                assert(namesm.take(i + 1).drop_last() =~= namesm.take(i as int));
                assert(namesm.take(i + 1).last() == namesm[i as int]);
            }
            upsert_org(&mut orgs, org_names[i].as_str(), empty_repos);
            if !vec_contains_str(&nav_expanded, org_names[i].as_str()) {
                nav_expanded.push(org_names[i].clone());
                proof {
                    assert(nav_expanded@.map_values(|s: String| s@) =~= expm.push(
                        namesm[i as int],
                    ));
                }
            }
            i = i + 1;
        }
        proof {
            assert(namesm.take(org_names@.len() as int) =~= namesm);
        }
        let mut s = AppState {
            orgs,
            all_open_prs: Vec::new(),
            inbox: Vec::new(),
            viewer_login,
            rate_limit: RateLimit::default(),
            last_refresh: None,
            nav_nodes: Vec::new(),
            nav_cursor: 0,
            nav_expanded,
            focused_pane: FocusedPane::Navigation,
            content_view: ContentView::Inbox,
            content_cursor: 0,
            search_active: false,
            search_query: String::new(),
            loading: true,
            loading_orgs: Vec::new(),
            error_message: None,
            should_quit: false,
        };
        s.rebuild_nav_tree();
        proof {
            lemma_dedup_names_unique(namesm);
            assert(s@ =~= initial_state(s.viewer_login@, namesm));
        }
        s
    }

    /// Re-derives the navigation tree from the organizations and expansion
    /// flags, and clamps the navigation cursor to the new length.
    pub fn rebuild_nav_tree(&mut self)
        ensures
            final(self)@ == (StateModel {
                nav_nodes: nav_tree(old(self)@.orgs, old(self)@.nav_expanded),
                nav_cursor: clamp_cursor(
                    old(self)@.nav_cursor,
                    nav_tree(old(self)@.orgs, old(self)@.nav_expanded).len() as int,
                ),
                ..old(self)@
            }),
    {
        let nodes = build_nav_tree(&self.orgs, &self.nav_expanded);
        self.nav_nodes = nodes;
        if self.nav_nodes.len() > 0 && self.nav_cursor >= self.nav_nodes.len() {
            self.nav_cursor = self.nav_nodes.len() - 1;
        }
        proof {
            assert(self@ =~= (StateModel {
                nav_nodes: nav_tree(old(self)@.orgs, old(self)@.nav_expanded),
                nav_cursor: clamp_cursor(
                    old(self)@.nav_cursor,
                    nav_tree(old(self)@.orgs, old(self)@.nav_expanded).len() as int,
                ),
                ..old(self)@
            }));
        }
    }
}

} // verus!
