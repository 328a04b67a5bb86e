//! The reducer: one event in, the state mutated in place, intents out. The
//! whole transition is pinned by a specification-level step function, so the
//! reducer is deterministic by construction for a fixed clock reading.

use crate::actions::{Action, ActionModel, DataPayload, IntentModel, PayloadModel, SideEffect};
use crate::models::{RateLimitModel, RepoModel};
use crate::navtree::nav_tree;
use crate::orgs::upsert_org_model;
use crate::queries::{spec_current_prs, spec_selected_nav_url, spec_selected_pr_url};
use crate::navtree::NavNodeModel;
use crate::state::{
    clamp_cursor, names_unique, remove_first, AppState, ContentView, ContentViewModel,
    FocusedPane, StateModel,
};
use vstd::prelude::*;

verus! {

/// The other pane.
pub open spec fn other_pane(p: FocusedPane) -> FocusedPane {
    match p {
        FocusedPane::Navigation => FocusedPane::Content,
        FocusedPane::Content => FocusedPane::Navigation,
    }
}

/// Moving up decrements the focused pane's cursor, stopping at zero.
pub open spec fn spec_move_up(s: StateModel) -> StateModel {
    match s.focused_pane {
        FocusedPane::Navigation => if s.nav_cursor > 0 {
            StateModel { nav_cursor: s.nav_cursor - 1, ..s }
        } else {
            s
        },
        FocusedPane::Content => if s.content_cursor > 0 {
            StateModel { content_cursor: s.content_cursor - 1, ..s }
        } else {
            s
        },
    }
}

/// Moving down increments the focused pane's cursor, stopping at the last
/// entry of the tree or of the current pull-request list.
pub open spec fn spec_move_down(s: StateModel) -> StateModel {
    match s.focused_pane {
        FocusedPane::Navigation => if s.nav_cursor + 1 < s.nav_nodes.len() {
            StateModel { nav_cursor: s.nav_cursor + 1, ..s }
        } else {
            s
        },
        FocusedPane::Content => {
            let len = spec_current_prs(s).len() as int;
            let max = if len == 0 {
                0
            } else {
                len - 1
            };
            if s.content_cursor < max {
                StateModel { content_cursor: s.content_cursor + 1, ..s }
            } else {
                s
            }
        },
    }
}

/// Toggling an organization's membership in the expansion set.
pub open spec fn toggle_expanded(expanded: Seq<Seq<char>>, org: Seq<char>) -> Seq<Seq<char>> {
    if expanded.contains(org) {
        remove_first(expanded, org)
    } else {
        expanded.push(org)
    }
}

/// Selecting an organization node: toggle its expansion, show its
/// overview, reset the content cursor, and rebuild the tree.
pub open spec fn spec_select_org(s: StateModel, org: Seq<char>) -> StateModel {
    let expanded = toggle_expanded(s.nav_expanded, org);
    let tree = nav_tree(s.orgs, expanded);
    StateModel {
        nav_expanded: expanded,
        content_view: ContentViewModel::OrgOverview(org),
        content_cursor: 0,
        nav_nodes: tree,
        nav_cursor: clamp_cursor(s.nav_cursor, tree.len() as int),
        ..s
    }
}

/// Selecting in the navigation pane switches the content view; selecting
/// in the content pane opens the highlighted pull request.
pub open spec fn spec_select(s: StateModel) -> (StateModel, Seq<IntentModel>) {
    if s.focused_pane == FocusedPane::Navigation {
        if 0 <= s.nav_cursor < s.nav_nodes.len() {
            match s.nav_nodes[s.nav_cursor] {
                NavNodeModel::Org(org) => (spec_select_org(s, org), Seq::empty()),
                NavNodeModel::Repo { owner, name, .. } => (
                    StateModel {
                        content_view: ContentViewModel::RepoPrList { owner, name },
                        content_cursor: 0,
                        ..s
                    },
                    Seq::empty(),
                ),
                NavNodeModel::AllPrs => (
                    StateModel { content_view: ContentViewModel::AllOpenPrs, content_cursor: 0, ..s },
                    Seq::empty(),
                ),
                NavNodeModel::MyInbox => (
                    StateModel { content_view: ContentViewModel::Inbox, content_cursor: 0, ..s },
                    Seq::empty(),
                ),
            }
        } else {
            (s, Seq::empty())
        }
    } else {
        match spec_selected_pr_url(s) {
            Some(url) => (s, seq![IntentModel::OpenUrl(url)]),
            None => (s, Seq::empty()),
        }
    }
}

/// Back closes the search, else dismisses an error, else returns focus to
/// the navigation pane.
pub open spec fn spec_back(s: StateModel) -> StateModel {
    if s.search_active {
        StateModel { search_active: false, search_query: Seq::empty(), ..s }
    } else if s.error_message is Some {
        StateModel { error_message: None, ..s }
    } else if s.focused_pane == FocusedPane::Content {
        StateModel { focused_pane: FocusedPane::Navigation, ..s }
    } else {
        s
    }
}

/// Opening in the browser resolves a URL from whichever pane is focused.
pub open spec fn spec_open_in_browser(s: StateModel) -> (StateModel, Seq<IntentModel>) {
    let url = match s.focused_pane {
        FocusedPane::Content => spec_selected_pr_url(s),
        FocusedPane::Navigation => spec_selected_nav_url(s),
    };
    match url {
        Some(u) => (s, seq![IntentModel::OpenUrl(u)]),
        None => (s, Seq::empty()),
    }
}

/// When no owner fetch is outstanding any more, loading ends and the
/// refresh is stamped with the clock reading.
pub open spec fn finish_loading(s: StateModel, now: i64) -> StateModel {
    if s.loading_orgs.len() == 0 {
        StateModel { loading: false, last_refresh: Some(now), ..s }
    } else {
        s
    }
}

/// A finished owner fetch: the owner leaves the loading set, its
/// repository list is replaced wholesale, and the tree is rebuilt.
pub open spec fn spec_load_org_repos(
    s: StateModel,
    org: Seq<char>,
    repos: Seq<RepoModel>,
    rl: RateLimitModel,
) -> StateModel {
    let orgs2 = upsert_org_model(s.orgs, org, repos);
    let tree = nav_tree(orgs2, s.nav_expanded);
    StateModel {
        loading_orgs: remove_first(s.loading_orgs, org),
        rate_limit: rl,
        orgs: orgs2,
        nav_nodes: tree,
        nav_cursor: clamp_cursor(s.nav_cursor, tree.len() as int),
        ..s
    }
}

/// A completed background fetch applied to the state. A wholesale list
/// replacement clamps the content cursor to the new visible list, so the
/// cursor stays in bounds however the list shrank.
pub open spec fn spec_data_loaded(s: StateModel, p: PayloadModel, now: i64) -> StateModel {
    match p {
        PayloadModel::OrgRepos { org, repos, rate_limit } => finish_loading(
            spec_load_org_repos(s, org, repos, rate_limit),
            now,
        ),
        PayloadModel::InboxPrs { prs, rate_limit } => {
            let mid = StateModel { rate_limit, inbox: prs, ..s };
            finish_loading(
                StateModel {
                    content_cursor: clamp_cursor(
                        mid.content_cursor,
                        spec_current_prs(mid).len() as int,
                    ),
                    ..mid
                },
                now,
            )
        },
        PayloadModel::AllOpenPrs { prs, rate_limit } => {
            let mid = StateModel { rate_limit, all_open_prs: prs, ..s };
            finish_loading(
                StateModel {
                    content_cursor: clamp_cursor(
                        mid.content_cursor,
                        spec_current_prs(mid).len() as int,
                    ),
                    ..mid
                },
                now,
            )
        },
    }
}

/// The whole reducer, as a mathematical function of the state, the event
/// and the clock reading: the new state and the emitted intents.
pub open spec fn step(s: StateModel, a: ActionModel, now: i64) -> (StateModel, Seq<IntentModel>) {
    match a {
        ActionModel::Quit => (StateModel { should_quit: true, ..s }, Seq::empty()),
        ActionModel::MoveUp => (spec_move_up(s), Seq::empty()),
        ActionModel::MoveDown => (spec_move_down(s), Seq::empty()),
        ActionModel::Select => spec_select(s),
        ActionModel::Back => (spec_back(s), Seq::empty()),
        ActionModel::SwitchPane => (
            StateModel { focused_pane: other_pane(s.focused_pane), ..s },
            Seq::empty(),
        ),
        ActionModel::Refresh => (
            StateModel { loading: true, error_message: None, ..s },
            seq![IntentModel::RefreshAll],
        ),
        ActionModel::OpenInBrowser => spec_open_in_browser(s),
        ActionModel::ToggleSearch => (
            StateModel { search_active: !s.search_active, search_query: Seq::empty(), ..s },
            Seq::empty(),
        ),
        ActionModel::SearchInput(c) => (
            if s.search_active {
                StateModel { search_query: s.search_query.push(c), content_cursor: 0, ..s }
            } else {
                s
            },
            Seq::empty(),
        ),
        ActionModel::SearchBackspace => (
            if s.search_active {
                StateModel {
                    search_query: if s.search_query.len() > 0 {
                        s.search_query.drop_last()
                    } else {
                        s.search_query
                    },
                    content_cursor: 0,
                    ..s
                }
            } else {
                s
            },
            Seq::empty(),
        ),
        ActionModel::SearchClear => (
            StateModel { search_query: Seq::empty(), content_cursor: 0, ..s },
            Seq::empty(),
        ),
        ActionModel::DataLoaded(p) => (spec_data_loaded(s, p, now), Seq::empty()),
        ActionModel::LoadError(msg) => (
            StateModel {
                loading: false,
                loading_orgs: Seq::empty(),
                error_message: Some(msg),
                ..s
            },
            Seq::empty(),
        ),
        ActionModel::DismissError => (StateModel { error_message: None, ..s }, Seq::empty()),
        ActionModel::Tick => (s, Seq::empty()),
    }
}

/// The content cursor is in bounds whenever the current list is not empty.
pub open spec fn content_cursor_ok(s: StateModel) -> bool {
    spec_current_prs(s).len() > 0 ==> 0 <= s.content_cursor < spec_current_prs(s).len()
}

/// The events after which the content-cursor bound is re-established:
/// movement, selection, and every completed load. Owner-repository loads
/// leave the pull-request lists as they were; wholesale list replacements
/// clamp the cursor to the new list.
pub open spec fn keeps_content_bound(a: ActionModel) -> bool {
    ||| a is MoveUp
    ||| a is MoveDown
    ||| a is Select
    ||| a is DataLoaded
}



/// Two states showing the same view, query and lists show the same
/// pull-request list.
proof fn lemma_current_prs_same(s1: StateModel, s2: StateModel)
    requires
        s1.content_view == s2.content_view,
        s1.search_query == s2.search_query,
        s1.inbox == s2.inbox,
        s1.all_open_prs == s2.all_open_prs,
    ensures
        spec_current_prs(s1) == spec_current_prs(s2),
{
    match s1.content_view {
        ContentViewModel::Inbox => {},
        ContentViewModel::AllOpenPrs => {},
        ContentViewModel::RepoPrList { owner, name } => {
            assert(spec_current_prs(s1) == spec_current_prs(s2));
        },
        ContentViewModel::OrgOverview(_) => {},
    }
}

/// Toggling keeps the expansion set free of duplicates.
proof fn lemma_toggle_unique(expanded: Seq<Seq<char>>, org: Seq<char>)
    requires
        names_unique(expanded),
    ensures
        names_unique(toggle_expanded(expanded, org)),
{
    if expanded.contains(org) {
        crate::state::lemma_remove_first_unique(expanded, org);
    } else {
        let out = expanded.push(org);
        assert forall|i: int, j: int| 0 <= i < j < out.len() implies out[i] != out[j] by {
            if j == expanded.len() {
                assert(out[i] == expanded[i]);
            }
        }
    }
}

fn do_move_up(state: &mut AppState)
    requires
        old(state)@.wf(),
    ensures
        final(state)@ == spec_move_up(old(state)@),
        final(state)@.wf(),
        content_cursor_ok(old(state)@) ==> content_cursor_ok(final(state)@),
{
    match state.focused_pane {
        FocusedPane::Navigation => {
            if state.nav_cursor > 0 {
                state.nav_cursor = state.nav_cursor - 1;
            }
        },
        FocusedPane::Content => {
            if state.content_cursor > 0 {
                state.content_cursor = state.content_cursor - 1;
            }
        },
    }
    proof {
        assert(state@ =~= spec_move_up(old(state)@));
        lemma_current_prs_same(state@, old(state)@);
    }
}

fn do_move_down(state: &mut AppState)
    requires
        old(state)@.wf(),
    ensures
        final(state)@ == spec_move_down(old(state)@),
        final(state)@.wf(),
        content_cursor_ok(old(state)@) ==> content_cursor_ok(final(state)@),
{
    match state.focused_pane {
        FocusedPane::Navigation => {
            let len = state.nav_nodes.len();
            proof {
                assert(state.nav_cursor < len);
            }
            if state.nav_cursor + 1 < len {
                state.nav_cursor = state.nav_cursor + 1;
            }
        },
        FocusedPane::Content => {
            let len = state.current_pr_list().len();
            let max = if len == 0 {
                0
            } else {
                len - 1
            };
            if state.content_cursor < max {
                state.content_cursor = state.content_cursor + 1;
            }
        },
    }
    proof {
        assert(state@ =~= spec_move_down(old(state)@));
        lemma_current_prs_same(state@, old(state)@);
    }
}

fn do_select(state: &mut AppState) -> (effects: Vec<SideEffect>)
    requires
        old(state)@.wf(),
    ensures
        final(state)@ == spec_select(old(state)@).0,
        effects@.map_values(|e: SideEffect| e@) == spec_select(old(state)@).1,
        final(state)@.wf(),
        content_cursor_ok(old(state)@) ==> content_cursor_ok(final(state)@),
{
    if state.focused_pane == FocusedPane::Navigation {
        if state.nav_cursor < state.nav_nodes.len() {
            proof {
                assert(state.nav_nodes@.map_values(|n: crate::navtree::NavNode| n@)[
                    state.nav_cursor as int] == state.nav_nodes@[state.nav_cursor as int]@);
            }
            let node = state.nav_nodes[state.nav_cursor].clone();
            match node {
                crate::navtree::NavNode::Org(org) => {
                    let ghost orgm = org@;
                    let ghost expm = state.nav_expanded@.map_values(|s: String| s@);
                    match crate::strutil::vec_find_str(&state.nav_expanded, org.as_str()) {
                        Some(i) => {
                            proof {
                                assert(expm[i as int] == orgm);
                                assert(expm.contains(orgm));
                                assert forall|k: int| 0 <= k < i implies expm[k] != orgm by {
                                    assert(expm[k] == old(state).nav_expanded@[k]@);
                                }
                            }
                            let _removed = state.nav_expanded.remove(i);
                            proof {
                                crate::state::lemma_remove_first_at(expm, orgm, i as int);
                                assert(state.nav_expanded@.map_values(|s: String| s@) =~= expm.remove(
                                    i as int,
                                ));
                                assert(state.nav_expanded@.map_values(|s: String| s@)
                                    == toggle_expanded(expm, orgm));
                            }
                        },
                        None => {
                            proof {
                                assert(!expm.contains(orgm)) by {
                                    if expm.contains(orgm) {
                                        let w = choose|w: int|
                                            0 <= w < expm.len() && expm[w] == orgm;
                                        assert(state.nav_expanded@[w]@ == orgm);
                                    }
                                }
                            }
                            state.nav_expanded.push(org.clone());
                            proof {
                                assert(state.nav_expanded@.map_values(|s: String| s@) =~= expm.push(
                                    orgm,
                                ));
                                assert(state.nav_expanded@.map_values(|s: String| s@)
                                    == toggle_expanded(expm, orgm));
                            }
                        },
                    }
                    state.content_view = ContentView::OrgOverview(org);
                    state.content_cursor = 0;
                    state.rebuild_nav_tree();
                    proof {
                        lemma_toggle_unique(old(state)@.nav_expanded, orgm);
                        assert(state@ =~= spec_select_org(old(state)@, orgm));
                        assert(spec_current_prs(state@) =~= Seq::<crate::models::PrModel>::empty());
                    }
                },
                crate::navtree::NavNode::Repo { owner, name, open_prs: _ } => {
                    state.content_view = ContentView::RepoPrList { owner, name };
                    state.content_cursor = 0;
                    proof {
                        assert(state@ =~= spec_select(old(state)@).0);
                    }
                },
                crate::navtree::NavNode::AllPrs => {
                    state.content_view = ContentView::AllOpenPrs;
                    state.content_cursor = 0;
                    proof {
                        assert(state@ =~= spec_select(old(state)@).0);
                    }
                },
                crate::navtree::NavNode::MyInbox => {
                    state.content_view = ContentView::Inbox;
                    state.content_cursor = 0;
                    proof {
                        assert(state@ =~= spec_select(old(state)@).0);
                    }
                },
            }
        }
        Vec::new()
    } else {
        match state.selected_pr_url() {
            Some(url) => {
                let mut v: Vec<SideEffect> = Vec::new();
                v.push(SideEffect::OpenUrl(url));
                proof {
                    assert(v@.map_values(|e: SideEffect| e@) =~= spec_select(old(state)@).1);
                }
                v
            },
            None => Vec::new(),
        }
    }
}

fn do_data_loaded(state: &mut AppState, payload: DataPayload, now: i64)
    requires
        old(state)@.wf(),
    ensures
        final(state)@ == spec_data_loaded(old(state)@, payload@, now),
        final(state)@.wf(),
        content_cursor_ok(old(state)@) ==> content_cursor_ok(final(state)@),
{
    match payload {
        DataPayload::OrgRepos { org, repos, rate_limit } => {
            let ghost orgm = org@;
            let ghost reposm = repos@.map_values(|r: crate::models::Repo| r@);
            let ghost lom = state.loading_orgs@.map_values(|s: String| s@);
            match crate::strutil::vec_find_str(&state.loading_orgs, org.as_str()) {
                Some(i) => {
                    proof {
                        assert(lom[i as int] == orgm);
                        assert forall|k: int| 0 <= k < i implies lom[k] != orgm by {
                            assert(lom[k] == old(state).loading_orgs@[k]@);
                        }
                    }
                    let _removed = state.loading_orgs.remove(i);
                    proof {
                        crate::state::lemma_remove_first_at(lom, orgm, i as int);
                        assert(state.loading_orgs@.map_values(|s: String| s@) =~= lom.remove(
                            i as int,
                        ));
                        assert(state.loading_orgs@.map_values(|s: String| s@) == remove_first(
                            lom,
                            orgm,
                        ));
                    }
                },
                None => {
                    proof {
                        assert(!lom.contains(orgm)) by {
                            if lom.contains(orgm) {
                                let w = choose|w: int| 0 <= w < lom.len() && lom[w] == orgm;
                                assert(state.loading_orgs@[w]@ == orgm);
                            }
                        }
                        crate::state::lemma_remove_first_absent(lom, orgm);
                        assert(state.loading_orgs@.map_values(|s: String| s@) =~= lom);
                        assert(state.loading_orgs@.map_values(|s: String| s@) == remove_first(
                            lom,
                            orgm,
                        ));
                    }
                },
            }
            state.rate_limit = rate_limit;
            crate::orgs::upsert_org(&mut state.orgs, org.as_str(), repos);
            state.rebuild_nav_tree();
            if state.loading_orgs.len() == 0 {
                state.loading = false;
                state.last_refresh = Some(now);
            }
            proof {
                crate::state::lemma_remove_first_unique(lom, orgm);
                assert(state@ =~= spec_data_loaded(old(state)@, payload@, now));
                lemma_current_prs_same(state@, old(state)@);
            }
        },
        DataPayload::InboxPrs { prs, rate_limit } => {
            state.rate_limit = rate_limit;
            state.inbox = prs;
            let len = state.current_pr_list().len();
            let ghost midm = state@;
            if len > 0 && state.content_cursor >= len {
                state.content_cursor = len - 1;
            }
            proof {
                assert(state@ =~= (StateModel {
                    content_cursor: clamp_cursor(
                        midm.content_cursor,
                        spec_current_prs(midm).len() as int,
                    ),
                    ..midm
                }));
            }
            if state.loading_orgs.len() == 0 {
                state.loading = false;
                state.last_refresh = Some(now);
            }
            proof {
                assert(state@ =~= spec_data_loaded(old(state)@, payload@, now));
                lemma_current_prs_same(state@, midm);
            }
        },
        DataPayload::AllOpenPrs { prs, rate_limit } => {
            state.rate_limit = rate_limit;
            state.all_open_prs = prs;
            let len = state.current_pr_list().len();
            let ghost midm = state@;
            if len > 0 && state.content_cursor >= len {
                state.content_cursor = len - 1;
            }
            proof {
                assert(state@ =~= (StateModel {
                    content_cursor: clamp_cursor(
                        midm.content_cursor,
                        spec_current_prs(midm).len() as int,
                    ),
                    ..midm
                }));
            }
            if state.loading_orgs.len() == 0 {
                state.loading = false;
                state.last_refresh = Some(now);
            }
            proof {
                assert(state@ =~= spec_data_loaded(old(state)@, payload@, now));
                lemma_current_prs_same(state@, midm);
            }
        },
    }
}

/// Applies one event to the state, at the given clock reading, and returns
/// the intents to dispatch. The transition equals the specification-level
/// [`step`] exactly, so the reducer is deterministic and has no effect
/// beyond the state and the returned intents.
pub fn update_at(state: &mut AppState, action: Action, now: i64) -> (effects: Vec<SideEffect>)
    requires
        old(state)@.wf(),
    ensures
        final(state)@.wf(),
        final(state)@ == step(old(state)@, action@, now).0,
        effects@.map_values(|e: SideEffect| e@) == step(old(state)@, action@, now).1,
        content_cursor_ok(old(state)@) && keeps_content_bound(action@) ==> content_cursor_ok(
            final(state)@,
        ),
{
    let ghost am = action@;
    let effects: Vec<SideEffect> = match action {
        Action::Quit => {
            state.should_quit = true;
            proof {
                assert(state@ =~= (StateModel { should_quit: true, ..old(state)@ }));
            }
            Vec::new()
        },
        Action::MoveUp => {
            do_move_up(state);
            Vec::new()
        },
        Action::MoveDown => {
            do_move_down(state);
            Vec::new()
        },
        Action::Select => do_select(state),
        Action::Back => {
            if state.search_active {
                state.search_active = false;
                state.search_query = String::new();
            } else if state.error_message.is_some() {
                state.error_message = None;
            } else if state.focused_pane == FocusedPane::Content {
                state.focused_pane = FocusedPane::Navigation;
            }
            proof {
                assert(state@ =~= spec_back(old(state)@));
            }
            Vec::new()
        },
        Action::SwitchPane => {
            state.focused_pane = match state.focused_pane {
                FocusedPane::Navigation => FocusedPane::Content,
                FocusedPane::Content => FocusedPane::Navigation,
            };
            proof {
                assert(state@ =~= (StateModel {
                    focused_pane: other_pane(old(state)@.focused_pane),
                    ..old(state)@
                }));
            }
            Vec::new()
        },
        Action::Refresh => {
            state.loading = true;
            state.error_message = None;
            let mut v: Vec<SideEffect> = Vec::new();
            v.push(SideEffect::RefreshAll);
            proof {
                assert(state@ =~= (StateModel {
                    loading: true,
                    error_message: None,
                    ..old(state)@
                }));
                assert(v@.map_values(|e: SideEffect| e@) =~= seq![IntentModel::RefreshAll]);
            }
            v
        },
        Action::OpenInBrowser => {
            let url = match state.focused_pane {
                FocusedPane::Content => state.selected_pr_url(),
                FocusedPane::Navigation => state.selected_nav_url(),
            };
            match url {
                Some(u) => {
                    let mut v: Vec<SideEffect> = Vec::new();
                    v.push(SideEffect::OpenUrl(u));
                    proof {
                        assert(v@.map_values(|e: SideEffect| e@) =~= spec_open_in_browser(
                            old(state)@,
                        ).1);
                    }
                    v
                },
                None => Vec::new(),
            }
        },
        Action::ToggleSearch => {
            state.search_active = !state.search_active;
            state.search_query = String::new();
            proof {
                assert(state@ =~= (StateModel {
                    search_active: !old(state)@.search_active,
                    search_query: Seq::empty(),
                    ..old(state)@
                }));
            }
            Vec::new()
        },
        Action::SearchInput(ch) => {
            if state.search_active {
                state.search_query.push(ch);
                state.content_cursor = 0;
                proof {
                    assert(state@ =~= (StateModel {
                        search_query: old(state)@.search_query.push(ch),
                        content_cursor: 0,
                        ..old(state)@
                    }));
                }
            }
            Vec::new()
        },
        Action::SearchBackspace => {
            if state.search_active {
                let _popped = state.search_query.pop();
                state.content_cursor = 0;
                proof {
                    assert(state@ =~= step(old(state)@, am, now).0);
                }
            }
            Vec::new()
        },
        Action::SearchClear => {
            state.search_query = String::new();
            state.content_cursor = 0;
            proof {
                assert(state@ =~= (StateModel {
                    search_query: Seq::empty(),
                    content_cursor: 0,
                    ..old(state)@
                }));
            }
            Vec::new()
        },
        Action::DataLoaded(payload) => {
            do_data_loaded(state, payload, now);
            Vec::new()
        },
        Action::LoadError(msg) => {
            state.loading = false;
            state.loading_orgs = Vec::new();
            state.error_message = Some(msg);
            proof {
                assert(state.loading_orgs@.map_values(|s: String| s@) =~= Seq::<
                    Seq<char>,
                >::empty());
                assert(state@ =~= step(old(state)@, am, now).0);
            }
            Vec::new()
        },
        Action::DismissError => {
            state.error_message = None;
            proof {
                assert(state@ =~= (StateModel { error_message: None, ..old(state)@ }));
            }
            Vec::new()
        },
        Action::Tick => Vec::new(),
    };
    proof {
        assert(effects@.map_values(|e: SideEffect| e@).len() == 0 ==> effects@.map_values(
            |e: SideEffect| e@,
        ) =~= Seq::<IntentModel>::empty());
    }
    effects
}

/// Applies one event to the state, reading the wall clock for the refresh
/// stamp, and returns the intents to dispatch. Apart from the clock
/// reading, the transition is the specification-level [`step`].
pub fn update(state: &mut AppState, action: Action) -> (effects: Vec<SideEffect>)
    requires
        old(state)@.wf(),
    ensures
        final(state)@.wf(),
        exists|now: i64|
            final(state)@ == #[trigger] step(old(state)@, action@, now).0 && effects@.map_values(
                |e: SideEffect| e@,
            ) == step(old(state)@, action@, now).1,
        content_cursor_ok(old(state)@) && keeps_content_bound(action@) ==> content_cursor_ok(
            final(state)@,
        ),
{
    let now = crate::clock::now_epoch_seconds();
    update_at(state, action, now)
}

} // verus!
