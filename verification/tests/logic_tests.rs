use ghdash::actions::SideEffect;
use ghdash::globpat::{filter_repos, glob_match};
use ghdash::inbox::merge_inbox;
use ghdash::models::{PullRequest, Repo};
use ghdash::scheduler::{
    all_open_prs_key, all_open_prs_query, assigned_query, expand_refresh_all, inbox_key,
    org_repos_key, review_query, user_repos_key,
};
use ghdash::state::{AppState, ContentView};
use ghdash::actions::{Action, DataPayload};
use ghdash::input::{map_key_to_action, KeyInput};
use ghdash::models::RateLimit;
use ghdash::update::update;
use ghdash::decimal::u64_to_string;

fn pr_updated(repo_owner: &str, repo_name: &str, number: u32, updated_at: i64) -> PullRequest {
    PullRequest {
        number,
        title: format!("PR {}", number),
        author: "author".into(),
        repo_owner: repo_owner.into(),
        repo_name: repo_name.into(),
        url: format!(
            "https://github.com/{}/{}/pull/{}",
            repo_owner, repo_name, number
        ),
        created_at: updated_at - 100,
        updated_at,
        is_draft: false,
        additions: 1,
        deletions: 1,
        review_decision: None,
        labels: vec![],
    }
}

fn named_repo(owner: &str, name: &str) -> Repo {
    Repo {
        name: name.into(),
        owner: owner.into(),
        url: format!("https://github.com/{}/{}", owner, name),
        description: None,
        open_pr_count: 1,
        is_archived: false,
    }
}

// --- Refresh expansion ---

#[test]
fn test_refresh_all_expands_to_five_intents() {
    let orgs: Vec<String> = vec!["org-a".into(), "org-b".into()];
    let users: Vec<String> = vec!["alice".into()];
    let intents = expand_refresh_all(&orgs, &users);
    assert_eq!(intents.len(), 5);
    assert!(matches!(&intents[0], SideEffect::FetchOrgRepos(o) if o == "org-a"));
    assert!(matches!(&intents[1], SideEffect::FetchOrgRepos(o) if o == "org-b"));
    assert!(matches!(&intents[2], SideEffect::FetchUserRepos(u) if u == "alice"));
    assert!(matches!(&intents[3], SideEffect::FetchInbox));
    assert!(matches!(&intents[4], SideEffect::FetchAllOpenPrs));
}

#[test]
fn test_refresh_all_with_no_owners() {
    let none: Vec<String> = vec![];
    let intents = expand_refresh_all(&none, &none);
    assert_eq!(intents.len(), 2);
    assert!(matches!(&intents[0], SideEffect::FetchInbox));
    assert!(matches!(&intents[1], SideEffect::FetchAllOpenPrs));
}

// --- Cache keys and queries ---

#[test]
fn test_cache_keys() {
    assert_eq!(org_repos_key("acme"), "org_repos_acme");
    assert_eq!(user_repos_key("alice"), "user_repos_alice");
    assert_eq!(inbox_key("alice"), "inbox_alice");
    assert_eq!(all_open_prs_key(), "all_open_prs");
}

#[test]
fn test_search_queries() {
    assert_eq!(
        review_query("alice"),
        "is:open is:pr review-requested:alice archived:false"
    );
    assert_eq!(
        assigned_query("alice"),
        "is:open is:pr assignee:alice archived:false"
    );
    let orgs: Vec<String> = vec!["acme".into(), "beta".into()];
    let users: Vec<String> = vec!["alice".into()];
    assert_eq!(
        all_open_prs_query(&orgs, &users),
        "is:open is:pr archived:false org:acme org:beta user:alice"
    );
    let none: Vec<String> = vec![];
    assert_eq!(
        all_open_prs_query(&none, &users),
        "is:open is:pr archived:false user:alice"
    );
}

// --- Inbox merge ---

#[test]
fn test_inbox_dedup_first_occurrence_wins() {
    let review = vec![
        pr_updated("org", "repo", 1, 100),
        pr_updated("org", "repo", 2, 300),
    ];
    let assigned = vec![
        pr_updated("org", "repo", 1, 100),
        pr_updated("org", "repo", 3, 200),
    ];
    let merged = merge_inbox(review, assigned);
    assert_eq!(merged.len(), 3);
    // sorted by last update, newest first
    assert_eq!(merged[0].number, 2);
    assert_eq!(merged[1].number, 3);
    assert_eq!(merged[2].number, 1);
}

#[test]
fn test_inbox_same_number_different_repo_kept() {
    let review = vec![pr_updated("org", "one", 7, 50)];
    let assigned = vec![pr_updated("org", "two", 7, 60)];
    let merged = merge_inbox(review, assigned);
    assert_eq!(merged.len(), 2);
    assert_eq!(merged[0].repo_name, "two");
    assert_eq!(merged[1].repo_name, "one");
}

#[test]
fn test_inbox_sorted_descending_by_update() {
    let review = vec![
        pr_updated("o", "r", 1, 10),
        pr_updated("o", "r", 2, 30),
        pr_updated("o", "r", 3, 20),
    ];
    let merged = merge_inbox(review, vec![]);
    let stamps: Vec<i64> = merged.iter().map(|p| p.updated_at).collect();
    assert_eq!(stamps, vec![30, 20, 10]);
}

// --- Glob matching ---

#[test]
fn test_glob_exact_match_without_star() {
    assert!(glob_match("repo", "repo"));
    assert!(!glob_match("repo", "repo2"));
    assert!(!glob_match("repo", "rep"));
}

#[test]
fn test_glob_star_suffix() {
    assert!(glob_match("important-*", "important-infra"));
    assert!(glob_match("important-*", "important-"));
    assert!(!glob_match("important-*", "unimportant"));
}

#[test]
fn test_glob_star_prefix() {
    assert!(glob_match("*-archived", "tools-archived"));
    assert!(!glob_match("*-archived", "tools-archival"));
}

#[test]
fn test_glob_middle_star_requires_end_anchor() {
    assert!(glob_match("a*b", "axxb"));
    assert!(glob_match("a*b", "ab"));
    assert!(!glob_match("a*b", "axxbx"));
    // the first occurrence of the last segment is taken, so a later
    // closing `b` is not reconsidered
    assert!(!glob_match("a*b", "axbxb"));
}

#[test]
fn test_glob_star_only() {
    assert!(glob_match("*", "anything"));
    assert!(glob_match("*", ""));
}

#[test]
fn test_glob_first_segment_anchored() {
    assert!(!glob_match("ab*", "xaby"));
    assert!(glob_match("ab*", "aby"));
}

// --- Repository filtering ---

#[test]
fn test_filter_repos_include_and_exclude() {
    let repos = vec![
        named_repo("acme", "important-api"),
        named_repo("acme", "important-web"),
        named_repo("acme", "scratch"),
        named_repo("acme", "important-archived"),
    ];
    let keep_pats: Vec<String> = vec!["important-*".into()];
    let drop_pats: Vec<String> = vec!["*-archived".into()];
    let kept = filter_repos(repos, &keep_pats, &drop_pats);
    let names: Vec<String> = kept.iter().map(|r| r.name.clone()).collect();
    assert_eq!(names, vec!["important-api", "important-web"]);
}

#[test]
fn test_filter_repos_matches_qualified_name() {
    let repos = vec![named_repo("acme", "api"), named_repo("beta", "api")];
    let keep_pats: Vec<String> = vec!["acme/*".into()];
    let drop_pats: Vec<String> = vec![];
    let kept = filter_repos(repos, &keep_pats, &drop_pats);
    assert_eq!(kept.len(), 1);
    assert_eq!(kept[0].owner, "acme");
}

#[test]
fn test_filter_repos_no_patterns_keeps_all() {
    let repos = vec![named_repo("acme", "one"), named_repo("acme", "two")];
    let none: Vec<String> = vec![];
    let kept = filter_repos(repos, &none, &none);
    assert_eq!(kept.len(), 2);
}

// --- Search is case-insensitive on both sides ---

#[test]
fn test_search_lowercases_query_and_fields() {
    let mut state = AppState::new("me".into(), vec![]);
    state.content_view = ContentView::Inbox;
    let mut pr = pr_updated("org", "repo", 1, 10);
    pr.title = "Fix LOGIN Bug".into();
    state.inbox = vec![pr];
    state.search_active = true;
    state.search_query = "Login".into();
    let filtered = state.current_pr_list();
    assert_eq!(filtered.len(), 1);
    state.search_query = "nothing-here".into();
    assert_eq!(state.current_pr_list().len(), 0);
}

#[test]
fn test_search_matches_author_and_repo_names() {
    let mut state = AppState::new("me".into(), vec![]);
    state.content_view = ContentView::Inbox;
    let mut by_author = pr_updated("org", "repo", 1, 10);
    by_author.author = "Carol".into();
    by_author.title = "untitled".into();
    let mut by_repo = pr_updated("org", "dashboard", 2, 20);
    by_repo.title = "untitled".into();
    state.inbox = vec![by_author, by_repo];
    state.search_active = true;
    state.search_query = "carol".into();
    assert_eq!(state.current_pr_list().len(), 1);
    state.search_query = "dash".into();
    assert_eq!(state.current_pr_list().len(), 1);
    state.search_query = "org/".into();
    assert_eq!(state.current_pr_list().len(), 2);
}

// --- Repo pull-request list view ---

#[test]
fn test_repo_pr_list_filters_by_repo() {
    let mut state = AppState::new("me".into(), vec!["org".into()]);
    state.all_open_prs = vec![
        pr_updated("org", "one", 1, 10),
        pr_updated("org", "two", 2, 20),
        pr_updated("org", "one", 3, 30),
    ];
    state.content_view = ContentView::RepoPrList {
        owner: "org".into(),
        name: "one".into(),
    };
    let list = state.current_pr_list();
    assert_eq!(list.len(), 2);
    assert!(list.iter().all(|p| p.repo_name == "one"));
}

// --- Key translation ---

#[test]
fn test_key_map_normal_mode() {
    let state = AppState::new("me".into(), vec![]);
    assert!(matches!(
        map_key_to_action(KeyInput::Char('q'), false, &state),
        Some(Action::Quit)
    ));
    assert!(matches!(
        map_key_to_action(KeyInput::Char('c'), true, &state),
        Some(Action::Quit)
    ));
    assert!(matches!(
        map_key_to_action(KeyInput::Char('c'), false, &state),
        None
    ));
    assert!(matches!(
        map_key_to_action(KeyInput::Char('j'), false, &state),
        Some(Action::MoveDown)
    ));
    assert!(matches!(
        map_key_to_action(KeyInput::Tab, false, &state),
        Some(Action::SwitchPane)
    ));
    assert!(matches!(
        map_key_to_action(KeyInput::Char('/'), false, &state),
        Some(Action::ToggleSearch)
    ));
}

#[test]
fn test_key_map_error_modal_swallows_input() {
    let mut state = AppState::new("me".into(), vec![]);
    state.error_message = Some("boom".into());
    assert!(matches!(
        map_key_to_action(KeyInput::Esc, false, &state),
        Some(Action::DismissError)
    ));
    assert!(matches!(
        map_key_to_action(KeyInput::Char('q'), false, &state),
        None
    ));
}

#[test]
fn test_key_map_search_mode() {
    let mut state = AppState::new("me".into(), vec![]);
    state.search_active = true;
    assert!(matches!(
        map_key_to_action(KeyInput::Char('x'), false, &state),
        Some(Action::SearchInput('x'))
    ));
    assert!(matches!(
        map_key_to_action(KeyInput::Backspace, false, &state),
        Some(Action::SearchBackspace)
    ));
    assert!(matches!(
        map_key_to_action(KeyInput::Enter, false, &state),
        Some(Action::ToggleSearch)
    ));
    assert!(matches!(
        map_key_to_action(KeyInput::Esc, false, &state),
        Some(Action::ToggleSearch)
    ));
    assert!(matches!(
        map_key_to_action(KeyInput::Up, false, &state),
        None
    ));
}

// --- Decimal rendering ---

#[test]
fn test_decimal_rendering() {
    assert_eq!(u64_to_string(0), "0");
    assert_eq!(u64_to_string(7), "7");
    assert_eq!(u64_to_string(10), "10");
    assert_eq!(u64_to_string(1700000000), "1700000000");
    assert_eq!(u64_to_string(u64::MAX), "18446744073709551615");
}

// --- Sorted organization upserts ---

#[test]
fn test_orgs_stay_sorted_and_unique() {
    let mut state = AppState::new("me".into(), vec!["zeta".into(), "alpha".into(), "zeta".into()]);
    let names: Vec<String> = state.orgs.iter().map(|o| o.name.clone()).collect();
    assert_eq!(names, vec!["alpha", "zeta"]);
    update(
        &mut state,
        Action::DataLoaded(DataPayload::OrgRepos {
            org: "mid".into(),
            repos: vec![named_repo("mid", "r")],
            rate_limit: RateLimit::default(),
        }),
    );
    let names: Vec<String> = state.orgs.iter().map(|o| o.name.clone()).collect();
    assert_eq!(names, vec!["alpha", "mid", "zeta"]);
}

// --- Content pane edge cases ---

#[test]
fn test_org_overview_shows_no_prs() {
    let mut state = AppState::new("me".into(), vec!["org".into()]);
    state.all_open_prs = vec![pr_updated("org", "one", 1, 10)];
    state.content_view = ContentView::OrgOverview("org".into());
    assert_eq!(state.current_pr_list().len(), 0);
    assert!(state.selected_pr_url().is_none());
}

#[test]
fn test_selected_pr_url_out_of_range() {
    let mut state = AppState::new("me".into(), vec![]);
    state.content_view = ContentView::Inbox;
    state.inbox = vec![pr_updated("org", "repo", 9, 10)];
    state.content_cursor = 5;
    assert!(state.selected_pr_url().is_none());
    state.content_cursor = 0;
    assert_eq!(
        state.selected_pr_url(),
        Some("https://github.com/org/repo/pull/9".to_string())
    );
}
