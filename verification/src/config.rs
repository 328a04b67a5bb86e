//! The immutable configuration snapshot supplied at startup: owners to
//! watch, repository filters, refresh cadence, cache time-to-live and pane
//! sizing, with the documented defaults.

use crate::strutil::str_eq;
use vstd::prelude::*;

verus! {

/// Remote-side settings: the owners to watch, the repository filters and
/// the API endpoint.
#[derive(Debug, Clone)]
pub struct GithubConfig {
    pub orgs: Vec<String>,
    pub users: Vec<String>,
    pub include_repos: Vec<String>,
    pub exclude_repos: Vec<String>,
    pub api_url: String,
}

/// Dashboard behaviour: refresh cadence and draft visibility.
#[derive(Debug, Clone)]
pub struct DashboardConfig {
    pub refresh_interval_secs: u64,
    pub show_draft_prs: bool,
}

/// Cache behaviour: time-to-live and an optional directory override.
#[derive(Debug, Clone)]
pub struct CacheConfig {
    pub ttl_secs: u64,
    pub dir: Option<String>,
}

/// Pane sizing.
#[derive(Debug, Clone)]
pub struct UiConfig {
    pub nav_width_percent: u16,
}

/// The whole configuration snapshot.
#[derive(Debug, Clone)]
pub struct AppConfig {
    pub github: GithubConfig,
    pub dashboard: DashboardConfig,
    pub cache: CacheConfig,
    pub ui: UiConfig,
}

/// The default API endpoint.
pub fn default_api_url() -> (r: String)
    ensures
        r@ == "https://api.github.com/graphql"@,
{
    let mut s = String::new();
    s.append("https://api.github.com/graphql");
    s
}

/// The default refresh interval, in seconds.
pub fn default_refresh_interval() -> (r: u64)
    ensures
        r == 300,
{
    300
}

/// The default for flags that start raised.
pub fn default_true() -> (r: bool)
    ensures
        r,
{
    true
}

/// The default cache time-to-live, in seconds.
pub fn default_cache_ttl() -> (r: u64)
    ensures
        r == 600,
{
    600
}

/// The default navigation-pane width, in percent.
pub fn default_nav_width() -> (r: u16)
    ensures
        r == 30,
{
    30
}

impl Default for GithubConfig {
    fn default() -> (r: Self)
        ensures
            r.orgs@.len() == 0,
            r.users@.len() == 0,
            r.include_repos@.len() == 0,
            r.exclude_repos@.len() == 0,
            r.api_url@ == "https://api.github.com/graphql"@,
    {
        GithubConfig {
            orgs: Vec::new(),
            users: Vec::new(),
            include_repos: Vec::new(),
            exclude_repos: Vec::new(),
            api_url: default_api_url(),
        }
    }
}

impl Default for DashboardConfig {
    fn default() -> (r: Self)
        ensures
            r.refresh_interval_secs == 300,
            r.show_draft_prs,
    {
        DashboardConfig { refresh_interval_secs: default_refresh_interval(), show_draft_prs: true }
    }
}

impl Default for CacheConfig {
    fn default() -> (r: Self)
        ensures
            r.ttl_secs == 600,
            r.dir is None,
    {
        CacheConfig { ttl_secs: default_cache_ttl(), dir: None }
    }
}

impl Default for UiConfig {
    fn default() -> (r: Self)
        ensures
            r.nav_width_percent == 30,
    {
        UiConfig { nav_width_percent: default_nav_width() }
    }
}

impl Default for AppConfig {
    fn default() -> (r: Self)
        ensures
            r.github.orgs@.len() == 0,
            r.github.users@.len() == 0,
            r.github.include_repos@.len() == 0,
            r.github.exclude_repos@.len() == 0,
            r.github.api_url@ == "https://api.github.com/graphql"@,
            r.dashboard.refresh_interval_secs == 300,
            r.dashboard.show_draft_prs,
            r.cache.ttl_secs == 600,
            r.cache.dir is None,
            r.ui.nav_width_percent == 30,
    {
        AppConfig {
            github: GithubConfig::default(),
            dashboard: DashboardConfig::default(),
            cache: CacheConfig::default(),
            ui: UiConfig::default(),
        }
    }
}

/// Whether the configured endpoint uses HTTPS, required before a client is
/// built for it.
pub fn is_https_url(url: &str) -> (r: bool)
    ensures
        r == "https://"@.is_prefix_of(url@),
{
    let n = url.unicode_len();
    if n < 8 {
        proof {
            reveal_strlit("https://");
            assert(!"https://"@.is_prefix_of(url@));
        }
        return false;
    }
    let head = url.substring_char(0, 8);
    let r = str_eq(head, "https://");
    proof {
        reveal_strlit("https://");
        if r {
            assert(url@.take(8) =~= "https://"@);
        } else {
            if "https://"@.is_prefix_of(url@) {
                assert(url@.take(8) =~= url@.subrange(0, 8));
            }
        }
    }
    r
}

} // verus!
