use ghdash::config::{
    default_api_url, default_cache_ttl, default_nav_width, default_refresh_interval, default_true,
    is_https_url, AppConfig,
};

#[test]
fn test_default_config() {
    let config = AppConfig::default();
    assert!(config.github.orgs.is_empty());
    assert!(config.github.users.is_empty());
    assert!(config.github.include_repos.is_empty());
    assert!(config.github.exclude_repos.is_empty());
    assert_eq!(config.github.api_url, "https://api.github.com/graphql");
    assert_eq!(config.dashboard.refresh_interval_secs, 300);
    assert!(config.dashboard.show_draft_prs);
    assert_eq!(config.cache.ttl_secs, 600);
    assert!(config.cache.dir.is_none());
    assert_eq!(config.ui.nav_width_percent, 30);
}

#[test]
fn test_default_values() {
    assert_eq!(default_api_url(), "https://api.github.com/graphql");
    assert_eq!(default_refresh_interval(), 300);
    assert!(default_true());
    assert_eq!(default_cache_ttl(), 600);
    assert_eq!(default_nav_width(), 30);
}

#[test]
fn test_https_url_check() {
    assert!(is_https_url("https://api.github.com/graphql"));
    assert!(is_https_url("https://github.example.com/api/graphql"));
    assert!(!is_https_url("http://api.github.com/graphql"));
    assert!(!is_https_url("ftp://x"));
    assert!(!is_https_url(""));
}
