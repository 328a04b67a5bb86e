use ghdash::models::{PullRequest, RateLimit, Repo};

#[test]
fn test_repo_full_name() {
    let repo = Repo {
        name: "my-repo".into(),
        owner: "my-org".into(),
        url: "https://github.com/my-org/my-repo".into(),
        description: Some("A repo".into()),
        open_pr_count: 5,
        is_archived: false,
    };
    assert_eq!(repo.full_name(), "my-org/my-repo");
}

#[test]
fn test_pr_repo_full_name() {
    let pr = PullRequest {
        number: 1,
        title: "Test".into(),
        author: "user".into(),
        repo_owner: "org".into(),
        repo_name: "repo".into(),
        url: "https://github.com/org/repo/pull/1".into(),
        created_at: chrono::Utc::now().timestamp(),
        updated_at: chrono::Utc::now().timestamp(),
        is_draft: false,
        additions: 0,
        deletions: 0,
        review_decision: None,
        labels: vec![],
    };
    assert_eq!(pr.repo_full_name(), "org/repo");
}

#[test]
fn test_rate_limit_default() {
    let rl = RateLimit::default();
    assert_eq!(rl.remaining, 0);
    assert_eq!(rl.limit, 0);
    assert!(rl.reset_at.is_none());
}

#[test]
fn test_repo_with_description() {
    let repo = Repo {
        name: "repo".into(),
        owner: "owner".into(),
        url: "https://github.com/owner/repo".into(),
        description: Some("A cool project".into()),
        open_pr_count: 0,
        is_archived: true,
    };

    assert_eq!(repo.description, Some("A cool project".into()));
    assert!(repo.is_archived);
}

#[test]
fn test_pr_with_no_review_decision() {
    let pr = PullRequest {
        number: 1,
        title: "WIP".into(),
        author: "dev".into(),
        repo_owner: "org".into(),
        repo_name: "repo".into(),
        url: "url".into(),
        created_at: chrono::Utc::now().timestamp(),
        updated_at: chrono::Utc::now().timestamp(),
        is_draft: true,
        additions: 0,
        deletions: 0,
        review_decision: None,
        labels: vec![],
    };

    assert!(pr.review_decision.is_none());
    assert!(pr.labels.is_empty());
}
