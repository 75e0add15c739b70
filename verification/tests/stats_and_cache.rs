//! Exercises the statistics endpoints, the TTL cache, the language
//! histogram, and the liveness report.

use portfolio_api::auth::{AuthenticatedUser, User};
use portfolio_api::cache::StatsCache;
use portfolio_api::github::{
    ascii_lower, recent_activity_from_events, GitHubActivity, GitHubActivityRepo, GitHubActor,
    GitHubRepo, GitHubService,
};
use portfolio_api::github_stats_repository::GithubStatsRepository;
use portfolio_api::models::{GithubStats, TopLanguage, UpdateGithubStatsRequest};
use portfolio_api::routes::github_stats::{
    get_github_stats, refresh_github_stats, update_github_stats,
};
use portfolio_api::routes::health::health_check;

fn admin() -> AuthenticatedUser {
    AuthenticatedUser(User {
        id: "1".to_string(),
        name: "Admin".to_string(),
        role: "admin".to_string(),
    })
}

fn repo_named(language: Option<&str>) -> GitHubRepo {
    GitHubRepo {
        id: 1,
        name: "r".to_string(),
        full_name: "o/r".to_string(),
        html_url: "https://github.com/o/r".to_string(),
        description: None,
        fork: false,
        created_at: String::new(),
        updated_at: String::new(),
        pushed_at: String::new(),
        homepage: None,
        size: 0,
        stargazers_count: 0,
        watchers_count: 0,
        language: language.map(|l| l.to_string()),
        forks_count: 0,
        open_issues_count: 0,
        topics: None,
        visibility: None,
    }
}

#[test]
fn cache_fresh_read_returns_cached_value_without_refresh() {
    let repo = GithubStatsRepository::new();
    let mut cache = StatsCache::new();
    let stats = GithubStats {
        username: "someone".to_string(),
        repo_count: 7,
        followers: 3,
        contributions: 0,
        top_languages: vec![],
        recent_activity: vec![],
    };
    cache.store(1_000_000, stats.clone());
    let (served, refresh) = get_github_stats(&repo, &cache, 1_000_000 + 3599, "fallback");
    assert_eq!(served, stats);
    assert!(!refresh);
}

#[test]
fn cache_stale_read_serves_store_and_signals_one_refresh() {
    let mut repo = GithubStatsRepository::new();
    let mut cache = StatsCache::new();
    let user = admin();
    let req = UpdateGithubStatsRequest {
        username: Some("someone".to_string()),
        repo_count: Some(12),
        followers: None,
        contributions: None,
        top_languages: None,
        recent_activity: None,
    };
    update_github_stats(&mut repo, req, &user).unwrap();

    let stats = GithubStats {
        username: "someone".to_string(),
        repo_count: 7,
        followers: 3,
        contributions: 0,
        top_languages: vec![],
        recent_activity: vec![],
    };
    cache.store(1_000_000, stats);
    let (served, refresh) = get_github_stats(&repo, &cache, 1_000_000 + 3600, "fallback");
    assert_eq!(served.repo_count, 12);
    assert!(refresh);

    // with nothing stored either, the default record serves
    let empty = GithubStatsRepository::new();
    let (fallback, refresh2) = get_github_stats(&empty, &StatsCache::new(), 0, "fallback");
    assert_eq!(fallback.username, "fallback");
    assert_eq!(fallback.repo_count, 0);
    assert!(refresh2);
}

#[test]
fn stats_update_merges_partially() {
    let mut repo = GithubStatsRepository::new();
    let user = admin();
    let first = UpdateGithubStatsRequest {
        username: Some("someone".to_string()),
        repo_count: Some(12),
        followers: Some(4),
        contributions: None,
        top_languages: None,
        recent_activity: None,
    };
    let s1 = update_github_stats(&mut repo, first, &user).unwrap();
    assert_eq!(s1.username, "someone");
    assert_eq!(s1.repo_count, 12);
    assert_eq!(s1.contributions, 0);

    let second = UpdateGithubStatsRequest {
        username: None,
        repo_count: None,
        followers: Some(9),
        contributions: None,
        top_languages: None,
        recent_activity: None,
    };
    let s2 = update_github_stats(&mut repo, second, &user).unwrap();
    assert_eq!(s2.username, "someone");
    assert_eq!(s2.repo_count, 12);
    assert_eq!(s2.followers, 9);
}

#[test]
fn stats_round_trip_through_storage() {
    let mut repo = GithubStatsRepository::new();
    let user = admin();
    let req = UpdateGithubStatsRequest {
        username: Some("someone".to_string()),
        repo_count: Some(3),
        followers: Some(1),
        contributions: Some(2),
        top_languages: Some(vec![
            TopLanguage { name: "Rust".to_string(), percentage: 62 },
            TopLanguage { name: "Other".to_string(), percentage: 38 },
        ]),
        recent_activity: Some(vec![portfolio_api::models::RecentActivity {
            date: "2025-04-10T12:00:00Z".to_string(),
            message: "pushevented to repo".to_string(),
            repo: "repo".to_string(),
        }]),
    };
    let written = update_github_stats(&mut repo, req, &user).unwrap();
    let read_back = repo.find_all().pop().unwrap();
    assert_eq!(written, read_back);
}

#[test]
fn refresh_folds_fetched_parts_and_keeps_failed_ones() {
    let mut repo = GithubStatsRepository::new();
    let user = admin();
    let langs = vec![TopLanguage { name: "Rust".to_string(), percentage: 100 }];
    let refreshed = refresh_github_stats(
        &mut repo,
        "someone",
        Some((21, 8)),
        Some(langs.clone()),
        None,
        &user,
    )
    .unwrap();
    assert_eq!(refreshed.username, "someone");
    assert_eq!(refreshed.repo_count, 21);
    assert_eq!(refreshed.followers, 8);
    assert_eq!(refreshed.top_languages, langs);
    assert_eq!(refreshed.recent_activity.len(), 0);
}

#[test]
fn language_stats_fall_back_below_five_repositories() {
    let service = GitHubService::new("someone".to_string(), None);
    let repos = vec![repo_named(Some("Rust")), repo_named(None), repo_named(Some(""))];
    let langs = service.get_language_stats(&repos);
    assert_eq!(langs.len(), 5);
    assert_eq!(langs[0], TopLanguage { name: "Rust".to_string(), percentage: 35 });
    assert_eq!(langs[4], TopLanguage { name: "Other".to_string(), percentage: 5 });
}

#[test]
fn language_stats_sum_to_one_hundred() {
    let service = GitHubService::new("someone".to_string(), None);
    let mut repos = Vec::new();
    for _ in 0..3 {
        repos.push(repo_named(Some("Rust")));
    }
    for _ in 0..2 {
        repos.push(repo_named(Some("TypeScript")));
    }
    repos.push(repo_named(Some("Go")));
    repos.push(repo_named(Some("Python")));
    repos.push(repo_named(Some("C")));
    let langs = service.get_language_stats(&repos);
    assert!(langs.len() >= 1 && langs.len() <= 5);
    let total: i32 = langs.iter().map(|l| l.percentage).sum();
    assert_eq!(total, 100);
    assert_eq!(langs[0].name, "Rust");
}

#[test]
fn activity_messages_are_formed_from_the_event_type() {
    assert_eq!(ascii_lower("PushEvent"), "pushevent");
    let events = vec![GitHubActivity {
        id: "1".to_string(),
        event_type: "PushEvent".to_string(),
        actor: GitHubActor {
            id: 1,
            login: "someone".to_string(),
            display_login: "someone".to_string(),
            avatar_url: String::new(),
        },
        repo: GitHubActivityRepo {
            id: 2,
            name: "someone/repo".to_string(),
            url: String::new(),
        },
        payload: "{}".to_string(),
        public: true,
        created_at: "2025-04-10T12:00:00Z".to_string(),
    }];
    let mapped = recent_activity_from_events(&events);
    assert_eq!(mapped.len(), 1);
    assert_eq!(mapped[0].message, "pushevented to someone/repo");
    assert_eq!(mapped[0].repo, "someone/repo");
    assert_eq!(mapped[0].date, "2025-04-10T12:00:00Z");
}

#[test]
fn test_health_endpoint() {
    let up = health_check(true, "0.1.0".to_string(), 123);
    assert_eq!(up.status, "ok");
    assert!(up.database);
    assert_eq!(up.version, "0.1.0");
    assert_eq!(up.timestamp, 123);

    let down = health_check(false, "0.1.0".to_string(), 124);
    assert_eq!(down.status, "degraded");
    assert!(!down.database);
}
