//! The statistics endpoints: the cached read with its background-refresh
//! signal, the partial update, and the refresh that folds freshly fetched
//! data into the stored record.

use vstd::prelude::*;
use crate::auth::AuthenticatedUser;
use crate::cache::{clone_stats, StatsCache};
use crate::error::AppError;
use crate::github_stats_repository::{row_of_stats, stats_of_row, GithubStatsRepository};
use crate::models::{
    GithubStats, GithubStatsV, RecentActivity, TopLanguage, UpdateGithubStatsRequest,
};

verus! {

/// The fixed key the singleton statistics row is written under.
pub open spec fn stats_singleton_id() -> Seq<char> {
    "github-stats-1"@
}

/// The record an empty store falls back to.
pub open spec fn default_stats_v(username: Seq<char>) -> GithubStatsV {
    GithubStatsV {
        username: username,
        repo_count: 0,
        followers: 0,
        contributions: 0,
        top_languages: Seq::empty(),
        recent_activity: Seq::empty(),
    }
}

fn default_stats(username: &str) -> (r: GithubStats)
    ensures
        r@ == default_stats_v(username@),
{
    let r = GithubStats {
        username: username.to_owned(),
        repo_count: 0,
        followers: 0,
        contributions: 0,
        top_languages: Vec::new(),
        recent_activity: Vec::new(),
    };
    proof {
        assert(r@.top_languages =~= Seq::<crate::models::TopLanguageV>::empty());
        assert(r@.recent_activity =~= Seq::<crate::models::RecentActivityV>::empty());
    }
    r
}

/// Reads the statistics. A fresh cache answers directly with no refresh;
/// otherwise the stored record (or the default when none is stored) is served
/// at once and exactly one background refresh is signalled.
pub fn get_github_stats(
    repo: &GithubStatsRepository,
    cache: &StatsCache,
    now: i64,
    username: &str,
) -> (r: (GithubStats, bool))
    ensures
        cache.fresh(now as int) ==> r.0@ == cache.cached() && r.1 == false,
        !cache.fresh(now as int) ==> {
            &&& r.1 == true
            &&& repo.table@.len() > 0 ==> r.0@ == stats_of_row(repo.table@[0].1@)
            &&& repo.table@.len() == 0 ==> r.0@ == default_stats_v(username@)
        },
{
    match cache.read_fresh(now) {
        Some(s) => (s, false),
        None => {
            let mut all = repo.find_all();
            match all.pop() {
                Some(s) => (s, true),
                None => (default_stats(username), true),
            }
        },
    }
}

/// The partial-update semantics for a stored statistics record.
pub open spec fn stats_update(e: GithubStatsV, req: UpdateGithubStatsRequest) -> GithubStatsV {
    GithubStatsV {
        username: match req.username {
            Some(t) => t@,
            None => e.username,
        },
        repo_count: match req.repo_count {
            Some(n) => n as int,
            None => e.repo_count,
        },
        followers: match req.followers {
            Some(n) => n as int,
            None => e.followers,
        },
        contributions: match req.contributions {
            Some(n) => n as int,
            None => e.contributions,
        },
        top_languages: match req.top_languages {
            Some(t) => t.deep_view(),
            None => e.top_languages,
        },
        recent_activity: match req.recent_activity {
            Some(t) => t.deep_view(),
            None => e.recent_activity,
        },
    }
}

/// Applying the same update twice gives what applying it once gives.
pub proof fn law_stats_update_idempotent(e: GithubStatsV, req: UpdateGithubStatsRequest)
    ensures
        stats_update(stats_update(e, req), req) == stats_update(e, req),
{
}

/// The record an update builds when nothing is stored yet: request fields or
/// defaults.
pub open spec fn stats_from_req(req: UpdateGithubStatsRequest) -> GithubStatsV {
    stats_update(default_stats_v("github_user"@), req)
}

/// Partially updates the statistics, creating the row under the fixed
/// singleton key when none is stored. Needs an authenticated caller.
pub fn update_github_stats(
    repo: &mut GithubStatsRepository,
    req: UpdateGithubStatsRequest,
    _user: &AuthenticatedUser,
) -> (r: Result<GithubStats, AppError>)
    requires
        old(repo).wf(),
    ensures
        final (repo).wf(),
        old(repo).table@.len() == 0 ==> ({
            &&& r matches Ok(s) && s@ == stats_from_req(req)
            &&& final (repo).spec_find(stats_singleton_id()) == Some(
                stats_of_row(row_of_stats(stats_from_req(req))),
            )
        }),
        old(repo).table@.len() > 0 ==> ({
            let merged = stats_update(stats_of_row(old(repo).table@[0].1@), req);
            &&& r matches Ok(s) && s@ == merged
            &&& old(repo).spec_find(stats_singleton_id()) is Some ==> final (repo).spec_find(
                stats_singleton_id(),
            ) == Some(stats_of_row(row_of_stats(merged))) && (forall|k: Seq<char>|
                k != stats_singleton_id() ==> #[trigger] final (repo).spec_find(k) == old(
                    repo,
                ).spec_find(k))
            &&& old(repo).spec_find(stats_singleton_id()) is None ==> final (repo).table@ == old(
                repo,
            ).table@
        }),
{
    let mut all = repo.find_all();
    match all.pop() {
        None => {
            let fresh = default_stats("github_user");
            let merged = merge_stats(fresh, req);
            match repo.create("github-stats-1".to_owned(), merged) {
                Ok(s) => Ok(s),
                Err(_) => Err(
                    AppError::InternalError("Failed to create GitHub stats".to_owned()),
                ),
            }
        },
        Some(existing) => {
            let merged = merge_stats(existing, req);
            let result = repo.update(&"github-stats-1".to_owned(), merged);
            Ok(result)
        },
    }
}

/// Folds a partial update into a record.
fn merge_stats(e: GithubStats, req: UpdateGithubStatsRequest) -> (r: GithubStats)
    ensures
        r@ == stats_update(e@, req),
{
    GithubStats {
        username: match req.username {
            Some(t) => t,
            None => e.username,
        },
        repo_count: match req.repo_count {
            Some(n) => n,
            None => e.repo_count,
        },
        followers: match req.followers {
            Some(n) => n,
            None => e.followers,
        },
        contributions: match req.contributions {
            Some(n) => n,
            None => e.contributions,
        },
        top_languages: match req.top_languages {
            Some(t) => t,
            None => e.top_languages,
        },
        recent_activity: match req.recent_activity {
            Some(t) => t,
            None => e.recent_activity,
        },
    }
}

/// What a refresh folds into the stored record: each part that was fetched
/// replaces its fields, each that failed leaves them unchanged.
pub open spec fn github_merge(
    e: GithubStatsV,
    profile: Option<(i32, i32)>,
    languages: Option<Vec<TopLanguage>>,
    activities: Option<Vec<RecentActivity>>,
) -> GithubStatsV {
    GithubStatsV {
        username: e.username,
        repo_count: match profile {
            Some(p) => p.0 as int,
            None => e.repo_count,
        },
        followers: match profile {
            Some(p) => p.1 as int,
            None => e.followers,
        },
        contributions: e.contributions,
        top_languages: match languages {
            Some(l) => l.deep_view(),
            None => e.top_languages,
        },
        recent_activity: match activities {
            Some(a) => a.deep_view(),
            None => e.recent_activity,
        },
    }
}

/// Folds freshly fetched data into the record and writes it back under the
/// fixed singleton key. A part that could not be fetched leaves its fields
/// unchanged, so partial data still serves.
pub fn update_stats_from_github(
    repo: &mut GithubStatsRepository,
    stats: &mut GithubStats,
    profile: Option<(i32, i32)>,
    languages: Option<Vec<TopLanguage>>,
    activities: Option<Vec<RecentActivity>>,
)
    requires
        old(repo).wf(),
    ensures
        final (repo).wf(),
        final (stats)@ == github_merge(old(stats)@, profile, languages, activities),
        old(repo).spec_find(stats_singleton_id()) is Some ==> final (repo).spec_find(
            stats_singleton_id(),
        ) == Some(stats_of_row(row_of_stats(final (stats)@))) && (forall|k: Seq<char>|
            k != stats_singleton_id() ==> #[trigger] final (repo).spec_find(k) == old(
                repo,
            ).spec_find(k)),
        old(repo).spec_find(stats_singleton_id()) is None ==> final (repo).table@ == old(
            repo,
        ).table@,
{
    match profile {
        Some(p) => {
            stats.repo_count = p.0;
            stats.followers = p.1;
        },
        None => {},
    }
    match languages {
        Some(l) => {
            stats.top_languages = l;
        },
        None => {},
    }
    match activities {
        Some(a) => {
            stats.recent_activity = a;
        },
        None => {},
    }
    let copy = clone_stats(stats);
    let result = repo.update(&"github-stats-1".to_owned(), copy);
}

/// The forced refresh: reads the stored record (or the default), folds the
/// fetched data in, stores it, and returns it. Needs an authenticated caller.
pub fn refresh_github_stats(
    repo: &mut GithubStatsRepository,
    username: &str,
    profile: Option<(i32, i32)>,
    languages: Option<Vec<TopLanguage>>,
    activities: Option<Vec<RecentActivity>>,
    _user: &AuthenticatedUser,
) -> (r: Result<GithubStats, AppError>)
    requires
        old(repo).wf(),
    ensures
        final (repo).wf(),
        ({
            let base = if old(repo).table@.len() > 0 {
                stats_of_row(old(repo).table@[0].1@)
            } else {
                default_stats_v(username@)
            };
            let merged = github_merge(base, profile, languages, activities);
            &&& r matches Ok(s) && s@ == merged
            &&& old(repo).spec_find(stats_singleton_id()) is Some ==> final (repo).spec_find(
                stats_singleton_id(),
            ) == Some(stats_of_row(row_of_stats(merged)))
            &&& old(repo).spec_find(stats_singleton_id()) is None ==> final (repo).table@ == old(
                repo,
            ).table@
        }),
{
    let mut all = repo.find_all();
    let mut stats = match all.pop() {
        Some(s) => s,
        None => default_stats(username),
    };
    update_stats_from_github(repo, &mut stats, profile, languages, activities);
    Ok(stats)
}

} // verus!
