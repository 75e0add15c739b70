//! The in-process cache for the aggregated statistics: a single slot holding
//! a timestamped value, fresh for one hour.

use vstd::prelude::*;
use crate::models::{GithubStats, RecentActivity, TopLanguage};

verus! {

/// How long a cached value stays fresh, in seconds.
pub open spec fn cache_ttl() -> int {
    3600
}

/// The cache slot: empty, or a value with the time it was stored.
pub struct StatsCache {
    pub slot: Option<(i64, GithubStats)>,
}

impl StatsCache {
    /// Whether the slot holds a value younger than the TTL at the given time.
    pub open spec fn fresh(&self, now: int) -> bool {
        match self.slot {
            Some((t, _)) => now - t < cache_ttl(),
            None => false,
        }
    }

    /// The cached value, meaningful only when fresh.
    pub open spec fn cached(&self) -> crate::models::GithubStatsV {
        self.slot->Some_0.1@
    }

    pub fn new() -> (r: StatsCache)
        ensures
            r.slot is None,
    {
        StatsCache { slot: None }
    }

    /// Reads the slot if it is fresh at `now`.
    pub fn read_fresh(&self, now: i64) -> (r: Option<GithubStats>)
        ensures
            self.fresh(now as int) ==> (r matches Some(s) && s@ == self.cached()),
            !self.fresh(now as int) ==> r is None,
    {
        match &self.slot {
            Some(pair) => {
                let age_ok = (now as i128) - (pair.0 as i128) < 3600;
                if age_ok {
                    Some(clone_stats(&pair.1))
                } else {
                    None
                }
            },
            None => None,
        }
    }

    /// Replaces the slot with a value stored at `now`.
    pub fn store(&mut self, now: i64, stats: GithubStats)
        ensures
            (final (self).slot matches Some(p) && p.0 == now && p.1@ == stats@),
            final (self).fresh(now as int),
    {
        self.slot = Some((now, stats));
    }
}

/// A copy of a language entry, equal under the view.
pub fn clone_toplang(e: &TopLanguage) -> (r: TopLanguage)
    ensures
        r@ == e@,
{
    TopLanguage { name: e.name.clone(), percentage: e.percentage }
}

/// A copy of an activity entry, equal under the view.
pub fn clone_activity(e: &RecentActivity) -> (r: RecentActivity)
    ensures
        r@ == e@,
{
    RecentActivity { date: e.date.clone(), message: e.message.clone(), repo: e.repo.clone() }
}

/// A copy of a statistics record, equal under the view.
pub fn clone_stats(s: &GithubStats) -> (r: GithubStats)
    ensures
        r@ == s@,
{
    let mut top_languages: Vec<TopLanguage> = Vec::new();
    let mut i: usize = 0;
    let n = s.top_languages.len();
    while i < n
        invariant
            i <= n,
            n == s.top_languages@.len(),
            top_languages@.len() == i,
            forall|q: int|
                0 <= q < i ==> top_languages@[q]@ == s.top_languages@[q]@,
        decreases n - i,
    {
        top_languages.push(clone_toplang(&s.top_languages[i]));
        i = i + 1;
    }
    let mut recent_activity: Vec<RecentActivity> = Vec::new();
    let mut j: usize = 0;
    let m = s.recent_activity.len();
    while j < m
        invariant
            j <= m,
            m == s.recent_activity@.len(),
            recent_activity@.len() == j,
            forall|q: int|
                0 <= q < j ==> recent_activity@[q]@ == s.recent_activity@[q]@,
        decreases m - j,
    {
        recent_activity.push(clone_activity(&s.recent_activity[j]));
        j = j + 1;
    }
    proof {
        assert(top_languages.deep_view() =~= s.top_languages.deep_view());
        assert(recent_activity.deep_view() =~= s.recent_activity.deep_view());
    }
    GithubStats {
        username: s.username.clone(),
        repo_count: s.repo_count,
        followers: s.followers,
        contributions: s.contributions,
        top_languages,
        recent_activity,
    }
}

} // verus!
