//! The assembled GitHub profile: built from the fetched account, organization,
//! repository and event data, and cached in the store with a one-hour
//! freshness window. Fetching is I/O and happens outside; the assembly and
//! the freshness decision are verified.

use vstd::prelude::*;
use crate::github::{GitHubActivity, GitHubOrg, GitHubRepo, GitHubUser};
use crate::project_repository::empty_strings;
use crate::store::KeyedTable;
use vstd::string::StringExecFns;

verus! {

pub struct GitHubOrganization {
    pub login: String,
    pub id: i64,
    pub avatar_url: String,
    pub description: Option<String>,
    pub html_url: String,
}

pub struct GitHubRepository {
    pub name: String,
    pub full_name: String,
    pub html_url: String,
    pub description: Option<String>,
    pub language: Option<String>,
    pub stargazers_count: i32,
    pub forks_count: i32,
    pub topics: Vec<String>,
    pub updated_at: String,
}

/// One item of the profile's recent activity; the event payload rides along
/// as its raw JSON text.
pub struct GitHubActivityItem {
    pub event_type: String,
    pub repo_name: String,
    pub repo_url: String,
    pub created_at: String,
    pub details: String,
}

/// The aggregated profile served to the frontend.
pub struct GitHubProfile {
    pub username: String,
    pub display_name: String,
    pub avatar_url: String,
    pub bio: Option<String>,
    pub location: Option<String>,
    pub blog: Option<String>,
    pub twitter_username: Option<String>,
    pub company: Option<String>,
    pub followers: i32,
    pub following: i32,
    pub public_repos: i32,
    pub public_gists: i32,
    pub html_url: String,
    pub created_at: String,
    pub organizations: Vec<GitHubOrganization>,
    pub top_repositories: Vec<GitHubRepository>,
    pub recent_activity: Vec<GitHubActivityItem>,
}

/// Assembles the profile from the fetched parts: the display name falls back
/// to the login, each organization and activity links to its page, and
/// missing topic lists become empty.
pub fn build_github_profile(
    user: GitHubUser,
    orgs: Vec<GitHubOrg>,
    repos: Vec<GitHubRepo>,
    activities: Vec<GitHubActivity>,
) -> (r: GitHubProfile)
    ensures
        r.username@ == user.login@,
        user.name matches Some(n) ==> r.display_name@ == n@,
        user.name is None ==> r.display_name@ == user.login@,
        r.avatar_url@ == user.avatar_url@,
        r.bio.deep_view() == user.bio.deep_view(),
        r.location.deep_view() == user.location.deep_view(),
        r.blog.deep_view() == user.blog.deep_view(),
        r.twitter_username.deep_view() == user.twitter_username.deep_view(),
        r.company.deep_view() == user.company.deep_view(),
        r.followers == user.followers,
        r.following == user.following,
        r.public_repos == user.public_repos,
        r.public_gists == user.public_gists,
        r.html_url@ == user.html_url@,
        r.created_at@ == user.created_at@,
        r.organizations@.len() == orgs@.len(),
        forall|i: int|
            0 <= i < orgs@.len() ==> {
                &&& (#[trigger] r.organizations@[i]).login@ == orgs@[i].login@
                &&& r.organizations@[i].id == orgs@[i].id
                &&& r.organizations@[i].avatar_url@ == orgs@[i].avatar_url@
                &&& r.organizations@[i].description.deep_view() == orgs@[
                    i
                ].description.deep_view()
                &&& r.organizations@[i].html_url@ == "https://github.com/"@ + orgs@[i].login@
            },
        r.top_repositories@.len() == repos@.len(),
        forall|i: int|
            0 <= i < repos@.len() ==> {
                &&& (#[trigger] r.top_repositories@[i]).name@ == repos@[i].name@
                &&& r.top_repositories@[i].full_name@ == repos@[i].full_name@
                &&& r.top_repositories@[i].html_url@ == repos@[i].html_url@
                &&& r.top_repositories@[i].description.deep_view() == repos@[
                    i
                ].description.deep_view()
                &&& r.top_repositories@[i].stargazers_count == repos@[i].stargazers_count
                &&& r.top_repositories@[i].forks_count == repos@[i].forks_count
                &&& r.top_repositories@[i].language.deep_view() == repos@[i].language.deep_view()
                &&& r.top_repositories@[i].topics.deep_view() == (match repos@[i].topics {
                    Some(t) => t.deep_view(),
                    None => Seq::<Seq<char>>::empty(),
                })
                &&& r.top_repositories@[i].updated_at@ == repos@[i].updated_at@
            },
        r.recent_activity@.len() == activities@.len(),
        forall|i: int|
            0 <= i < activities@.len() ==> {
                &&& (#[trigger] r.recent_activity@[i]).event_type@ == activities@[i].event_type@
                &&& r.recent_activity@[i].repo_name@ == activities@[i].repo.name@
                &&& r.recent_activity@[i].repo_url@ == "https://github.com/"@
                    + activities@[i].repo.name@
                &&& r.recent_activity@[i].created_at@ == activities@[i].created_at@
                &&& r.recent_activity@[i].details@ == activities@[i].payload@
            },
{
    let mut organizations: Vec<GitHubOrganization> = Vec::new();
    let n1 = orgs.len();
    let mut i: usize = 0;
    while i < n1
        invariant
            i <= n1,
            n1 == orgs@.len(),
            organizations@.len() == i,
            forall|q: int|
                0 <= q < i ==> {
                    &&& (#[trigger] organizations@[q]).login@ == orgs@[q].login@
                    &&& organizations@[q].id == orgs@[q].id
                    &&& organizations@[q].avatar_url@ == orgs@[q].avatar_url@
                    &&& organizations@[q].description.deep_view() == orgs@[
                        q
                    ].description.deep_view()
                    &&& organizations@[q].html_url@ == "https://github.com/"@ + orgs@[q].login@
                },
        decreases n1 - i,
    {
        let o = &orgs[i];
        let mut link = String::new();
        link.append("https://github.com/");
        link.append(o.login.as_str());
        organizations.push(
            GitHubOrganization {
                login: o.login.clone(),
                id: o.id,
                avatar_url: o.avatar_url.clone(),
                description: match &o.description {
                    Some(d) => Some(d.clone()),
                    None => None,
                },
                html_url: link,
            },
        );
        i = i + 1;
    }
    let mut top_repositories: Vec<GitHubRepository> = Vec::new();
    let n2 = repos.len();
    let mut j: usize = 0;
    while j < n2
        invariant
            j <= n2,
            n2 == repos@.len(),
            top_repositories@.len() == j,
            forall|q: int|
                0 <= q < j ==> {
                    &&& (#[trigger] top_repositories@[q]).name@ == repos@[q].name@
                    &&& top_repositories@[q].full_name@ == repos@[q].full_name@
                    &&& top_repositories@[q].html_url@ == repos@[q].html_url@
                    &&& top_repositories@[q].description.deep_view() == repos@[
                        q
                    ].description.deep_view()
                    &&& top_repositories@[q].stargazers_count == repos@[q].stargazers_count
                    &&& top_repositories@[q].forks_count == repos@[q].forks_count
                    &&& top_repositories@[q].language.deep_view() == repos@[
                        q
                    ].language.deep_view()
                    &&& top_repositories@[q].topics.deep_view() == (match repos@[q].topics {
                        Some(t) => t.deep_view(),
                        None => Seq::<Seq<char>>::empty(),
                    })
                    &&& top_repositories@[q].updated_at@ == repos@[q].updated_at@
                },
        decreases n2 - j,
    {
        let rp = &repos[j];
        top_repositories.push(
            GitHubRepository {
                name: rp.name.clone(),
                full_name: rp.full_name.clone(),
                html_url: rp.html_url.clone(),
                description: match &rp.description {
                    Some(d) => Some(d.clone()),
                    None => None,
                },
                language: match &rp.language {
                    Some(l) => Some(l.clone()),
                    None => None,
                },
                stargazers_count: rp.stargazers_count,
                forks_count: rp.forks_count,
                topics: match &rp.topics {
                    Some(t) => t.clone(),
                    None => empty_strings(),
                },
                updated_at: rp.updated_at.clone(),
            },
        );
        j = j + 1;
    }
    let mut recent_activity: Vec<GitHubActivityItem> = Vec::new();
    let n3 = activities.len();
    let mut k: usize = 0;
    while k < n3
        invariant
            k <= n3,
            n3 == activities@.len(),
            recent_activity@.len() == k,
            forall|q: int|
                0 <= q < k ==> {
                    &&& (#[trigger] recent_activity@[q]).event_type@ == activities@[
                        q
                    ].event_type@
                    &&& recent_activity@[q].repo_name@ == activities@[q].repo.name@
                    &&& recent_activity@[q].repo_url@ == "https://github.com/"@ + activities@[
                        q
                    ].repo.name@
                    &&& recent_activity@[q].created_at@ == activities@[q].created_at@
                    &&& recent_activity@[q].details@ == activities@[q].payload@
                },
        decreases n3 - k,
    {
        let a = &activities[k];
        let mut link = String::new();
        link.append("https://github.com/");
        link.append(a.repo.name.as_str());
        recent_activity.push(
            GitHubActivityItem {
                event_type: a.event_type.clone(),
                repo_name: a.repo.name.clone(),
                repo_url: link,
                created_at: a.created_at.clone(),
                details: a.payload.clone(),
            },
        );
        k = k + 1;
    }
    let display_name = match user.name {
        Some(n) => n,
        None => user.login.clone(),
    };
    GitHubProfile {
        username: user.login,
        display_name,
        avatar_url: user.avatar_url,
        bio: user.bio,
        location: user.location,
        blog: user.blog,
        twitter_username: user.twitter_username,
        company: user.company,
        followers: user.followers,
        following: user.following,
        public_repos: user.public_repos,
        public_gists: user.public_gists,
        html_url: user.html_url,
        created_at: user.created_at,
        organizations,
        top_repositories,
        recent_activity,
    }
}

/// A cached profile row: the assembled profile and when it was stored.
pub struct GitHubProfileRow {
    pub data: GitHubProfile,
    pub last_updated: i64,
}

/// Caching storage for the assembled profile: the first row, younger than an
/// hour, serves a read; anything else asks for a fetch.
pub struct GitHubProfileRepository {
    pub table: KeyedTable<GitHubProfileRow>,
}

impl GitHubProfileRepository {
    pub open spec fn wf(&self) -> bool {
        self.table.wf()
    }

    /// Whether the first row is young enough to serve.
    pub open spec fn fresh(&self, now: int) -> bool {
        self.table@.len() > 0 && now - self.table@[0].1.last_updated < 3600
    }

    pub fn new() -> (r: GitHubProfileRepository)
        ensures
            r.wf(),
            r.table@ =~= Seq::<(Seq<char>, GitHubProfileRow)>::empty(),
    {
        GitHubProfileRepository { table: KeyedTable::new() }
    }

    /// The cached profile, if it is fresh at `now`; a stale or missing row
    /// asks the caller to fetch.
    pub fn get_cached_profile(&self, now: i64) -> (r: Option<&GitHubProfile>)
        ensures
            self.fresh(now as int) ==> (r matches Some(p) && *p == self.table@[0].1.data),
            !self.fresh(now as int) ==> r is None,
    {
        if self.table.len() > 0 {
            proof {
                assert(self.table@[0] == (self.table.rows@[0].0@, self.table.rows@[0].1));
            }
            let row = &self.table.rows[0].1;
            if (now as i128) - (row.last_updated as i128) < 3600 {
                Some(&row.data)
            } else {
                None
            }
        } else {
            None
        }
    }

    /// Stores a freshly assembled profile: the first row is replaced, or one
    /// is inserted under the given id when the table is empty. The write
    /// always takes, and the slot is fresh afterwards.
    pub fn cache_profile(&mut self, id: String, profile: GitHubProfile, now: i64)
        requires
            old(self).wf(),
        ensures
            final (self).wf(),
            final (self).table@.len() >= 1,
            final (self).table@[0].1.data == profile,
            final (self).table@[0].1.last_updated == now,
            final (self).fresh(now as int),
    {
        let row = GitHubProfileRow { data: profile, last_updated: now };
        if self.table.len() > 0 {
            proof {
                assert(self.table@[0] == (self.table.rows@[0].0@, self.table.rows@[0].1));
            }
            let first = self.table.rows[0].0.clone();
            proof {
                crate::store::lemma_lookup_first(self.table@, first@, 0);
            }
            let ghost grow = row;
            let updated = self.table.update_row(&first, row);
            proof {
                crate::store::lemma_lookup_update(old(self).table@, first@, grow, first@);
                assert(self.table@[0] == (first@, grow));
            }
        } else {
            let inserted = self.table.insert_new(id, row);
            proof {
                assert(inserted);
            }
        }
    }
}

} // verus!
