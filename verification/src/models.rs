//! The domain entities served by the API, their ghost views, and the request
//! bodies the handlers accept.

use vstd::prelude::*;
use crate::ids::generate_id;

verus! {

// ------------------------------------------------------------------
// Profile

#[derive(Debug, Clone, PartialEq)]
pub struct SocialLink {
    pub title: String,
    pub url: String,
    pub icon: String,
}

pub ghost struct SocialLinkV {
    pub title: Seq<char>,
    pub url: Seq<char>,
    pub icon: Seq<char>,
}

impl View for SocialLink {
    type V = SocialLinkV;

    open spec fn view(&self) -> SocialLinkV {
        SocialLinkV { title: self.title@, url: self.url@, icon: self.icon@ }
    }
}

impl DeepView for SocialLink {
    type V = SocialLinkV;

    open spec fn deep_view(&self) -> SocialLinkV {
        self.view()
    }
}

#[derive(Debug, Clone, PartialEq)]
pub struct Education {
    pub degree: String,
    pub institution: String,
    pub period: String,
}

pub ghost struct EducationV {
    pub degree: Seq<char>,
    pub institution: Seq<char>,
    pub period: Seq<char>,
}

impl View for Education {
    type V = EducationV;

    open spec fn view(&self) -> EducationV {
        EducationV {
            degree: self.degree@,
            institution: self.institution@,
            period: self.period@,
        }
    }
}

impl DeepView for Education {
    type V = EducationV;

    open spec fn deep_view(&self) -> EducationV {
        self.view()
    }
}

#[derive(Debug, Clone, PartialEq)]
pub struct Language {
    pub name: String,
    pub level: String,
}

pub ghost struct LanguageV {
    pub name: Seq<char>,
    pub level: Seq<char>,
}

impl View for Language {
    type V = LanguageV;

    open spec fn view(&self) -> LanguageV {
        LanguageV { name: self.name@, level: self.level@ }
    }
}

impl DeepView for Language {
    type V = LanguageV;

    open spec fn deep_view(&self) -> LanguageV {
        self.view()
    }
}

/// The portfolio owner's profile: a singleton resource.
#[derive(Debug, Clone, PartialEq)]
pub struct Profile {
    pub bio: Vec<String>,
    pub social_links: Vec<SocialLink>,
    pub education: Vec<Education>,
    pub languages: Vec<Language>,
}

pub ghost struct ProfileV {
    pub bio: Seq<Seq<char>>,
    pub social_links: Seq<SocialLinkV>,
    pub education: Seq<EducationV>,
    pub languages: Seq<LanguageV>,
}

impl View for Profile {
    type V = ProfileV;

    open spec fn view(&self) -> ProfileV {
        ProfileV {
            bio: self.bio.deep_view(),
            social_links: self.social_links.deep_view(),
            education: self.education.deep_view(),
            languages: self.languages.deep_view(),
        }
    }
}

// ------------------------------------------------------------------
// Skill

/// One skill category with its ordered items.
#[derive(Debug, Clone, PartialEq)]
pub struct Skill {
    pub category: String,
    pub items: Vec<String>,
}

pub ghost struct SkillV {
    pub category: Seq<char>,
    pub items: Seq<Seq<char>>,
}

impl View for Skill {
    type V = SkillV;

    open spec fn view(&self) -> SkillV {
        SkillV { category: self.category@, items: self.items.deep_view() }
    }
}

// ------------------------------------------------------------------
// Post

/// A blog post.
#[derive(Debug, Clone, PartialEq)]
pub struct Post {
    pub id: String,
    pub title: String,
    pub date: String,
    pub tags: Vec<String>,
    pub excerpt: String,
    pub content: String,
}

pub ghost struct PostV {
    pub id: Seq<char>,
    pub title: Seq<char>,
    pub date: Seq<char>,
    pub tags: Seq<Seq<char>>,
    pub excerpt: Seq<char>,
    pub content: Seq<char>,
}

impl View for Post {
    type V = PostV;

    open spec fn view(&self) -> PostV {
        PostV {
            id: self.id@,
            title: self.title@,
            date: self.date@,
            tags: self.tags.deep_view(),
            excerpt: self.excerpt@,
            content: self.content@,
        }
    }
}

// ------------------------------------------------------------------
// Experience

/// A work-experience entry; a missing `end_date` means the position is
/// current.
#[derive(Debug, Clone, PartialEq)]
pub struct Experience {
    pub id: String,
    pub company: String,
    pub position: String,
    pub start_date: String,
    pub end_date: Option<String>,
    pub description: String,
    pub technologies: Vec<String>,
    pub highlights: Vec<String>,
}

pub ghost struct ExperienceV {
    pub id: Seq<char>,
    pub company: Seq<char>,
    pub position: Seq<char>,
    pub start_date: Seq<char>,
    pub end_date: Option<Seq<char>>,
    pub description: Seq<char>,
    pub technologies: Seq<Seq<char>>,
    pub highlights: Seq<Seq<char>>,
}

impl View for Experience {
    type V = ExperienceV;

    open spec fn view(&self) -> ExperienceV {
        ExperienceV {
            id: self.id@,
            company: self.company@,
            position: self.position@,
            start_date: self.start_date@,
            end_date: self.end_date.deep_view(),
            description: self.description@,
            technologies: self.technologies.deep_view(),
            highlights: self.highlights.deep_view(),
        }
    }
}

// ------------------------------------------------------------------
// Project

/// A portfolio project.
#[derive(Debug, Clone, PartialEq)]
pub struct Project {
    pub id: String,
    pub title: String,
    pub description: String,
    pub technologies: Vec<String>,
    pub github_url: Option<String>,
    pub live_url: Option<String>,
    pub image_url: Option<String>,
    pub image_urls: Option<Vec<String>>,
    pub year: i32,
    pub highlights: Vec<String>,
}

pub ghost struct ProjectV {
    pub id: Seq<char>,
    pub title: Seq<char>,
    pub description: Seq<char>,
    pub technologies: Seq<Seq<char>>,
    pub github_url: Option<Seq<char>>,
    pub live_url: Option<Seq<char>>,
    pub image_url: Option<Seq<char>>,
    pub image_urls: Option<Seq<Seq<char>>>,
    pub year: int,
    pub highlights: Seq<Seq<char>>,
}

impl View for Project {
    type V = ProjectV;

    open spec fn view(&self) -> ProjectV {
        ProjectV {
            id: self.id@,
            title: self.title@,
            description: self.description@,
            technologies: self.technologies.deep_view(),
            github_url: self.github_url.deep_view(),
            live_url: self.live_url.deep_view(),
            image_url: self.image_url.deep_view(),
            image_urls: self.image_urls.deep_view(),
            year: self.year as int,
            highlights: self.highlights.deep_view(),
        }
    }
}

impl Project {
    /// A new project under a freshly generated id.
    pub fn new(
        title: String,
        description: String,
        technologies: Vec<String>,
        github_url: Option<String>,
        live_url: Option<String>,
        image_url: Option<String>,
        image_urls: Option<Vec<String>>,
        year: i32,
        highlights: Vec<String>,
    ) -> (r: Project)
        ensures
            r@ == (ProjectV {
                id: r.id@,
                title: title@,
                description: description@,
                technologies: technologies.deep_view(),
                github_url: github_url.deep_view(),
                live_url: live_url.deep_view(),
                image_url: image_url.deep_view(),
                image_urls: image_urls.deep_view(),
                year: year as int,
                highlights: highlights.deep_view(),
            }),
            r.id@.len() == 36,
    {
        Project {
            id: generate_id(),
            title,
            description,
            technologies,
            github_url,
            live_url,
            image_url,
            image_urls,
            year,
            highlights,
        }
    }
}

impl Post {
    /// A new post under a freshly generated id.
    pub fn new(title: String, date: String, tags: Vec<String>, excerpt: String, content: String)
        -> (r: Post)
        ensures
            r@ == (PostV {
                id: r.id@,
                title: title@,
                date: date@,
                tags: tags.deep_view(),
                excerpt: excerpt@,
                content: content@,
            }),
            r.id@.len() == 36,
    {
        Post { id: generate_id(), title, date, tags, excerpt, content }
    }
}

impl Experience {
    /// A new experience under a freshly generated id.
    pub fn new(
        company: String,
        position: String,
        start_date: String,
        end_date: Option<String>,
        description: String,
        technologies: Vec<String>,
        highlights: Vec<String>,
    ) -> (r: Experience)
        ensures
            r@ == (ExperienceV {
                id: r.id@,
                company: company@,
                position: position@,
                start_date: start_date@,
                end_date: end_date.deep_view(),
                description: description@,
                technologies: technologies.deep_view(),
                highlights: highlights.deep_view(),
            }),
            r.id@.len() == 36,
    {
        Experience {
            id: generate_id(),
            company,
            position,
            start_date,
            end_date,
            description,
            technologies,
            highlights,
        }
    }
}

// ------------------------------------------------------------------
// GitHub statistics

#[derive(Debug, Clone, PartialEq)]
pub struct TopLanguage {
    pub name: String,
    pub percentage: i32,
}

pub ghost struct TopLanguageV {
    pub name: Seq<char>,
    pub percentage: int,
}

impl View for TopLanguage {
    type V = TopLanguageV;

    open spec fn view(&self) -> TopLanguageV {
        TopLanguageV { name: self.name@, percentage: self.percentage as int }
    }
}

impl DeepView for TopLanguage {
    type V = TopLanguageV;

    open spec fn deep_view(&self) -> TopLanguageV {
        self.view()
    }
}

#[derive(Debug, Clone, PartialEq)]
pub struct RecentActivity {
    pub date: String,
    pub message: String,
    pub repo: String,
}

pub ghost struct RecentActivityV {
    pub date: Seq<char>,
    pub message: Seq<char>,
    pub repo: Seq<char>,
}

impl View for RecentActivity {
    type V = RecentActivityV;

    open spec fn view(&self) -> RecentActivityV {
        RecentActivityV { date: self.date@, message: self.message@, repo: self.repo@ }
    }
}

impl DeepView for RecentActivity {
    type V = RecentActivityV;

    open spec fn deep_view(&self) -> RecentActivityV {
        self.view()
    }
}

/// Aggregated statistics for the owner's GitHub account: a singleton
/// resource, also cached with a TTL.
#[derive(Debug, Clone, PartialEq)]
pub struct GithubStats {
    pub username: String,
    pub repo_count: i32,
    pub followers: i32,
    pub contributions: i32,
    pub top_languages: Vec<TopLanguage>,
    pub recent_activity: Vec<RecentActivity>,
}

pub ghost struct GithubStatsV {
    pub username: Seq<char>,
    pub repo_count: int,
    pub followers: int,
    pub contributions: int,
    pub top_languages: Seq<TopLanguageV>,
    pub recent_activity: Seq<RecentActivityV>,
}

impl View for GithubStats {
    type V = GithubStatsV;

    open spec fn view(&self) -> GithubStatsV {
        GithubStatsV {
            username: self.username@,
            repo_count: self.repo_count as int,
            followers: self.followers as int,
            contributions: self.contributions as int,
            top_languages: self.top_languages.deep_view(),
            recent_activity: self.recent_activity.deep_view(),
        }
    }
}

// ------------------------------------------------------------------
// Contact

/// An append-only contact-form submission; `created_at` is seconds since the
/// Unix epoch.
#[derive(Debug, Clone, PartialEq)]
pub struct ContactMessage {
    pub id: String,
    pub name: String,
    pub email: String,
    pub message: String,
    pub created_at: i64,
}

pub ghost struct ContactMessageV {
    pub id: Seq<char>,
    pub name: Seq<char>,
    pub email: Seq<char>,
    pub message: Seq<char>,
    pub created_at: int,
}

impl View for ContactMessage {
    type V = ContactMessageV;

    open spec fn view(&self) -> ContactMessageV {
        ContactMessageV {
            id: self.id@,
            name: self.name@,
            email: self.email@,
            message: self.message@,
            created_at: self.created_at as int,
        }
    }
}

impl ContactMessage {
    /// A new message under a freshly generated id, stamped with the given
    /// clock reading.
    pub fn new(name: String, email: String, message: String, now: i64) -> (r: ContactMessage)
        ensures
            r.name@ == name@,
            r.email@ == email@,
            r.message@ == message@,
            r.created_at == now,
            r.id@.len() == 36,
    {
        ContactMessage { id: generate_id(), name, email, message, created_at: now }
    }
}

/// The envelope returned by the contact endpoints.
#[derive(Debug, Clone, PartialEq)]
pub struct ContactResponse {
    pub success: bool,
    pub message: String,
}

impl ContactResponse {
    /// The fixed acknowledgement for a stored message.
    pub fn success() -> (r: ContactResponse)
        ensures
            r.success,
            r.message@ == "Message sent successfully"@,
    {
        ContactResponse { success: true, message: "Message sent successfully".to_owned() }
    }

    /// A failure envelope carrying the given text.
    pub fn error(message: &str) -> (r: ContactResponse)
        ensures
            !r.success,
            r.message@ == message@,
    {
        ContactResponse { success: false, message: message.to_owned() }
    }
}

// ------------------------------------------------------------------
// Requests

pub struct CreateProjectRequest {
    pub title: String,
    pub description: String,
    pub technologies: Vec<String>,
    pub github_url: Option<String>,
    pub live_url: Option<String>,
    pub image_url: Option<String>,
    pub year: i32,
    pub highlights: Vec<String>,
}

/// A partial update: absent fields keep the stored values.
pub struct UpdateProjectRequest {
    pub title: Option<String>,
    pub description: Option<String>,
    pub technologies: Option<Vec<String>>,
    pub github_url: Option<String>,
    pub live_url: Option<String>,
    pub image_url: Option<String>,
    pub year: Option<i32>,
    pub highlights: Option<Vec<String>>,
}

pub struct CreatePostRequest {
    pub title: String,
    pub date: String,
    pub tags: Vec<String>,
    pub excerpt: String,
    pub content: String,
}

pub struct UpdatePostRequest {
    pub title: Option<String>,
    pub date: Option<String>,
    pub tags: Option<Vec<String>>,
    pub excerpt: Option<String>,
    pub content: Option<String>,
}

pub struct CreateExperienceRequest {
    pub company: String,
    pub position: String,
    pub start_date: String,
    pub end_date: Option<String>,
    pub description: String,
    pub technologies: Vec<String>,
    pub highlights: Vec<String>,
}

/// A partial update. `end_date` is three-valued: absent keeps the stored
/// value, an explicit clear (`Some(None)`) marks the position current, and
/// `Some(Some(d))` sets a new end date.
pub struct UpdateExperienceRequest {
    pub company: Option<String>,
    pub position: Option<String>,
    pub start_date: Option<String>,
    pub end_date: Option<Option<String>>,
    pub description: Option<String>,
    pub technologies: Option<Vec<String>>,
    pub highlights: Option<Vec<String>>,
}

pub struct CreateSkillRequest {
    pub category: String,
    pub items: Vec<String>,
}

pub struct UpdateSkillRequest {
    pub category: Option<String>,
    pub items: Option<Vec<String>>,
}

pub struct UpdateProfileRequest {
    pub bio: Option<Vec<String>>,
    pub social_links: Option<Vec<SocialLink>>,
    pub education: Option<Vec<Education>>,
    pub languages: Option<Vec<Language>>,
}

pub struct UpdateGithubStatsRequest {
    pub username: Option<String>,
    pub repo_count: Option<i32>,
    pub followers: Option<i32>,
    pub contributions: Option<i32>,
    pub top_languages: Option<Vec<TopLanguage>>,
    pub recent_activity: Option<Vec<RecentActivity>>,
}

/// The liveness report of the service.
pub struct HealthResponse {
    pub status: String,
    pub version: String,
    pub timestamp: u64,
    pub database: bool,
}

} // verus!
