//! Exercises the repositories and the per-resource handlers end to end,
//! against the in-memory store.

use portfolio_api::auth::{AuthenticatedUser, User};
use portfolio_api::contact_repository::ContactRepository;
use portfolio_api::error::AppError;
use portfolio_api::experience_repository::ExperienceRepository;
use portfolio_api::models::{
    CreateExperienceRequest, CreateProjectRequest, Post, Profile, Project, Skill, SocialLink,
    UpdateExperienceRequest, UpdateProfileRequest, UpdateProjectRequest, UpdateSkillRequest,
};
use portfolio_api::post_repository::PostRepository;
use portfolio_api::profile_repository::ProfileRepository;
use portfolio_api::project_repository::ProjectRepository;
use portfolio_api::routes::contact::{get_all_messages, submit_contact_form};
use portfolio_api::routes::experiences::{
    create_experience, get_experience_by_id, update_experience,
};
use portfolio_api::routes::profile::{get_profile, update_profile};
use portfolio_api::routes::projects::{
    create_project, delete_project, get_all_projects, get_project_by_id, update_project,
};
use portfolio_api::routes::skills::{get_all_skills, get_skill_by_category, update_skill};
use portfolio_api::skill_repository::SkillRepository;

fn admin() -> AuthenticatedUser {
    AuthenticatedUser(User {
        id: "1".to_string(),
        name: "Admin".to_string(),
        role: "admin".to_string(),
    })
}

#[test]
fn test_get_projects() {
    let repo = ProjectRepository::new();
    let all = get_all_projects(&repo);
    assert_eq!(all.len(), 0);
}

#[test]
fn project_create_get_update_delete_scenario() {
    let mut repo = ProjectRepository::new();
    let user = admin();
    let req = CreateProjectRequest {
        title: "X".to_string(),
        description: "d".to_string(),
        technologies: vec!["Rust".to_string()],
        github_url: None,
        live_url: None,
        image_url: None,
        year: 2024,
        highlights: vec![],
    };
    let created = create_project(&mut repo, req, &user).unwrap();
    let id = created.id.clone();

    let fetched = get_project_by_id(&repo, &id).unwrap();
    assert_eq!(fetched.title, "X");
    assert_eq!(fetched.year, 2024);
    assert_eq!(fetched.technologies, vec!["Rust".to_string()]);
    assert_eq!(fetched.highlights, Vec::<String>::new());
    assert_eq!(fetched, created);

    let put = UpdateProjectRequest {
        title: None,
        description: None,
        technologies: None,
        github_url: None,
        live_url: None,
        image_url: None,
        year: Some(2025),
        highlights: None,
    };
    let updated = update_project(&mut repo, &id, put, &user).unwrap();
    assert_eq!(updated.year, 2025);
    assert_eq!(updated.title, "X");

    let fetched2 = get_project_by_id(&repo, &id).unwrap();
    assert_eq!(fetched2.year, 2025);
    assert_eq!(fetched2.title, "X");
    assert_eq!(fetched2.technologies, vec!["Rust".to_string()]);

    delete_project(&mut repo, &id, &user).unwrap();
    match get_project_by_id(&repo, &id) {
        Err(AppError::NotFoundError(_)) => {},
        other => panic!("expected a not-found error, got {:?}", other),
    }
}

#[test]
fn project_update_is_idempotent() {
    let mut repo = ProjectRepository::new();
    let user = admin();
    let req = CreateProjectRequest {
        title: "first".to_string(),
        description: "d".to_string(),
        technologies: vec![],
        github_url: None,
        live_url: None,
        image_url: None,
        year: 2020,
        highlights: vec![],
    };
    let created = create_project(&mut repo, req, &user).unwrap();
    let id = created.id.clone();
    let put = || UpdateProjectRequest {
        title: Some("second".to_string()),
        description: None,
        technologies: Some(vec!["Go".to_string()]),
        github_url: Some("https://example.com".to_string()),
        live_url: None,
        image_url: None,
        year: Some(2021),
        highlights: None,
    };
    let once = update_project(&mut repo, &id, put(), &user).unwrap();
    let state_once = get_project_by_id(&repo, &id).unwrap();
    let twice = update_project(&mut repo, &id, put(), &user).unwrap();
    let state_twice = get_project_by_id(&repo, &id).unwrap();
    assert_eq!(once, twice);
    assert_eq!(state_once, state_twice);
}

#[test]
fn generated_ids_are_uuid_sized() {
    let p = Project::new(
        "t".to_string(),
        "d".to_string(),
        vec![],
        None,
        None,
        None,
        None,
        2024,
        vec![],
    );
    assert_eq!(p.id.len(), 36);
}

#[test]
fn find_by_id_absent_is_none_not_error() {
    let repo = PostRepository::new();
    assert!(repo.find_by_id(&"missing".to_string()).is_none());

    let mut repo2 = PostRepository::new();
    assert!(!repo2.delete(&"missing".to_string()));
}

#[test]
fn delete_absent_surfaces_not_found() {
    let mut repo = ProjectRepository::new();
    let user = admin();
    match delete_project(&mut repo, &"nope".to_string(), &user) {
        Err(AppError::NotFoundError(_)) => {},
        other => panic!("expected a not-found error, got {:?}", other),
    }
}

#[test]
fn experience_end_date_clears_and_keeps() {
    let mut repo = ExperienceRepository::new();
    let user = admin();
    let created = create_experience(
        &mut repo,
        CreateExperienceRequest {
            company: "Somewhere".to_string(),
            position: "Engineer".to_string(),
            start_date: "2020-01".to_string(),
            end_date: Some("2023-06".to_string()),
            description: "d".to_string(),
            technologies: vec![],
            highlights: vec![],
        },
        &user,
    )
    .unwrap();
    let id = created.id.clone();

    // an omitted end_date keeps the stored one
    let keep = UpdateExperienceRequest {
        company: None,
        position: None,
        start_date: None,
        end_date: None,
        description: None,
        technologies: None,
        highlights: None,
    };
    let kept = update_experience(&mut repo, &id, keep, &user).unwrap();
    assert_eq!(kept.end_date, Some("2023-06".to_string()));

    // an explicit clear marks the position current again
    let clear = UpdateExperienceRequest {
        company: None,
        position: None,
        start_date: None,
        end_date: Some(None),
        description: None,
        technologies: None,
        highlights: None,
    };
    let cleared = update_experience(&mut repo, &id, clear, &user).unwrap();
    assert_eq!(cleared.end_date, None);
    let stored = get_experience_by_id(&repo, &id).unwrap();
    assert_eq!(stored.end_date, None);
}

#[test]
fn listings_come_back_in_their_stored_orders() {
    let user = admin();

    // projects: newest year first
    let mut projects = ProjectRepository::new();
    for year in [2021, 2025, 2023] {
        let req = CreateProjectRequest {
            title: format!("p{}", year),
            description: "d".to_string(),
            technologies: vec![],
            github_url: None,
            live_url: None,
            image_url: None,
            year,
            highlights: vec![],
        };
        create_project(&mut projects, req, &user).unwrap();
    }
    let listed = get_all_projects(&projects);
    let years: Vec<i32> = listed.iter().map(|p| p.year).collect();
    assert_eq!(years, vec![2025, 2023, 2021]);

    // skills: categories alphabetically
    let mut skills = SkillRepository::new();
    for cat in ["Frontend", "Backend", "Tooling"] {
        skills
            .create(Skill { category: cat.to_string(), items: vec![] })
            .unwrap();
    }
    let listed = get_all_skills(&skills);
    let cats: Vec<String> = listed.into_iter().map(|s| s.category).collect();
    assert_eq!(
        cats,
        vec!["Backend".to_string(), "Frontend".to_string(), "Tooling".to_string()]
    );

    // contact messages: newest first
    let mut contacts = ContactRepository::new();
    for (name, at) in [("First", 100), ("Third", 300), ("Second", 200)] {
        submit_contact_form(
            &mut contacts,
            name,
            "someone@example.com",
            "a long enough message",
            at,
        )
        .unwrap();
    }
    let listed = get_all_messages(&contacts, &user);
    let names: Vec<String> = listed.into_iter().map(|m| m.name).collect();
    assert_eq!(
        names,
        vec!["Third".to_string(), "Second".to_string(), "First".to_string()]
    );
}

#[test]
fn post_round_trip_through_rows() {
    let mut repo = PostRepository::new();
    let post = Post::new(
        "Title".to_string(),
        "2025-04-10".to_string(),
        vec!["Rust".to_string(), "Web".to_string(), "Rust".to_string()],
        "excerpt".to_string(),
        "# Heading\n\nbody with \"quotes\"".to_string(),
    );
    let id = post.id.clone();
    let stored = repo.create(post).unwrap();
    let fetched = repo.find_by_id(&id).unwrap();
    assert_eq!(stored, fetched);
}

#[test]
fn profile_partial_update_keeps_omitted_fields() {
    let mut repo = ProfileRepository::new();
    let user = admin();
    let first = UpdateProfileRequest {
        bio: Some(vec!["first paragraph".to_string(), "second".to_string()]),
        social_links: Some(vec![SocialLink {
            title: "GitHub".to_string(),
            url: "https://github.com/someone".to_string(),
            icon: "github".to_string(),
        }]),
        education: None,
        languages: None,
    };
    let p1 = update_profile(&mut repo, first, &user).unwrap();
    assert_eq!(p1.bio.len(), 2);
    assert_eq!(p1.education.len(), 0);

    // omitting bio keeps it; setting social_links to empty clears them
    let second = UpdateProfileRequest {
        bio: None,
        social_links: Some(vec![]),
        education: None,
        languages: None,
    };
    let p2 = update_profile(&mut repo, second, &user).unwrap();
    assert_eq!(p2.bio, vec!["first paragraph".to_string(), "second".to_string()]);
    assert_eq!(p2.social_links.len(), 0);

    let read = get_profile(&repo).unwrap();
    assert_eq!(read, p2);
}

#[test]
fn profile_read_before_any_write_is_not_found() {
    let repo = ProfileRepository::new();
    match get_profile(&repo) {
        Err(AppError::NotFoundError(_)) => {},
        other => panic!("expected a not-found error, got {:?}", other),
    }
}

#[test]
fn skills_addressed_by_category() {
    let mut repo = SkillRepository::new();
    let user = admin();
    // seed through the repository under the positional id convention
    let skill = Skill {
        category: "Backend".to_string(),
        items: vec!["Rust".to_string(), "SQL".to_string()],
    };
    repo.create(skill).unwrap();
    let got = get_skill_by_category(&repo, &"Backend".to_string()).unwrap();
    assert_eq!(got.items, vec!["Rust".to_string(), "SQL".to_string()]);

    match get_skill_by_category(&repo, &"Frontend".to_string()) {
        Err(AppError::NotFoundError(_)) => {},
        other => panic!("expected a not-found error, got {:?}", other),
    }

    match update_skill(
        &mut repo,
        &"Frontend".to_string(),
        UpdateSkillRequest { category: None, items: None },
        &user,
    ) {
        Err(AppError::NotFoundError(_)) => {},
        other => panic!("expected a not-found error, got {:?}", other),
    }
}
