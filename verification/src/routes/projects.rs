//! The project endpoints: list, fetch, create, partial update, delete.

use vstd::prelude::*;
use crate::auth::AuthenticatedUser;
use crate::error::AppError;
use crate::models::{CreateProjectRequest, Project, ProjectV, UpdateProjectRequest};
use crate::order::is_reordering;
use crate::project_repository::{
    law_project_round_trip, project_of_row, ProjectRepository,
};

verus! {

/// The partial-update semantics: a present field replaces the stored value,
/// an absent one keeps it. The optional link fields can be set but never
/// cleared, as a PUT with them absent keeps what is stored.
pub open spec fn project_update(e: ProjectV, req: UpdateProjectRequest) -> ProjectV {
    ProjectV {
        id: e.id,
        title: match req.title {
            Some(t) => t@,
            None => e.title,
        },
        description: match req.description {
            Some(t) => t@,
            None => e.description,
        },
        technologies: match req.technologies {
            Some(t) => t.deep_view(),
            None => e.technologies,
        },
        github_url: match req.github_url {
            Some(t) => Some(t@),
            None => e.github_url,
        },
        live_url: match req.live_url {
            Some(t) => Some(t@),
            None => e.live_url,
        },
        image_url: match req.image_url {
            Some(t) => Some(t@),
            None => e.image_url,
        },
        image_urls: e.image_urls,
        year: match req.year {
            Some(y) => y as int,
            None => e.year,
        },
        highlights: match req.highlights {
            Some(t) => t.deep_view(),
            None => e.highlights,
        },
    }
}

/// Applying the same update twice gives what applying it once gives: the
/// second pass replaces each field with the same value or keeps it.
pub proof fn law_project_update_idempotent(e: ProjectV, req: UpdateProjectRequest)
    ensures
        project_update(project_update(e, req), req) == project_update(e, req),
{
}

/// Lists every project, newest year first.
pub fn get_all_projects(repo: &ProjectRepository) -> (r: Vec<Project>)
    ensures
        r@.len() == repo.table@.len(),
        exists|perm: Seq<int>|
            #[trigger] is_reordering(perm, repo.table@.len() as int) && forall|i: int|
                0 <= i < r@.len() ==> (#[trigger] r@[i])@ == project_of_row(
                    repo.table@[perm[i]].0,
                    repo.table@[perm[i]].1@,
                ),
        forall|i: int, j: int|
            0 <= i <= j < r@.len() ==> (#[trigger] r@[i])@.year >= (#[trigger] r@[j])@.year,
{
    repo.find_all()
}

/// Fetches one project; an absent id is a not-found response.
pub fn get_project_by_id(repo: &ProjectRepository, id: &String) -> (r: Result<Project, AppError>)
    ensures
        match r {
            Ok(p) => repo.spec_find(id@) == Some(p@),
            Err(e) => repo.spec_find(id@) is None && e is NotFoundError,
        },
{
    match repo.find_by_id(id) {
        Some(p) => Ok(p),
        None => Err(AppError::NotFoundError("Project not found".to_owned())),
    }
}

/// Creates a project under a fresh id; needs an authenticated caller.
pub fn create_project(
    repo: &mut ProjectRepository,
    req: CreateProjectRequest,
    _user: &AuthenticatedUser,
) -> (r: Result<Project, AppError>)
    requires
        old(repo).wf(),
    ensures
        final (repo).wf(),
        match r {
            Ok(p) => {
                &&& p@.title == req.title@
                &&& p@.description == req.description@
                &&& p@.technologies == req.technologies.deep_view()
                &&& p@.github_url == req.github_url.deep_view()
                &&& p@.live_url == req.live_url.deep_view()
                &&& p@.image_url == req.image_url.deep_view()
                &&& p@.image_urls is None
                &&& p@.year == req.year as int
                &&& p@.highlights == req.highlights.deep_view()
                &&& p@.id.len() == 36
                &&& old(repo).spec_find(p@.id) is None
                &&& final (repo).spec_find(p@.id) == Some(p@)
                &&& forall|k: Seq<char>|
                    k != p@.id ==> #[trigger] final (repo).spec_find(k) == old(repo).spec_find(k)
            },
            Err(e) => {
                &&& e is InternalError
                &&& old(repo).table@.len() > 0
                &&& final (repo).table@ == old(repo).table@
            },
        },
{
    let project = Project::new(
        req.title,
        req.description,
        req.technologies,
        req.github_url,
        req.live_url,
        req.image_url,
        None,
        req.year,
        req.highlights,
    );
    let ghost pid = project.id@;
    match repo.create(project) {
        Ok(p) => Ok(p),
        Err(_) => {
            proof {
                assert(old(repo).spec_find(pid) is Some);
                assert(old(repo).table@.len() > 0);
            }
            Err(AppError::InternalError("Failed to create project".to_owned()))
        },
    }
}

/// Partially updates a project: absent request fields keep the stored
/// values; an absent id is a not-found response and changes nothing. Needs
/// an authenticated caller.
pub fn update_project(
    repo: &mut ProjectRepository,
    id: &String,
    req: UpdateProjectRequest,
    _user: &AuthenticatedUser,
) -> (r: Result<Project, AppError>)
    requires
        old(repo).wf(),
    ensures
        final (repo).wf(),
        match old(repo).spec_find(id@) {
            Some(e) => {
                &&& r matches Ok(p) && p@ == project_update(e, req)
                &&& final (repo).spec_find(id@) == Some(project_update(e, req))
                &&& forall|k: Seq<char>|
                    k != id@ ==> #[trigger] final (repo).spec_find(k) == old(repo).spec_find(k)
            },
            None => {
                &&& r matches Err(e) && e is NotFoundError
                &&& final (repo).table@ == old(repo).table@
            },
        },
{
    let existing = match repo.find_by_id(id) {
        Some(p) => p,
        None => { return Err(AppError::NotFoundError("Project not found".to_owned())); },
    };
    let merged = Project {
        id: existing.id,
        title: match req.title {
            Some(t) => t,
            None => existing.title,
        },
        description: match req.description {
            Some(t) => t,
            None => existing.description,
        },
        technologies: match req.technologies {
            Some(t) => t,
            None => existing.technologies,
        },
        github_url: match req.github_url {
            Some(t) => Some(t),
            None => existing.github_url,
        },
        live_url: match req.live_url {
            Some(t) => Some(t),
            None => existing.live_url,
        },
        image_url: match req.image_url {
            Some(t) => Some(t),
            None => existing.image_url,
        },
        image_urls: existing.image_urls,
        year: match req.year {
            Some(y) => y,
            None => existing.year,
        },
        highlights: match req.highlights {
            Some(t) => t,
            None => existing.highlights,
        },
    };
    proof {
        law_project_round_trip(merged@);
    }
    let result = repo.update(id, merged);
    Ok(result)
}

/// Deletes a project; an absent id is a not-found response and changes
/// nothing. Needs an authenticated caller.
pub fn delete_project(repo: &mut ProjectRepository, id: &String, _user: &AuthenticatedUser) -> (r:
    Result<(), AppError>)
    requires
        old(repo).wf(),
    ensures
        final (repo).wf(),
        match r {
            Ok(u) => {
                &&& old(repo).spec_find(id@) is Some
                &&& final (repo).spec_find(id@) is None
                &&& forall|k: Seq<char>|
                    k != id@ ==> #[trigger] final (repo).spec_find(k) == old(repo).spec_find(k)
            },
            Err(e) => {
                &&& e is NotFoundError
                &&& old(repo).spec_find(id@) is None
                &&& final (repo).table@ == old(repo).table@
            },
        },
{
    let exists = match repo.find_by_id(id) {
        Some(_) => true,
        None => false,
    };
    if !exists {
        return Err(AppError::NotFoundError("Project not found".to_owned()));
    }
    let deleted = repo.delete(id);
    Ok(())
}

} // verus!
