//! The work-experience endpoints: list, fetch, create, partial update,
//! delete.

use vstd::prelude::*;
use crate::auth::AuthenticatedUser;
use crate::error::AppError;
use crate::experience_repository::{
    experience_of_row, law_experience_round_trip, ExperienceRepository,
};
use crate::order::{is_reordering, lex_le};
use crate::models::{CreateExperienceRequest, Experience, ExperienceV, UpdateExperienceRequest};

verus! {

/// The partial-update semantics: a present field replaces the stored value,
/// an absent one keeps it. `end_date` distinguishes an explicit clear, which
/// marks the position current again, from omission, which keeps what is
/// stored.
pub open spec fn experience_update(e: ExperienceV, req: UpdateExperienceRequest) -> ExperienceV {
    ExperienceV {
        id: e.id,
        company: match req.company {
            Some(t) => t@,
            None => e.company,
        },
        position: match req.position {
            Some(t) => t@,
            None => e.position,
        },
        start_date: match req.start_date {
            Some(t) => t@,
            None => e.start_date,
        },
        end_date: match req.end_date {
            Some(v) => v.deep_view(),
            None => e.end_date,
        },
        description: match req.description {
            Some(t) => t@,
            None => e.description,
        },
        technologies: match req.technologies {
            Some(t) => t.deep_view(),
            None => e.technologies,
        },
        highlights: match req.highlights {
            Some(t) => t.deep_view(),
            None => e.highlights,
        },
    }
}

/// Applying the same update twice gives what applying it once gives.
pub proof fn law_experience_update_idempotent(e: ExperienceV, req: UpdateExperienceRequest)
    ensures
        experience_update(experience_update(e, req), req) == experience_update(e, req),
{
}

/// Lists every experience, latest start first.
pub fn get_all_experiences(repo: &ExperienceRepository) -> (r: Vec<Experience>)
    ensures
        r@.len() == repo.table@.len(),
        exists|perm: Seq<int>|
            #[trigger] is_reordering(perm, repo.table@.len() as int) && forall|i: int|
                0 <= i < r@.len() ==> (#[trigger] r@[i])@ == experience_of_row(
                    repo.table@[perm[i]].0,
                    repo.table@[perm[i]].1@,
                ),
        forall|i: int, j: int|
            0 <= i <= j < r@.len() ==> lex_le(
                (#[trigger] r@[j])@.start_date,
                (#[trigger] r@[i])@.start_date,
            ),
{
    repo.find_all()
}

/// Fetches one experience; an absent id is a not-found response.
pub fn get_experience_by_id(repo: &ExperienceRepository, id: &String) -> (r: Result<
    Experience,
    AppError,
>)
    ensures
        match r {
            Ok(p) => repo.spec_find(id@) == Some(p@),
            Err(e) => repo.spec_find(id@) is None && e is NotFoundError,
        },
{
    match repo.find_by_id(id) {
        Some(p) => Ok(p),
        None => Err(AppError::NotFoundError("Experience not found".to_owned())),
    }
}

/// Creates an experience under a fresh id; needs an authenticated caller.
pub fn create_experience(
    repo: &mut ExperienceRepository,
    req: CreateExperienceRequest,
    _user: &AuthenticatedUser,
) -> (r: Result<Experience, AppError>)
    requires
        old(repo).wf(),
    ensures
        final (repo).wf(),
        match r {
            Ok(p) => {
                &&& p@.company == req.company@
                &&& p@.position == req.position@
                &&& p@.start_date == req.start_date@
                &&& p@.end_date == req.end_date.deep_view()
                &&& p@.description == req.description@
                &&& p@.technologies == req.technologies.deep_view()
                &&& p@.highlights == req.highlights.deep_view()
                &&& p@.id.len() == 36
                &&& old(repo).spec_find(p@.id) is None
                &&& final (repo).spec_find(p@.id) == Some(p@)
                &&& forall|k: Seq<char>|
                    k != p@.id ==> #[trigger] final (repo).spec_find(k) == old(repo).spec_find(k)
            },
            Err(e) => {
                &&& e is InternalError
                &&& old(repo).table@.len() > 0
                &&& final (repo).table@ == old(repo).table@
            },
        },
{
    let experience = Experience::new(
        req.company,
        req.position,
        req.start_date,
        req.end_date,
        req.description,
        req.technologies,
        req.highlights,
    );
    let ghost pid = experience.id@;
    match repo.create(experience) {
        Ok(p) => Ok(p),
        Err(_) => {
            proof {
                assert(old(repo).spec_find(pid) is Some);
                assert(old(repo).table@.len() > 0);
            }
            Err(AppError::InternalError("Failed to create experience".to_owned()))
        },
    }
}

/// Partially updates an experience; an absent id is a not-found response and
/// changes nothing. Needs an authenticated caller.
pub fn update_experience(
    repo: &mut ExperienceRepository,
    id: &String,
    req: UpdateExperienceRequest,
    _user: &AuthenticatedUser,
) -> (r: Result<Experience, AppError>)
    requires
        old(repo).wf(),
    ensures
        final (repo).wf(),
        match old(repo).spec_find(id@) {
            Some(e) => {
                &&& r matches Ok(p) && p@ == experience_update(e, req)
                &&& final (repo).spec_find(id@) == Some(experience_update(e, req))
                &&& forall|k: Seq<char>|
                    k != id@ ==> #[trigger] final (repo).spec_find(k) == old(repo).spec_find(k)
            },
            None => {
                &&& r matches Err(e) && e is NotFoundError
                &&& final (repo).table@ == old(repo).table@
            },
        },
{
    let existing = match repo.find_by_id(id) {
        Some(p) => p,
        None => { return Err(AppError::NotFoundError("Experience not found".to_owned())); },
    };
    let merged = Experience {
        id: existing.id,
        company: match req.company {
            Some(t) => t,
            None => existing.company,
        },
        position: match req.position {
            Some(t) => t,
            None => existing.position,
        },
        start_date: match req.start_date {
            Some(t) => t,
            None => existing.start_date,
        },
        end_date: match req.end_date {
            Some(v) => v,
            None => existing.end_date,
        },
        description: match req.description {
            Some(t) => t,
            None => existing.description,
        },
        technologies: match req.technologies {
            Some(t) => t,
            None => existing.technologies,
        },
        highlights: match req.highlights {
            Some(t) => t,
            None => existing.highlights,
        },
    };
    proof {
        law_experience_round_trip(merged@);
    }
    let result = repo.update(id, merged);
    Ok(result)
}

/// Deletes an experience; an absent id is a not-found response and changes
/// nothing. Needs an authenticated caller.
pub fn delete_experience(
    repo: &mut ExperienceRepository,
    id: &String,
    _user: &AuthenticatedUser,
) -> (r: Result<(), AppError>)
    requires
        old(repo).wf(),
    ensures
        final (repo).wf(),
        match r {
            Ok(u) => {
                &&& old(repo).spec_find(id@) is Some
                &&& final (repo).spec_find(id@) is None
                &&& forall|k: Seq<char>|
                    k != id@ ==> #[trigger] final (repo).spec_find(k) == old(repo).spec_find(k)
            },
            Err(e) => {
                &&& e is NotFoundError
                &&& old(repo).spec_find(id@) is None
                &&& final (repo).table@ == old(repo).table@
            },
        },
{
    let exists = match repo.find_by_id(id) {
        Some(_) => true,
        None => false,
    };
    if !exists {
        return Err(AppError::NotFoundError("Experience not found".to_owned()));
    }
    let deleted = repo.delete(id);
    Ok(())
}

} // verus!
