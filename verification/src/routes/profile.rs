//! The profile endpoints: the singleton read and the lazily-creating partial
//! update.

use vstd::prelude::*;
use crate::auth::AuthenticatedUser;
use crate::error::AppError;
use crate::models::{Profile, ProfileV, UpdateProfileRequest};
use crate::profile_repository::{law_profile_round_trip, profile_of_row, ProfileRepository};

verus! {

/// The partial-update semantics: a present field replaces the stored value.
pub open spec fn profile_update(e: ProfileV, req: UpdateProfileRequest) -> ProfileV {
    ProfileV {
        bio: match req.bio {
            Some(t) => t.deep_view(),
            None => e.bio,
        },
        social_links: match req.social_links {
            Some(t) => t.deep_view(),
            None => e.social_links,
        },
        education: match req.education {
            Some(t) => t.deep_view(),
            None => e.education,
        },
        languages: match req.languages {
            Some(t) => t.deep_view(),
            None => e.languages,
        },
    }
}

/// Applying the same update twice gives what applying it once gives.
pub proof fn law_profile_update_idempotent(e: ProfileV, req: UpdateProfileRequest)
    ensures
        profile_update(profile_update(e, req), req) == profile_update(e, req),
{
}

/// The profile a fresh store starts from.
pub open spec fn empty_profile_v() -> ProfileV {
    ProfileV {
        bio: Seq::empty(),
        social_links: Seq::empty(),
        education: Seq::empty(),
        languages: Seq::empty(),
    }
}

/// The fixed key the lazily created singleton row is stored under.
pub open spec fn profile_singleton_id() -> Seq<char> {
    "profile-1"@
}

/// Reads the profile: the first stored row; none at all is a not-found
/// response.
pub fn get_profile(repo: &ProfileRepository) -> (r: Result<Profile, AppError>)
    ensures
        match r {
            Ok(p) => repo.spec_first() == Some(p@),
            Err(e) => repo.spec_first() is None && e is NotFoundError,
        },
{
    let mut all = repo.find_all();
    if all.len() == 0 {
        return Err(AppError::NotFoundError("Profile not found".to_owned()));
    }
    match all.pop() {
        Some(p) => Ok(p),
        None => Err(AppError::NotFoundError("Profile not found".to_owned())),
    }
}

/// Partially updates the profile, creating the row under the fixed singleton
/// key if none exists yet. Needs an authenticated caller.
pub fn update_profile(
    repo: &mut ProfileRepository,
    req: UpdateProfileRequest,
    _user: &AuthenticatedUser,
) -> (r: Result<Profile, AppError>)
    requires
        old(repo).wf(),
    ensures
        final (repo).wf(),
        old(repo).table@.len() == 0 ==> ({
            let merged = profile_update(empty_profile_v(), req);
            &&& r matches Ok(p) && p@ == merged
            &&& final (repo).spec_first() == Some(merged)
            &&& final (repo).table@.len() == 1
            &&& final (repo).table@[0].0 == profile_singleton_id()
        }),
        old(repo).table@.len() > 0 ==> ({
            let merged = profile_update(profile_of_row(old(repo).table@[0].1@), req);
            &&& r matches Ok(p) && p@ == merged
            &&& final (repo).spec_first() == Some(merged)
            &&& final (repo).table@.len() == old(repo).table@.len()
        }),
{
    let existing: Profile;
    let profile_id: String;
    if repo.table.len() == 0 {
        let fresh = Profile {
            bio: Vec::new(),
            social_links: Vec::new(),
            education: Vec::new(),
            languages: Vec::new(),
        };
        proof {
            assert(fresh@.bio =~= Seq::<Seq<char>>::empty());
            assert(fresh@.social_links =~= Seq::<crate::models::SocialLinkV>::empty());
            assert(fresh@.education =~= Seq::<crate::models::EducationV>::empty());
            assert(fresh@.languages =~= Seq::<crate::models::LanguageV>::empty());
            assert(fresh@ == empty_profile_v());
        }
        let created = match repo.create("profile-1".to_owned(), fresh) {
            Ok(p) => p,
            Err(_) => {
                return Err(AppError::InternalError("Failed to create profile".to_owned()));
            },
        };
        existing = created;
        profile_id = "profile-1".to_owned();
        proof {
            assert(repo.table@.len() == 1);
            assert(repo.table@[0].0 == profile_singleton_id());
            crate::store::lemma_lookup_first(repo.table@, profile_singleton_id(), 0);
        }
    } else {
        let first = match repo.first_id() {
            Some(id) => id,
            None => {
                return Err(AppError::InternalError("Profile id missing".to_owned()));
            },
        };
        let found = match repo.find_by_id(&first) {
            Some(p) => p,
            None => {
                return Err(AppError::InternalError("Profile missing".to_owned()));
            },
        };
        proof {
            crate::store::lemma_lookup_first(repo.table@, first@, 0);
        }
        existing = found;
        profile_id = first;
    }
    let merged = Profile {
        bio: match req.bio {
            Some(t) => t,
            None => existing.bio,
        },
        social_links: match req.social_links {
            Some(t) => t,
            None => existing.social_links,
        },
        education: match req.education {
            Some(t) => t,
            None => existing.education,
        },
        languages: match req.languages {
            Some(t) => t,
            None => existing.languages,
        },
    };
    proof {
        law_profile_round_trip(merged@);
    }
    let result = repo.update(&profile_id, merged);
    Ok(result)
}

} // verus!
