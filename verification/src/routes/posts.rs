//! The blog-post endpoints: list, fetch, create, partial update, delete.

use vstd::prelude::*;
use crate::auth::AuthenticatedUser;
use crate::error::AppError;
use crate::models::{CreatePostRequest, Post, PostV, UpdatePostRequest};
use crate::order::{is_reordering, lex_le};
use crate::post_repository::{law_post_round_trip, post_of_row, PostRepository};

verus! {

/// The partial-update semantics: a present field replaces the stored value,
/// an absent one keeps it.
pub open spec fn post_update(e: PostV, req: UpdatePostRequest) -> PostV {
    PostV {
        id: e.id,
        title: match req.title {
            Some(t) => t@,
            None => e.title,
        },
        date: match req.date {
            Some(t) => t@,
            None => e.date,
        },
        tags: match req.tags {
            Some(t) => t.deep_view(),
            None => e.tags,
        },
        excerpt: match req.excerpt {
            Some(t) => t@,
            None => e.excerpt,
        },
        content: match req.content {
            Some(t) => t@,
            None => e.content,
        },
    }
}

/// Applying the same update twice gives what applying it once gives.
pub proof fn law_post_update_idempotent(e: PostV, req: UpdatePostRequest)
    ensures
        post_update(post_update(e, req), req) == post_update(e, req),
{
}

/// Lists every post, newest date first.
pub fn get_all_posts(repo: &PostRepository) -> (r: Vec<Post>)
    ensures
        r@.len() == repo.table@.len(),
        exists|perm: Seq<int>|
            #[trigger] is_reordering(perm, repo.table@.len() as int) && forall|i: int|
                0 <= i < r@.len() ==> (#[trigger] r@[i])@ == post_of_row(
                    repo.table@[perm[i]].0,
                    repo.table@[perm[i]].1@,
                ),
        forall|i: int, j: int|
            0 <= i <= j < r@.len() ==> lex_le((#[trigger] r@[j])@.date, (#[trigger] r@[i])@.date),
{
    repo.find_all()
}

/// Fetches one post; an absent id is a not-found response.
pub fn get_post_by_id(repo: &PostRepository, id: &String) -> (r: Result<Post, AppError>)
    ensures
        match r {
            Ok(p) => repo.spec_find(id@) == Some(p@),
            Err(e) => repo.spec_find(id@) is None && e is NotFoundError,
        },
{
    match repo.find_by_id(id) {
        Some(p) => Ok(p),
        None => Err(AppError::NotFoundError("Post not found".to_owned())),
    }
}

/// Creates a post under a fresh id; needs an authenticated caller.
pub fn create_post(repo: &mut PostRepository, req: CreatePostRequest, _user: &AuthenticatedUser)
    -> (r: Result<Post, AppError>)
    requires
        old(repo).wf(),
    ensures
        final (repo).wf(),
        match r {
            Ok(p) => {
                &&& p@.title == req.title@
                &&& p@.date == req.date@
                &&& p@.tags == req.tags.deep_view()
                &&& p@.excerpt == req.excerpt@
                &&& p@.content == req.content@
                &&& p@.id.len() == 36
                &&& old(repo).spec_find(p@.id) is None
                &&& final (repo).spec_find(p@.id) == Some(p@)
                &&& forall|k: Seq<char>|
                    k != p@.id ==> #[trigger] final (repo).spec_find(k) == old(repo).spec_find(k)
            },
            Err(e) => {
                &&& e is InternalError
                &&& old(repo).table@.len() > 0
                &&& final (repo).table@ == old(repo).table@
            },
        },
{
    let post = Post::new(req.title, req.date, req.tags, req.excerpt, req.content);
    let ghost pid = post.id@;
    match repo.create(post) {
        Ok(p) => Ok(p),
        Err(_) => {
            proof {
                assert(old(repo).spec_find(pid) is Some);
                assert(old(repo).table@.len() > 0);
            }
            Err(AppError::InternalError("Failed to create post".to_owned()))
        },
    }
}

/// Partially updates a post; an absent id is a not-found response and
/// changes nothing. Needs an authenticated caller.
pub fn update_post(
    repo: &mut PostRepository,
    id: &String,
    req: UpdatePostRequest,
    _user: &AuthenticatedUser,
) -> (r: Result<Post, AppError>)
    requires
        old(repo).wf(),
    ensures
        final (repo).wf(),
        match old(repo).spec_find(id@) {
            Some(e) => {
                &&& r matches Ok(p) && p@ == post_update(e, req)
                &&& final (repo).spec_find(id@) == Some(post_update(e, req))
                &&& forall|k: Seq<char>|
                    k != id@ ==> #[trigger] final (repo).spec_find(k) == old(repo).spec_find(k)
            },
            None => {
                &&& r matches Err(e) && e is NotFoundError
                &&& final (repo).table@ == old(repo).table@
            },
        },
{
    let existing = match repo.find_by_id(id) {
        Some(p) => p,
        None => { return Err(AppError::NotFoundError("Post not found".to_owned())); },
    };
    let merged = Post {
        id: existing.id,
        title: match req.title {
            Some(t) => t,
            None => existing.title,
        },
        date: match req.date {
            Some(t) => t,
            None => existing.date,
        },
        tags: match req.tags {
            Some(t) => t,
            None => existing.tags,
        },
        excerpt: match req.excerpt {
            Some(t) => t,
            None => existing.excerpt,
        },
        content: match req.content {
            Some(t) => t,
            None => existing.content,
        },
    };
    proof {
        law_post_round_trip(merged@);
    }
    let result = repo.update(id, merged);
    Ok(result)
}

/// Deletes a post; an absent id is a not-found response and changes nothing.
/// Needs an authenticated caller.
pub fn delete_post(repo: &mut PostRepository, id: &String, _user: &AuthenticatedUser) -> (r:
    Result<(), AppError>)
    requires
        old(repo).wf(),
    ensures
        final (repo).wf(),
        match r {
            Ok(u) => {
                &&& old(repo).spec_find(id@) is Some
                &&& final (repo).spec_find(id@) is None
                &&& forall|k: Seq<char>|
                    k != id@ ==> #[trigger] final (repo).spec_find(k) == old(repo).spec_find(k)
            },
            Err(e) => {
                &&& e is NotFoundError
                &&& old(repo).spec_find(id@) is None
                &&& final (repo).table@ == old(repo).table@
            },
        },
{
    let exists = match repo.find_by_id(id) {
        Some(_) => true,
        None => false,
    };
    if !exists {
        return Err(AppError::NotFoundError("Post not found".to_owned()));
    }
    let deleted = repo.delete(id);
    Ok(())
}

} // verus!
