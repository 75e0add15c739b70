//! The skill endpoints: skills are addressed by category; update and delete
//! translate the category's position into the positional id convention the
//! store is assumed to follow.

use vstd::prelude::*;
use crate::auth::AuthenticatedUser;
use crate::error::AppError;
use crate::json::{dec_rep, push_dec_usize};
use crate::order::{is_reordering, lex_le};
use crate::models::{CreateSkillRequest, Skill, SkillV, UpdateSkillRequest};
use crate::skill_repository::{law_skill_round_trip, skill_of_row, SkillRepository, SkillRow};
use vstd::string::StringExecFns;

verus! {

/// The position of the first stored skill with the given category, or the
/// table length.
pub open spec fn skill_cat_pos(rows: Seq<(Seq<char>, SkillRow)>, cat: Seq<char>) -> int
    decreases rows.len(),
{
    if rows.len() == 0 {
        0
    } else if skill_of_row(rows[0].1@).category == cat {
        0
    } else {
        1 + skill_cat_pos(rows.drop_first(), cat)
    }
}

pub proof fn lemma_skill_cat_pos(rows: Seq<(Seq<char>, SkillRow)>, cat: Seq<char>)
    ensures
        0 <= skill_cat_pos(rows, cat) <= rows.len(),
        skill_cat_pos(rows, cat) < rows.len() ==> skill_of_row(
            rows[skill_cat_pos(rows, cat)].1@,
        ).category == cat,
        forall|i: int|
            0 <= i < skill_cat_pos(rows, cat) ==> skill_of_row(
                (#[trigger] rows[i]).1@,
            ).category != cat,
    decreases rows.len(),
{
    if rows.len() > 0 && skill_of_row(rows[0].1@).category != cat {
        lemma_skill_cat_pos(rows.drop_first(), cat);
        assert forall|i: int|
            0 <= i < skill_cat_pos(rows, cat) implies skill_of_row(
            (#[trigger] rows[i]).1@,
        ).category != cat by {
            if i >= 1 {
                assert(rows.drop_first()[i - 1] == rows[i]);
            }
        }
        if skill_cat_pos(rows, cat) < rows.len() {
            assert(rows.drop_first()[skill_cat_pos(rows.drop_first(), cat)] == rows[
            skill_cat_pos(rows, cat)]);
        }
    }
}

/// The positional id the original store uses for the row at `pos`.
pub open spec fn skill_index_id(pos: int) -> Seq<char> {
    "skill-"@ + dec_rep(pos + 1)
}

fn make_skill_index_id(pos: usize) -> (r: String)
    requires
        pos < usize::MAX,
    ensures
        r@ == skill_index_id(pos as int),
{
    let mut out = String::new();
    out.append("skill-");
    push_dec_usize(&mut out, pos + 1);
    proof {
        assert(out@ =~= skill_index_id(pos as int));
    }
    out
}

/// The partial-update semantics: a present field replaces the stored value.
pub open spec fn skill_update(e: SkillV, req: UpdateSkillRequest) -> SkillV {
    SkillV {
        category: match req.category {
            Some(t) => t@,
            None => e.category,
        },
        items: match req.items {
            Some(t) => t.deep_view(),
            None => e.items,
        },
    }
}

/// Applying the same update twice gives what applying it once gives.
pub proof fn law_skill_update_idempotent(e: SkillV, req: UpdateSkillRequest)
    ensures
        skill_update(skill_update(e, req), req) == skill_update(e, req),
{
}

/// Lists every skill category, alphabetically.
pub fn get_all_skills(repo: &SkillRepository) -> (r: Vec<Skill>)
    ensures
        r@.len() == repo.table@.len(),
        exists|perm: Seq<int>|
            #[trigger] is_reordering(perm, repo.table@.len() as int) && forall|i: int|
                0 <= i < r@.len() ==> (#[trigger] r@[i])@ == skill_of_row(
                    repo.table@[perm[i]].1@,
                ),
        forall|i: int, j: int|
            0 <= i <= j < r@.len() ==> lex_le(
                (#[trigger] r@[i])@.category,
                (#[trigger] r@[j])@.category,
            ),
{
    repo.find_all()
}

/// Finds the position of the first stored skill with the given category.
fn find_skill_pos(repo: &SkillRepository, category: &String) -> (r: Option<(usize, Skill)>)
    ensures
        match r {
            Some(p) => {
                &&& p.0 < repo.table@.len()
                &&& p.0 < usize::MAX
                &&& p.0 == skill_cat_pos(repo.table@, category@)
                &&& p.1@ == skill_of_row(repo.table@[p.0 as int].1@)
            },
            None => skill_cat_pos(repo.table@, category@) == repo.table@.len(),
        },
{
    let n = repo.table.len();
    let mut i: usize = 0;
    while i < n
        invariant
            i <= n,
            n == repo.table@.len(),
            forall|q: int|
                0 <= q < i ==> skill_of_row((#[trigger] repo.table@[q]).1@).category
                    != category@,
        decreases n - i,
    {
        proof {
            assert(repo.table@[i as int] == (repo.table.rows@[i as int].0@, repo.table.rows@[
            i as int].1));
        }
        let s = crate::skill_repository::skill_from_row(&repo.table.rows[i].1);
        if s.category.eq(category) {
            proof {
                lemma_skill_cat_pos(repo.table@, category@);
                if skill_cat_pos(repo.table@, category@) < i {
                    assert(skill_of_row(
                        repo.table@[skill_cat_pos(repo.table@, category@)].1@,
                    ).category != category@);
                }
                if skill_cat_pos(repo.table@, category@) > i {
                    assert(skill_of_row(repo.table@[i as int].1@).category != category@);
                }
            }
            return Some((i, s));
        }
        i = i + 1;
    }
    proof {
        lemma_skill_cat_pos(repo.table@, category@);
        if skill_cat_pos(repo.table@, category@) < n {
            assert(skill_of_row(
                repo.table@[skill_cat_pos(repo.table@, category@)].1@,
            ).category != category@);
        }
    }
    None
}

/// Fetches the first skill of a category; an unknown category is a not-found
/// response.
pub fn get_skill_by_category(repo: &SkillRepository, category: &String) -> (r: Result<
    Skill,
    AppError,
>)
    ensures
        match r {
            Ok(s) => skill_cat_pos(repo.table@, category@) < repo.table@.len() && s@
                == skill_of_row(repo.table@[skill_cat_pos(repo.table@, category@)].1@),
            Err(e) => skill_cat_pos(repo.table@, category@) == repo.table@.len() && e
                is NotFoundError,
        },
{
    match find_skill_pos(repo, category) {
        Some((pos, s)) => Ok(s),
        None => Err(AppError::NotFoundError("Skill category not found".to_owned())),
    }
}

/// Creates a skill category under a fresh id; needs an authenticated caller.
pub fn create_skill(repo: &mut SkillRepository, req: CreateSkillRequest, _user: &AuthenticatedUser)
    -> (r: Result<Skill, AppError>)
    requires
        old(repo).wf(),
    ensures
        final (repo).wf(),
        match r {
            Ok(s) => {
                &&& s@.category == req.category@
                &&& s@.items == req.items.deep_view()
                &&& final (repo).table@.len() == old(repo).table@.len() + 1
                &&& final (repo).table@.take(old(repo).table@.len() as int) == old(repo).table@
                &&& skill_of_row(final (repo).table@.last().1@) == s@
                &&& crate::store::lookup(old(repo).table@, final (repo).table@.last().0) is None
            },
            Err(e) => {
                &&& e is InternalError
                &&& old(repo).table@.len() > 0
                &&& final (repo).table@ == old(repo).table@
            },
        },
{
    let skill = Skill { category: req.category, items: req.items };
    match repo.create(skill) {
        Ok(s) => Ok(s),
        Err(_) => Err(AppError::InternalError("Failed to create skill category".to_owned())),
    }
}

/// Partially updates the first skill of a category, writing it back under
/// the positional id; an unknown category is a not-found response. Needs an
/// authenticated caller.
pub fn update_skill(
    repo: &mut SkillRepository,
    category: &String,
    req: UpdateSkillRequest,
    _user: &AuthenticatedUser,
) -> (r: Result<Skill, AppError>)
    requires
        old(repo).wf(),
    ensures
        final (repo).wf(),
        ({
            let pos = skill_cat_pos(old(repo).table@, category@);
            let sid = skill_index_id(pos);
            if pos == old(repo).table@.len() {
                r matches Err(e) && e is NotFoundError && final (repo).table@ == old(
                    repo,
                ).table@
            } else {
                let merged = skill_update(skill_of_row(old(repo).table@[pos].1@), req);
                &&& r matches Ok(s) && s@ == merged
                &&& old(repo).spec_find(sid) is Some ==> final (repo).spec_find(sid) == Some(
                    merged,
                ) && (forall|k: Seq<char>|
                    k != sid ==> #[trigger] final (repo).spec_find(k) == old(repo).spec_find(k))
                &&& old(repo).spec_find(sid) is None ==> final (repo).table@ == old(repo).table@
            }
        }),
{
    let found = match find_skill_pos(repo, category) {
        Some(p) => p,
        None => { return Err(AppError::NotFoundError("Skill category not found".to_owned())); },
    };
    let (pos, existing) = found;
    let merged = Skill {
        category: match req.category {
            Some(t) => t,
            None => existing.category,
        },
        items: match req.items {
            Some(t) => t,
            None => existing.items,
        },
    };
    proof {
        law_skill_round_trip(merged@);
    }
    let id = make_skill_index_id(pos);
    let result = repo.update(&id, merged);
    Ok(result)
}

/// Deletes the first skill of a category through the positional id; an
/// unknown category is a not-found response. Needs an authenticated caller.
pub fn delete_skill(repo: &mut SkillRepository, category: &String, _user: &AuthenticatedUser) -> (r:
    Result<(), AppError>)
    requires
        old(repo).wf(),
    ensures
        final (repo).wf(),
        ({
            let pos = skill_cat_pos(old(repo).table@, category@);
            let sid = skill_index_id(pos);
            if pos == old(repo).table@.len() {
                r matches Err(e) && e is NotFoundError && final (repo).table@ == old(
                    repo,
                ).table@
            } else {
                &&& r is Ok
                &&& final (repo).spec_find(sid) is None
                &&& forall|k: Seq<char>|
                    k != sid ==> #[trigger] final (repo).spec_find(k) == old(repo).spec_find(k)
            }
        }),
{
    let found = match find_skill_pos(repo, category) {
        Some(p) => p,
        None => { return Err(AppError::NotFoundError("Skill category not found".to_owned())); },
    };
    let (pos, _existing) = found;
    let id = make_skill_index_id(pos);
    let deleted = repo.delete(&id);
    Ok(())
}

} // verus!
