//! Storage for skill categories: row shape, row/entity mapping with its
//! proved round-trip, and the repository operations. Skills carry no id of
//! their own; the repository generates one on creation.

use vstd::prelude::*;
use crate::columns::{
    decode_strings_col, decode_strings_col_spec, encode_strings_col, lemma_strings_col_roundtrip,
    strings_col,
};
use crate::error::AppError;
use crate::ids::generate_id;
use crate::models::{Skill, SkillV};
use crate::project_repository::{col_or_empty, empty_strings};
use crate::order::{is_reordering, lex_le, sort_indices_str};
use crate::store::{key_index, lemma_lookup_update, lookup, KeyedTable};

verus! {

/// A stored skill row; `items` is a JSON text column.
pub struct SkillRow {
    pub category: String,
    pub items: String,
}

pub ghost struct SkillRowV {
    pub category: Seq<char>,
    pub items: Seq<char>,
}

impl View for SkillRow {
    type V = SkillRowV;

    open spec fn view(&self) -> SkillRowV {
        SkillRowV { category: self.category@, items: self.items@ }
    }
}

/// The entity a stored row is read as.
pub open spec fn skill_of_row(r: SkillRowV) -> SkillV {
    SkillV {
        category: r.category,
        items: col_or_empty(decode_strings_col_spec(r.items)),
    }
}

/// The row a skill is written as.
pub open spec fn row_of_skill(p: SkillV) -> SkillRowV {
    SkillRowV { category: p.category, items: strings_col(p.items) }
}

/// Round-trip: reading back a written row gives the skill unchanged.
pub proof fn law_skill_round_trip(p: SkillV)
    ensures
        skill_of_row(row_of_skill(p)) == p,
{
    lemma_strings_col_roundtrip(p.items);
}

/// Writes a skill as a row.
pub fn skill_row(p: &Skill) -> (r: SkillRow)
    ensures
        r@ == row_of_skill(p@),
{
    SkillRow { category: p.category.clone(), items: encode_strings_col(&p.items) }
}

/// Reads a row back as its entity.
pub fn skill_from_row(r: &SkillRow) -> (p: Skill)
    ensures
        p@ == skill_of_row(r@),
{
    let items = match decode_strings_col(r.items.as_str()) {
        Some(l) => l,
        None => empty_strings(),
    };
    Skill { category: r.category.clone(), items }
}

/// The skill table.
pub struct SkillRepository {
    pub table: KeyedTable<SkillRow>,
}

impl SkillRepository {
    pub open spec fn wf(&self) -> bool {
        self.table.wf()
    }

    pub open spec fn spec_find(&self, id: Seq<char>) -> Option<SkillV> {
        match lookup(self.table@, id) {
            Some(row) => Some(skill_of_row(row@)),
            None => None,
        }
    }

    pub fn new() -> (r: SkillRepository)
        ensures
            r.wf(),
            r.table@ =~= Seq::<(Seq<char>, SkillRow)>::empty(),
    {
        SkillRepository { table: KeyedTable::new() }
    }

    /// All stored skills, ordered by `category` first; ties keep no
    /// fixed order. The result is a reordering of the element-wise decodings.
    pub fn find_all(&self) -> (r: Vec<Skill>)
        ensures
            r@.len() == self.table@.len(),
            exists|perm: Seq<int>|
                #[trigger] is_reordering(perm, self.table@.len() as int) && forall|i: int|
                    0 <= i < r@.len() ==> (#[trigger] r@[i])@ == skill_of_row(self.table@[perm[i]].1@),
            forall|i: int, j: int|
                0 <= i <= j < r@.len() ==> lex_le(
                    (#[trigger] r@[i])@.category,
                    (#[trigger] r@[j])@.category,
                ),
    {
        let n = self.table.len();
        let mut keys: Vec<String> = Vec::new();
        let mut t: usize = 0;
        while t < n
            invariant
                t <= n,
                n == self.table@.len(),
                keys@.len() == t,
                forall|q: int|
                    0 <= q < t ==> (#[trigger] keys@[q])@ == self.table@[q].1@.category,
            decreases n - t,
        {
            proof {
                assert(self.table@[t as int] == (self.table.rows@[t as int].0@, self.table.rows@[
                t as int].1));
            }
            keys.push(self.table.rows[t].1.category.clone());
            t = t + 1;
        }
        let order = sort_indices_str(&keys, true);
        let mut r: Vec<Skill> = Vec::new();
        let mut k: usize = 0;
        while k < n
            invariant
                k <= n,
                n == self.table@.len(),
                n == keys@.len(),
                n == order@.len(),
                forall|i: int| 0 <= i < n ==> (#[trigger] order@[i]) < n,
                forall|i: int, j: int| 0 <= i < j < n ==> order@[i] != order@[j],
                forall|i: int, j: int|
                    0 <= i <= j < n ==> lex_le(
                        keys@[(#[trigger] order@[i]) as int]@,
                        keys@[(#[trigger] order@[j]) as int]@,
                    ),
                forall|q: int|
                    0 <= q < n ==> (#[trigger] keys@[q])@ == self.table@[q].1@.category,
                r@.len() == k,
                forall|q: int|
                    0 <= q < k ==> (#[trigger] r@[q])@ == skill_of_row(self.table@[order@[q] as int].1@),
            decreases n - k,
        {
            let idx = order[k];
            proof {
                assert(self.table@[idx as int] == (self.table.rows@[idx as int].0@,
                    self.table.rows@[idx as int].1));
            }
            let row = &self.table.rows[idx];
            let p = skill_from_row(&row.1);
            r.push(p);
            k = k + 1;
        }
        proof {
            let perm = Seq::new(n as nat, |i: int| order@[i] as int);
            assert(is_reordering(perm, self.table@.len() as int));
            assert forall|i: int|
                0 <= i < r@.len() implies (#[trigger] r@[i])@ == skill_of_row(self.table@[perm[i]].1@) by {}
            assert forall|i: int, j: int|
                0 <= i <= j < r@.len() implies lex_le(
                (#[trigger] r@[i])@.category,
                (#[trigger] r@[j])@.category,
            ) by {
                assert(r@[i]@.category == keys@[order@[i] as int]@);
                assert(r@[j]@.category == keys@[order@[j] as int]@);
            }
        }
        r
    }

    /// The skill stored under `id`, or nothing; an absent id is not an error.
    pub fn find_by_id(&self, id: &String) -> (r: Option<Skill>)
        ensures
            match r {
                Some(p) => self.spec_find(id@) == Some(p@),
                None => self.spec_find(id@) is None,
            },
    {
        match self.table.get(id) {
            Some(row) => Some(skill_from_row(row)),
            None => None,
        }
    }

    /// Stores a new skill under a freshly generated id and returns the skill
    /// unchanged; should the generated id collide, nothing changes and a
    /// storage error is returned.
    pub fn create(&mut self, item: Skill) -> (r: Result<Skill, AppError>)
        requires
            old(self).wf(),
        ensures
            final (self).wf(),
            match r {
                Ok(p) => {
                    &&& p@ == item@
                    &&& final (self).table@.len() == old(self).table@.len() + 1
                    &&& final (self).table@.take(old(self).table@.len() as int) == old(
                        self,
                    ).table@
                    &&& skill_of_row(final (self).table@.last().1@) == item@
                    &&& lookup(old(self).table@, final (self).table@.last().0) is None
                },
                Err(e) => {
                    &&& final (self).table@ == old(self).table@
                    &&& old(self).table@.len() > 0
                    &&& e is DatabaseError
                },
            },
    {
        let id = generate_id();
        let row = skill_row(&item);
        let ghost grow = row;
        let ghost gid = id@;
        let inserted = self.table.insert_new(id, row);
        if inserted {
            proof {
                assert(self.table@.take(old(self).table@.len() as int) =~= old(self).table@);
                assert(self.table@.last() == (gid, grow));
                law_skill_round_trip(item@);
            }
            Ok(item)
        } else {
            proof {
                assert(lookup(old(self).table@, gid) is Some);
                assert(old(self).table@.len() > 0);
            }
            Err(AppError::DatabaseError("duplicate id".to_owned()))
        }
    }

    /// Overwrites the row stored under `id`, keeping the key; an absent id is
    /// a silent no-op. Returns the values as given.
    pub fn update(&mut self, id: &String, item: Skill) -> (r: Skill)
        requires
            old(self).wf(),
        ensures
            final (self).wf(),
            r@ == item@,
            old(self).spec_find(id@) is Some ==> {
                &&& final (self).spec_find(id@) == Some(skill_of_row(row_of_skill(item@)))
                &&& forall|k: Seq<char>|
                    k != id@ ==> #[trigger] final (self).spec_find(k) == old(self).spec_find(k)
            },
            old(self).spec_find(id@) is None ==> final (self).table@ == old(self).table@,
    {
        let row = skill_row(&item);
        let ghost grow = row;
        let updated = self.table.update_row(id, row);
        proof {
            if lookup(old(self).table@, id@) is Some {
                assert(self.table@ == old(self).table@.update(
                    key_index(old(self).table@, id@),
                    (id@, grow),
                ));
                assert forall|k: Seq<char>| #[trigger]
                    lookup(self.table@, k) == (if k == id@ {
                        Some(grow)
                    } else {
                        lookup(old(self).table@, k)
                    }) by {
                    lemma_lookup_update(old(self).table@, id@, grow, k);
                }
            }
        }
        item
    }

    /// Removes the skill stored under `id`; reports whether anything was
    /// removed.
    pub fn delete(&mut self, id: &String) -> (r: bool)
        requires
            old(self).wf(),
        ensures
            final (self).wf(),
            r == (old(self).spec_find(id@) is Some),
            final (self).spec_find(id@) is None,
            forall|k: Seq<char>|
                k != id@ ==> #[trigger] final (self).spec_find(k) == old(self).spec_find(k),
    {
        let deleted = self.table.delete_row(id);
        proof {
            if lookup(old(self).table@, id@) is Some {
                assert forall|k: Seq<char>| #[trigger]
                    lookup(self.table@, k) == (if k == id@ {
                        None::<SkillRow>
                    } else {
                        lookup(old(self).table@, k)
                    }) by {
                    crate::store::lemma_lookup_remove(old(self).table@, id@, k);
                }
            }
        }
        deleted
    }
}

} // verus!
