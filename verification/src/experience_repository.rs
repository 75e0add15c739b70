//! Storage for work experiences: row shape, row/entity mapping with its
//! proved round-trip, and the repository operations.

use vstd::prelude::*;
use crate::columns::{
    decode_strings_col, decode_strings_col_spec, encode_strings_col, lemma_strings_col_roundtrip,
    strings_col,
};
use crate::error::AppError;
use crate::models::{Experience, ExperienceV};
use crate::project_repository::{col_or_empty, empty_strings};
use crate::order::{is_reordering, lex_le, sort_indices_str};
use crate::store::{key_index, lemma_lookup_push, lemma_lookup_update, lookup, KeyedTable};

verus! {

/// A stored experience row; the list-valued fields are JSON text columns and
/// a missing `end_date` marks a current position. The id is the table key.
pub struct ExperienceRow {
    pub company: String,
    pub position: String,
    pub start_date: String,
    pub end_date: Option<String>,
    pub description: String,
    pub technologies: String,
    pub highlights: String,
}

pub ghost struct ExperienceRowV {
    pub company: Seq<char>,
    pub position: Seq<char>,
    pub start_date: Seq<char>,
    pub end_date: Option<Seq<char>>,
    pub description: Seq<char>,
    pub technologies: Seq<char>,
    pub highlights: Seq<char>,
}

impl View for ExperienceRow {
    type V = ExperienceRowV;

    open spec fn view(&self) -> ExperienceRowV {
        ExperienceRowV {
            company: self.company@,
            position: self.position@,
            start_date: self.start_date@,
            end_date: self.end_date.deep_view(),
            description: self.description@,
            technologies: self.technologies@,
            highlights: self.highlights@,
        }
    }
}

/// The entity a stored row is read as, under the given key.
pub open spec fn experience_of_row(id: Seq<char>, r: ExperienceRowV) -> ExperienceV {
    ExperienceV {
        id: id,
        company: r.company,
        position: r.position,
        start_date: r.start_date,
        end_date: r.end_date,
        description: r.description,
        technologies: col_or_empty(decode_strings_col_spec(r.technologies)),
        highlights: col_or_empty(decode_strings_col_spec(r.highlights)),
    }
}

/// The row an experience is written as; the id goes to the table key.
pub open spec fn row_of_experience(p: ExperienceV) -> ExperienceRowV {
    ExperienceRowV {
        company: p.company,
        position: p.position,
        start_date: p.start_date,
        end_date: p.end_date,
        description: p.description,
        technologies: strings_col(p.technologies),
        highlights: strings_col(p.highlights),
    }
}

/// Round-trip: reading back a written row gives the experience unchanged.
pub proof fn law_experience_round_trip(p: ExperienceV)
    ensures
        experience_of_row(p.id, row_of_experience(p)) == p,
{
    lemma_strings_col_roundtrip(p.technologies);
    lemma_strings_col_roundtrip(p.highlights);
}

/// Writes an experience as a row.
pub fn experience_row(p: &Experience) -> (r: ExperienceRow)
    ensures
        r@ == row_of_experience(p@),
{
    ExperienceRow {
        company: p.company.clone(),
        position: p.position.clone(),
        start_date: p.start_date.clone(),
        end_date: match &p.end_date {
            Some(s) => Some(s.clone()),
            None => None,
        },
        description: p.description.clone(),
        technologies: encode_strings_col(&p.technologies),
        highlights: encode_strings_col(&p.highlights),
    }
}

/// Reads a row back as the entity stored under `id`.
pub fn experience_from_row(id: String, r: &ExperienceRow) -> (p: Experience)
    ensures
        p@ == experience_of_row(id@, r@),
{
    let technologies = match decode_strings_col(r.technologies.as_str()) {
        Some(l) => l,
        None => empty_strings(),
    };
    let highlights = match decode_strings_col(r.highlights.as_str()) {
        Some(l) => l,
        None => empty_strings(),
    };
    Experience {
        id,
        company: r.company.clone(),
        position: r.position.clone(),
        start_date: r.start_date.clone(),
        end_date: match &r.end_date {
            Some(s) => Some(s.clone()),
            None => None,
        },
        description: r.description.clone(),
        technologies,
        highlights,
    }
}

/// The experience table.
pub struct ExperienceRepository {
    pub table: KeyedTable<ExperienceRow>,
}

impl ExperienceRepository {
    pub open spec fn wf(&self) -> bool {
        self.table.wf()
    }

    pub open spec fn spec_find(&self, id: Seq<char>) -> Option<ExperienceV> {
        match lookup(self.table@, id) {
            Some(row) => Some(experience_of_row(id, row@)),
            None => None,
        }
    }

    pub fn new() -> (r: ExperienceRepository)
        ensures
            r.wf(),
            r.table@ =~= Seq::<(Seq<char>, ExperienceRow)>::empty(),
    {
        ExperienceRepository { table: KeyedTable::new() }
    }

    /// All stored experiences, ordered by `start_date` latest start first; ties keep no
    /// fixed order. The result is a reordering of the element-wise decodings.
    pub fn find_all(&self) -> (r: Vec<Experience>)
        ensures
            r@.len() == self.table@.len(),
            exists|perm: Seq<int>|
                #[trigger] is_reordering(perm, self.table@.len() as int) && forall|i: int|
                    0 <= i < r@.len() ==> (#[trigger] r@[i])@ == experience_of_row(
                        self.table@[perm[i]].0,
                        self.table@[perm[i]].1@,
                    ),
            forall|i: int, j: int|
                0 <= i <= j < r@.len() ==> lex_le(
                    (#[trigger] r@[j])@.start_date,
                    (#[trigger] r@[i])@.start_date,
                ),
    {
        let n = self.table.len();
        let mut keys: Vec<String> = Vec::new();
        let mut t: usize = 0;
        while t < n
            invariant
                t <= n,
                n == self.table@.len(),
                keys@.len() == t,
                forall|q: int|
                    0 <= q < t ==> (#[trigger] keys@[q])@ == self.table@[q].1@.start_date,
            decreases n - t,
        {
            proof {
                assert(self.table@[t as int] == (self.table.rows@[t as int].0@, self.table.rows@[
                t as int].1));
            }
            keys.push(self.table.rows[t].1.start_date.clone());
            t = t + 1;
        }
        let order = sort_indices_str(&keys, false);
        let mut r: Vec<Experience> = Vec::new();
        let mut k: usize = 0;
        while k < n
            invariant
                k <= n,
                n == self.table@.len(),
                n == keys@.len(),
                n == order@.len(),
                forall|i: int| 0 <= i < n ==> (#[trigger] order@[i]) < n,
                forall|i: int, j: int| 0 <= i < j < n ==> order@[i] != order@[j],
                forall|i: int, j: int|
                    0 <= i <= j < n ==> lex_le(
                        keys@[(#[trigger] order@[j]) as int]@,
                        keys@[(#[trigger] order@[i]) as int]@,
                    ),
                forall|q: int|
                    0 <= q < n ==> (#[trigger] keys@[q])@ == self.table@[q].1@.start_date,
                r@.len() == k,
                forall|q: int|
                    0 <= q < k ==> (#[trigger] r@[q])@ == experience_of_row(
                        self.table@[order@[q] as int].0,
                        self.table@[order@[q] as int].1@,
                    ),
            decreases n - k,
        {
            let idx = order[k];
            proof {
                assert(self.table@[idx as int] == (self.table.rows@[idx as int].0@,
                    self.table.rows@[idx as int].1));
            }
            let row = &self.table.rows[idx];
            let p = experience_from_row(row.0.clone(), &row.1);
            r.push(p);
            k = k + 1;
        }
        proof {
            let perm = Seq::new(n as nat, |i: int| order@[i] as int);
            assert(is_reordering(perm, self.table@.len() as int));
            assert forall|i: int|
                0 <= i < r@.len() implies (#[trigger] r@[i])@ == experience_of_row(
                        self.table@[perm[i]].0,
                        self.table@[perm[i]].1@,
                    ) by {}
            assert forall|i: int, j: int|
                0 <= i <= j < r@.len() implies lex_le(
                (#[trigger] r@[j])@.start_date,
                (#[trigger] r@[i])@.start_date,
            ) by {
                assert(r@[i]@.start_date == keys@[order@[i] as int]@);
                assert(r@[j]@.start_date == keys@[order@[j] as int]@);
            }
        }
        r
    }

    /// The experience stored under `id`, or nothing; an absent id is not an
    /// error.
    pub fn find_by_id(&self, id: &String) -> (r: Option<Experience>)
        ensures
            match r {
                Some(p) => self.spec_find(id@) == Some(p@),
                None => self.spec_find(id@) is None,
            },
    {
        match self.table.get(id) {
            Some(row) => Some(experience_from_row(id.clone(), row)),
            None => None,
        }
    }

    /// Stores a new experience under its own id and returns it unchanged; a
    /// duplicate id is a storage error and changes nothing.
    pub fn create(&mut self, item: Experience) -> (r: Result<Experience, AppError>)
        requires
            old(self).wf(),
        ensures
            final (self).wf(),
            match r {
                Ok(p) => {
                    &&& p@ == item@
                    &&& old(self).spec_find(item.id@) is None
                    &&& final (self).spec_find(item.id@) == Some(item@)
                    &&& forall|k: Seq<char>|
                        k != item.id@ ==> #[trigger] final (self).spec_find(k) == old(
                            self,
                        ).spec_find(k)
                },
                Err(e) => {
                    &&& final (self).table@ == old(self).table@
                    &&& old(self).spec_find(item.id@) is Some
                    &&& e is DatabaseError
                },
            },
    {
        let row = experience_row(&item);
        let ghost grow = row;
        let inserted = self.table.insert_new(item.id.clone(), row);
        if inserted {
            proof {
                assert forall|k: Seq<char>| #[trigger]
                    lookup(self.table@, k) == (if k == item.id@ {
                        Some(grow)
                    } else {
                        lookup(old(self).table@, k)
                    }) by {
                    lemma_lookup_push(old(self).table@, item.id@, grow, k);
                }
                law_experience_round_trip(item@);
            }
            Ok(item)
        } else {
            Err(AppError::DatabaseError("duplicate id".to_owned()))
        }
    }

    /// Overwrites the row stored under `id`, keeping the key; an absent id is
    /// a silent no-op. Returns the values as given.
    pub fn update(&mut self, id: &String, item: Experience) -> (r: Experience)
        requires
            old(self).wf(),
        ensures
            final (self).wf(),
            r@ == item@,
            old(self).spec_find(id@) is Some ==> {
                &&& final (self).spec_find(id@) == Some(
                    experience_of_row(id@, row_of_experience(item@)),
                )
                &&& forall|k: Seq<char>|
                    k != id@ ==> #[trigger] final (self).spec_find(k) == old(self).spec_find(k)
            },
            old(self).spec_find(id@) is None ==> final (self).table@ == old(self).table@,
    {
        let row = experience_row(&item);
        let ghost grow = row;
        let updated = self.table.update_row(id, row);
        proof {
            if lookup(old(self).table@, id@) is Some {
                assert(self.table@ == old(self).table@.update(
                    key_index(old(self).table@, id@),
                    (id@, grow),
                ));
                assert forall|k: Seq<char>| #[trigger]
                    lookup(self.table@, k) == (if k == id@ {
                        Some(grow)
                    } else {
                        lookup(old(self).table@, k)
                    }) by {
                    lemma_lookup_update(old(self).table@, id@, grow, k);
                }
            }
        }
        item
    }

    /// Removes the experience stored under `id`; reports whether anything was
    /// removed.
    pub fn delete(&mut self, id: &String) -> (r: bool)
        requires
            old(self).wf(),
        ensures
            final (self).wf(),
            r == (old(self).spec_find(id@) is Some),
            final (self).spec_find(id@) is None,
            forall|k: Seq<char>|
                k != id@ ==> #[trigger] final (self).spec_find(k) == old(self).spec_find(k),
    {
        let deleted = self.table.delete_row(id);
        proof {
            if lookup(old(self).table@, id@) is Some {
                assert forall|k: Seq<char>| #[trigger]
                    lookup(self.table@, k) == (if k == id@ {
                        None::<ExperienceRow>
                    } else {
                        lookup(old(self).table@, k)
                    }) by {
                    crate::store::lemma_lookup_remove(old(self).table@, id@, k);
                }
            }
        }
        deleted
    }
}

} // verus!
