//! Storage for projects: the row shape with its JSON columns, the mapping
//! between rows and entities (proved to round-trip), and the repository
//! operations.

use vstd::prelude::*;
use crate::columns::{
    decode_strings_col, decode_strings_col_spec, encode_strings_col, lemma_strings_col_roundtrip,
    strings_col,
};
use crate::error::AppError;
use crate::models::{Project, ProjectV};
use crate::order::{is_reordering, sort_indices_desc_i64};
use crate::store::{key_index, lemma_lookup_push, lemma_lookup_update, lookup, KeyedTable};

verus! {

/// A stored project row; list-valued fields are JSON text columns. The id is
/// the table key.
pub struct ProjectRow {
    pub title: String,
    pub description: String,
    pub technologies: String,
    pub github_url: Option<String>,
    pub live_url: Option<String>,
    pub image_url: Option<String>,
    pub image_urls: Option<String>,
    pub year: i32,
    pub highlights: String,
}

pub ghost struct ProjectRowV {
    pub title: Seq<char>,
    pub description: Seq<char>,
    pub technologies: Seq<char>,
    pub github_url: Option<Seq<char>>,
    pub live_url: Option<Seq<char>>,
    pub image_url: Option<Seq<char>>,
    pub image_urls: Option<Seq<char>>,
    pub year: int,
    pub highlights: Seq<char>,
}

impl View for ProjectRow {
    type V = ProjectRowV;

    open spec fn view(&self) -> ProjectRowV {
        ProjectRowV {
            title: self.title@,
            description: self.description@,
            technologies: self.technologies@,
            github_url: self.github_url.deep_view(),
            live_url: self.live_url.deep_view(),
            image_url: self.image_url.deep_view(),
            image_urls: self.image_urls.deep_view(),
            year: self.year as int,
            highlights: self.highlights@,
        }
    }
}

/// A failed column decode degrades to the empty list.
pub open spec fn col_or_empty(o: Option<Seq<Seq<char>>>) -> Seq<Seq<char>> {
    match o {
        Some(l) => l,
        None => Seq::empty(),
    }
}

/// The entity a stored row is read as, under the given key.
pub open spec fn project_of_row(id: Seq<char>, r: ProjectRowV) -> ProjectV {
    ProjectV {
        id: id,
        title: r.title,
        description: r.description,
        technologies: col_or_empty(decode_strings_col_spec(r.technologies)),
        github_url: r.github_url,
        live_url: r.live_url,
        image_url: r.image_url,
        image_urls: match r.image_urls {
            Some(s) => decode_strings_col_spec(s),
            None => None,
        },
        year: r.year,
        highlights: col_or_empty(decode_strings_col_spec(r.highlights)),
    }
}

/// The row a project is written as; the id goes to the table key.
pub open spec fn row_of_project(p: ProjectV) -> ProjectRowV {
    ProjectRowV {
        title: p.title,
        description: p.description,
        technologies: strings_col(p.technologies),
        github_url: p.github_url,
        live_url: p.live_url,
        image_url: p.image_url,
        image_urls: match p.image_urls {
            Some(l) => Some(strings_col(l)),
            None => None,
        },
        year: p.year,
        highlights: strings_col(p.highlights),
    }
}

/// Round-trip: reading back a written row gives the project unchanged,
/// whatever its lists hold.
pub proof fn law_project_round_trip(p: ProjectV)
    ensures
        project_of_row(p.id, row_of_project(p)) == p,
{
    lemma_strings_col_roundtrip(p.technologies);
    lemma_strings_col_roundtrip(p.highlights);
    if let Some(l) = p.image_urls {
        lemma_strings_col_roundtrip(l);
    }
}

/// Writes a project as a row.
pub fn project_row(p: &Project) -> (r: ProjectRow)
    ensures
        r@ == row_of_project(p@),
{
    ProjectRow {
        title: p.title.clone(),
        description: p.description.clone(),
        technologies: encode_strings_col(&p.technologies),
        github_url: match &p.github_url {
            Some(s) => Some(s.clone()),
            None => None,
        },
        live_url: match &p.live_url {
            Some(s) => Some(s.clone()),
            None => None,
        },
        image_url: match &p.image_url {
            Some(s) => Some(s.clone()),
            None => None,
        },
        image_urls: match &p.image_urls {
            Some(l) => Some(encode_strings_col(l)),
            None => None,
        },
        year: p.year,
        highlights: encode_strings_col(&p.highlights),
    }
}

/// The empty-list fallback a bad column decodes to.
pub fn empty_strings() -> (r: Vec<String>)
    ensures
        r.deep_view() =~= Seq::<Seq<char>>::empty(),
{
    Vec::new()
}

/// Reads a row back as the entity stored under `id`.
pub fn project_from_row(id: String, r: &ProjectRow) -> (p: Project)
    ensures
        p@ == project_of_row(id@, r@),
{
    let technologies = match decode_strings_col(r.technologies.as_str()) {
        Some(l) => l,
        None => empty_strings(),
    };
    let highlights = match decode_strings_col(r.highlights.as_str()) {
        Some(l) => l,
        None => empty_strings(),
    };
    let image_urls = match &r.image_urls {
        Some(s) => decode_strings_col(s.as_str()),
        None => None,
    };
    Project {
        id,
        title: r.title.clone(),
        description: r.description.clone(),
        technologies,
        github_url: match &r.github_url {
            Some(s) => Some(s.clone()),
            None => None,
        },
        live_url: match &r.live_url {
            Some(s) => Some(s.clone()),
            None => None,
        },
        image_url: match &r.image_url {
            Some(s) => Some(s.clone()),
            None => None,
        },
        image_urls,
        year: r.year,
        highlights,
    }
}

/// The project table.
pub struct ProjectRepository {
    pub table: KeyedTable<ProjectRow>,
}

impl ProjectRepository {
    pub open spec fn wf(&self) -> bool {
        self.table.wf()
    }

    /// The entity stored under `id`, as a ghost value.
    pub open spec fn spec_find(&self, id: Seq<char>) -> Option<ProjectV> {
        match lookup(self.table@, id) {
            Some(row) => Some(project_of_row(id, row@)),
            None => None,
        }
    }

    pub fn new() -> (r: ProjectRepository)
        ensures
            r.wf(),
            r.table@ =~= Seq::<(Seq<char>, ProjectRow)>::empty(),
    {
        ProjectRepository { table: KeyedTable::new() }
    }

    /// All stored projects, largest `year` first; ties keep no fixed
    /// order. The result is a reordering of the element-wise decodings.
    pub fn find_all(&self) -> (r: Vec<Project>)
        ensures
            r@.len() == self.table@.len(),
            exists|perm: Seq<int>|
                #[trigger] is_reordering(perm, self.table@.len() as int) && forall|i: int|
                    0 <= i < r@.len() ==> (#[trigger] r@[i])@ == project_of_row(
                        self.table@[perm[i]].0,
                        self.table@[perm[i]].1@,
                    ),
            forall|i: int, j: int|
                0 <= i <= j < r@.len() ==> (#[trigger] r@[i])@.year >= (
                #[trigger] r@[j])@.year,
    {
        let n = self.table.len();
        let mut keys: Vec<i64> = Vec::new();
        let mut t: usize = 0;
        while t < n
            invariant
                t <= n,
                n == self.table@.len(),
                keys@.len() == t,
                forall|q: int|
                    0 <= q < t ==> (#[trigger] keys@[q]) as int == self.table@[q].1@.year,
            decreases n - t,
        {
            proof {
                assert(self.table@[t as int] == (self.table.rows@[t as int].0@, self.table.rows@[
                t as int].1));
            }
            keys.push(self.table.rows[t].1.year as i64);
            t = t + 1;
        }
        let order = sort_indices_desc_i64(&keys);
        let mut r: Vec<Project> = Vec::new();
        let mut k: usize = 0;
        while k < n
            invariant
                k <= n,
                n == self.table@.len(),
                n == keys@.len(),
                n == order@.len(),
                forall|i: int| 0 <= i < n ==> (#[trigger] order@[i]) < n,
                forall|i: int, j: int| 0 <= i < j < n ==> order@[i] != order@[j],
                forall|i: int, j: int|
                    0 <= i <= j < n ==> keys@[(#[trigger] order@[i]) as int] >= keys@[(
                    #[trigger] order@[j]) as int],
                forall|q: int|
                    0 <= q < n ==> (#[trigger] keys@[q]) as int == self.table@[q].1@.year,
                r@.len() == k,
                forall|q: int|
                    0 <= q < k ==> (#[trigger] r@[q])@ == project_of_row(
                        self.table@[order@[q] as int].0,
                        self.table@[order@[q] as int].1@,
                    ),
            decreases n - k,
        {
            let idx = order[k];
            proof {
                assert(self.table@[idx as int] == (self.table.rows@[idx as int].0@,
                    self.table.rows@[idx as int].1));
            }
            let row = &self.table.rows[idx];
            let p = project_from_row(row.0.clone(), &row.1);
            r.push(p);
            k = k + 1;
        }
        proof {
            let perm = Seq::new(n as nat, |i: int| order@[i] as int);
            assert(is_reordering(perm, self.table@.len() as int));
            assert forall|i: int|
                0 <= i < r@.len() implies (#[trigger] r@[i])@ == project_of_row(
                self.table@[perm[i]].0,
                self.table@[perm[i]].1@,
            ) by {}
            assert forall|i: int, j: int|
                0 <= i <= j < r@.len() implies (#[trigger] r@[i])@.year >= (
            #[trigger] r@[j])@.year by {
                assert(r@[i]@.year == keys@[order@[i] as int] as int);
                assert(r@[j]@.year == keys@[order@[j] as int] as int);
            }
        }
        r
    }

    /// The project stored under `id`, or nothing; an absent id is not an
    /// error.
    pub fn find_by_id(&self, id: &String) -> (r: Option<Project>)
        ensures
            match r {
                Some(p) => self.spec_find(id@) == Some(p@),
                None => self.spec_find(id@) is None,
            },
    {
        match self.table.get(id) {
            Some(row) => Some(project_from_row(id.clone(), row)),
            None => None,
        }
    }

    /// Stores a new project under its own id and returns it unchanged; a
    /// duplicate id is a storage error and changes nothing.
    pub fn create(&mut self, item: Project) -> (r: Result<Project, AppError>)
        requires
            old(self).wf(),
        ensures
            final (self).wf(),
            match r {
                Ok(p) => {
                    &&& p@ == item@
                    &&& old(self).spec_find(item.id@) is None
                    &&& final (self).spec_find(item.id@) == Some(item@)
                    &&& forall|k: Seq<char>|
                        k != item.id@ ==> #[trigger] final (self).spec_find(k) == old(
                            self,
                        ).spec_find(k)
                },
                Err(e) => {
                    &&& final (self).table@ == old(self).table@
                    &&& old(self).spec_find(item.id@) is Some
                    &&& e is DatabaseError
                },
            },
    {
        let row = project_row(&item);
        let ghost rowv = row@;
        let inserted = self.table.insert_new(item.id.clone(), row);
        if inserted {
            proof {
                lemma_lookup_push(old(self).table@, item.id@, self.table@[self.table@.len()
                    - 1].1, item.id@);
                assert forall|k: Seq<char>|
                    k != item.id@ implies #[trigger] final (self).spec_find(k) == old(
                    self,
                ).spec_find(k) by {
                    lemma_lookup_push(old(self).table@, item.id@, self.table@[self.table@.len()
                        - 1].1, k);
                }
                law_project_round_trip(item@);
            }
            Ok(item)
        } else {
            Err(AppError::DatabaseError("duplicate id".to_owned()))
        }
    }

    /// Overwrites the row stored under `id` with the given values, keeping
    /// the key; an absent id is a silent no-op, as an unconditional SQL
    /// UPDATE would be. Returns the values as given.
    pub fn update(&mut self, id: &String, item: Project) -> (r: Project)
        requires
            old(self).wf(),
        ensures
            final (self).wf(),
            r@ == item@,
            old(self).spec_find(id@) is Some ==> {
                &&& final (self).spec_find(id@) == Some(
                    project_of_row(id@, row_of_project(item@)),
                )
                &&& forall|k: Seq<char>|
                    k != id@ ==> #[trigger] final (self).spec_find(k) == old(self).spec_find(k)
            },
            old(self).spec_find(id@) is None ==> final (self).table@ == old(self).table@,
    {
        let row = project_row(&item);
        let ghost grow = row;
        let updated = self.table.update_row(id, row);
        proof {
            if lookup(old(self).table@, id@) is Some {
                assert(self.table@ == old(self).table@.update(
                    key_index(old(self).table@, id@),
                    (id@, grow),
                ));
                assert forall|k: Seq<char>| #[trigger]
                    lookup(self.table@, k) == (if k == id@ {
                        Some(grow)
                    } else {
                        lookup(old(self).table@, k)
                    }) by {
                    lemma_lookup_update(old(self).table@, id@, grow, k);
                }
            }
        }
        item
    }

    /// Removes the project stored under `id`; reports whether anything was
    /// removed, so a caller can surface an absent id.
    pub fn delete(&mut self, id: &String) -> (r: bool)
        requires
            old(self).wf(),
        ensures
            final (self).wf(),
            r == (old(self).spec_find(id@) is Some),
            final (self).spec_find(id@) is None,
            forall|k: Seq<char>|
                k != id@ ==> #[trigger] final (self).spec_find(k) == old(self).spec_find(k),
    {
        let deleted = self.table.delete_row(id);
        proof {
            if lookup(old(self).table@, id@) is Some {
                assert forall|k: Seq<char>| #[trigger]
                    lookup(final (self).table@, k) == (if k == id@ {
                        None::<ProjectRow>
                    } else {
                        lookup(old(self).table@, k)
                    }) by {
                    crate::store::lemma_lookup_remove(old(self).table@, id@, k);
                }
            }
        }
        deleted
    }
}

} // verus!
