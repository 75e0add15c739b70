//! Storage for blog posts: row shape, row/entity mapping with its proved
//! round-trip, and the repository operations.

use vstd::prelude::*;
use crate::columns::{
    decode_strings_col, decode_strings_col_spec, encode_strings_col, lemma_strings_col_roundtrip,
    strings_col,
};
use crate::error::AppError;
use crate::models::{Post, PostV};
use crate::project_repository::{col_or_empty, empty_strings};
use crate::order::{is_reordering, lex_le, sort_indices_str};
use crate::store::{key_index, lemma_lookup_push, lemma_lookup_update, lookup, KeyedTable};

verus! {

/// A stored post row; `tags` is a JSON text column. The id is the table key.
pub struct PostRow {
    pub title: String,
    pub date: String,
    pub tags: String,
    pub excerpt: String,
    pub content: String,
}

pub ghost struct PostRowV {
    pub title: Seq<char>,
    pub date: Seq<char>,
    pub tags: Seq<char>,
    pub excerpt: Seq<char>,
    pub content: Seq<char>,
}

impl View for PostRow {
    type V = PostRowV;

    open spec fn view(&self) -> PostRowV {
        PostRowV {
            title: self.title@,
            date: self.date@,
            tags: self.tags@,
            excerpt: self.excerpt@,
            content: self.content@,
        }
    }
}

/// The entity a stored row is read as, under the given key.
pub open spec fn post_of_row(id: Seq<char>, r: PostRowV) -> PostV {
    PostV {
        id: id,
        title: r.title,
        date: r.date,
        tags: col_or_empty(decode_strings_col_spec(r.tags)),
        excerpt: r.excerpt,
        content: r.content,
    }
}

/// The row a post is written as; the id goes to the table key.
pub open spec fn row_of_post(p: PostV) -> PostRowV {
    PostRowV {
        title: p.title,
        date: p.date,
        tags: strings_col(p.tags),
        excerpt: p.excerpt,
        content: p.content,
    }
}

/// Round-trip: reading back a written row gives the post unchanged.
pub proof fn law_post_round_trip(p: PostV)
    ensures
        post_of_row(p.id, row_of_post(p)) == p,
{
    lemma_strings_col_roundtrip(p.tags);
}

/// Writes a post as a row.
pub fn post_row(p: &Post) -> (r: PostRow)
    ensures
        r@ == row_of_post(p@),
{
    PostRow {
        title: p.title.clone(),
        date: p.date.clone(),
        tags: encode_strings_col(&p.tags),
        excerpt: p.excerpt.clone(),
        content: p.content.clone(),
    }
}

/// Reads a row back as the entity stored under `id`.
pub fn post_from_row(id: String, r: &PostRow) -> (p: Post)
    ensures
        p@ == post_of_row(id@, r@),
{
    let tags = match decode_strings_col(r.tags.as_str()) {
        Some(l) => l,
        None => empty_strings(),
    };
    Post {
        id,
        title: r.title.clone(),
        date: r.date.clone(),
        tags,
        excerpt: r.excerpt.clone(),
        content: r.content.clone(),
    }
}

/// The post table.
pub struct PostRepository {
    pub table: KeyedTable<PostRow>,
}

impl PostRepository {
    pub open spec fn wf(&self) -> bool {
        self.table.wf()
    }

    pub open spec fn spec_find(&self, id: Seq<char>) -> Option<PostV> {
        match lookup(self.table@, id) {
            Some(row) => Some(post_of_row(id, row@)),
            None => None,
        }
    }

    pub fn new() -> (r: PostRepository)
        ensures
            r.wf(),
            r.table@ =~= Seq::<(Seq<char>, PostRow)>::empty(),
    {
        PostRepository { table: KeyedTable::new() }
    }

    /// All stored posts, ordered by `date` newest first; ties keep no
    /// fixed order. The result is a reordering of the element-wise decodings.
    pub fn find_all(&self) -> (r: Vec<Post>)
        ensures
            r@.len() == self.table@.len(),
            exists|perm: Seq<int>|
                #[trigger] is_reordering(perm, self.table@.len() as int) && forall|i: int|
                    0 <= i < r@.len() ==> (#[trigger] r@[i])@ == post_of_row(
                        self.table@[perm[i]].0,
                        self.table@[perm[i]].1@,
                    ),
            forall|i: int, j: int|
                0 <= i <= j < r@.len() ==> lex_le(
                    (#[trigger] r@[j])@.date,
                    (#[trigger] r@[i])@.date,
                ),
    {
        let n = self.table.len();
        let mut keys: Vec<String> = Vec::new();
        let mut t: usize = 0;
        while t < n
            invariant
                t <= n,
                n == self.table@.len(),
                keys@.len() == t,
                forall|q: int|
                    0 <= q < t ==> (#[trigger] keys@[q])@ == self.table@[q].1@.date,
            decreases n - t,
        {
            proof {
                assert(self.table@[t as int] == (self.table.rows@[t as int].0@, self.table.rows@[
                t as int].1));
            }
            keys.push(self.table.rows[t].1.date.clone());
            t = t + 1;
        }
        let order = sort_indices_str(&keys, false);
        let mut r: Vec<Post> = Vec::new();
        let mut k: usize = 0;
        while k < n
            invariant
                k <= n,
                n == self.table@.len(),
                n == keys@.len(),
                n == order@.len(),
                forall|i: int| 0 <= i < n ==> (#[trigger] order@[i]) < n,
                forall|i: int, j: int| 0 <= i < j < n ==> order@[i] != order@[j],
                forall|i: int, j: int|
                    0 <= i <= j < n ==> lex_le(
                        keys@[(#[trigger] order@[j]) as int]@,
                        keys@[(#[trigger] order@[i]) as int]@,
                    ),
                forall|q: int|
                    0 <= q < n ==> (#[trigger] keys@[q])@ == self.table@[q].1@.date,
                r@.len() == k,
                forall|q: int|
                    0 <= q < k ==> (#[trigger] r@[q])@ == post_of_row(
                        self.table@[order@[q] as int].0,
                        self.table@[order@[q] as int].1@,
                    ),
            decreases n - k,
        {
            let idx = order[k];
            proof {
                assert(self.table@[idx as int] == (self.table.rows@[idx as int].0@,
                    self.table.rows@[idx as int].1));
            }
            let row = &self.table.rows[idx];
            let p = post_from_row(row.0.clone(), &row.1);
            r.push(p);
            k = k + 1;
        }
        proof {
            let perm = Seq::new(n as nat, |i: int| order@[i] as int);
            assert(is_reordering(perm, self.table@.len() as int));
            assert forall|i: int|
                0 <= i < r@.len() implies (#[trigger] r@[i])@ == post_of_row(
                        self.table@[perm[i]].0,
                        self.table@[perm[i]].1@,
                    ) by {}
            assert forall|i: int, j: int|
                0 <= i <= j < r@.len() implies lex_le(
                (#[trigger] r@[j])@.date,
                (#[trigger] r@[i])@.date,
            ) by {
                assert(r@[i]@.date == keys@[order@[i] as int]@);
                assert(r@[j]@.date == keys@[order@[j] as int]@);
            }
        }
        r
    }

    /// The post stored under `id`, or nothing; an absent id is not an error.
    pub fn find_by_id(&self, id: &String) -> (r: Option<Post>)
        ensures
            match r {
                Some(p) => self.spec_find(id@) == Some(p@),
                None => self.spec_find(id@) is None,
            },
    {
        match self.table.get(id) {
            Some(row) => Some(post_from_row(id.clone(), row)),
            None => None,
        }
    }

    /// Stores a new post under its own id and returns it unchanged; a
    /// duplicate id is a storage error and changes nothing.
    pub fn create(&mut self, item: Post) -> (r: Result<Post, AppError>)
        requires
            old(self).wf(),
        ensures
            final (self).wf(),
            match r {
                Ok(p) => {
                    &&& p@ == item@
                    &&& old(self).spec_find(item.id@) is None
                    &&& final (self).spec_find(item.id@) == Some(item@)
                    &&& forall|k: Seq<char>|
                        k != item.id@ ==> #[trigger] final (self).spec_find(k) == old(
                            self,
                        ).spec_find(k)
                },
                Err(e) => {
                    &&& final (self).table@ == old(self).table@
                    &&& old(self).spec_find(item.id@) is Some
                    &&& e is DatabaseError
                },
            },
    {
        let row = post_row(&item);
        let ghost grow = row;
        let inserted = self.table.insert_new(item.id.clone(), row);
        if inserted {
            proof {
                assert forall|k: Seq<char>| #[trigger]
                    lookup(self.table@, k) == (if k == item.id@ {
                        Some(grow)
                    } else {
                        lookup(old(self).table@, k)
                    }) by {
                    lemma_lookup_push(old(self).table@, item.id@, grow, k);
                }
                law_post_round_trip(item@);
            }
            Ok(item)
        } else {
            Err(AppError::DatabaseError("duplicate id".to_owned()))
        }
    }

    /// Overwrites the row stored under `id`, keeping the key; an absent id is
    /// a silent no-op. Returns the values as given.
    pub fn update(&mut self, id: &String, item: Post) -> (r: Post)
        requires
            old(self).wf(),
        ensures
            final (self).wf(),
            r@ == item@,
            old(self).spec_find(id@) is Some ==> {
                &&& final (self).spec_find(id@) == Some(post_of_row(id@, row_of_post(item@)))
                &&& forall|k: Seq<char>|
                    k != id@ ==> #[trigger] final (self).spec_find(k) == old(self).spec_find(k)
            },
            old(self).spec_find(id@) is None ==> final (self).table@ == old(self).table@,
    {
        let row = post_row(&item);
        let ghost grow = row;
        let updated = self.table.update_row(id, row);
        proof {
            if lookup(old(self).table@, id@) is Some {
                assert(self.table@ == old(self).table@.update(
                    key_index(old(self).table@, id@),
                    (id@, grow),
                ));
                assert forall|k: Seq<char>| #[trigger]
                    lookup(self.table@, k) == (if k == id@ {
                        Some(grow)
                    } else {
                        lookup(old(self).table@, k)
                    }) by {
                    lemma_lookup_update(old(self).table@, id@, grow, k);
                }
            }
        }
        item
    }

    /// Removes the post stored under `id`; reports whether anything was
    /// removed.
    pub fn delete(&mut self, id: &String) -> (r: bool)
        requires
            old(self).wf(),
        ensures
            final (self).wf(),
            r == (old(self).spec_find(id@) is Some),
            final (self).spec_find(id@) is None,
            forall|k: Seq<char>|
                k != id@ ==> #[trigger] final (self).spec_find(k) == old(self).spec_find(k),
    {
        let deleted = self.table.delete_row(id);
        proof {
            if lookup(old(self).table@, id@) is Some {
                assert forall|k: Seq<char>| #[trigger]
                    lookup(self.table@, k) == (if k == id@ {
                        None::<PostRow>
                    } else {
                        lookup(old(self).table@, k)
                    }) by {
                    crate::store::lemma_lookup_remove(old(self).table@, id@, k);
                }
            }
        }
        deleted
    }
}

} // verus!
