//! Storage for contact messages: append-only, with list, get and delete; no
//! update. No field is JSON-encoded.

use vstd::prelude::*;
use crate::error::AppError;
use crate::models::{ContactMessage, ContactMessageV};
use crate::order::{is_reordering, sort_indices_desc_i64};
use crate::store::{lemma_lookup_push, lookup, KeyedTable};

verus! {

/// A stored contact row; the id is the table key.
pub struct ContactRow {
    pub name: String,
    pub email: String,
    pub message: String,
    pub created_at: i64,
}

pub ghost struct ContactRowV {
    pub name: Seq<char>,
    pub email: Seq<char>,
    pub message: Seq<char>,
    pub created_at: int,
}

impl View for ContactRow {
    type V = ContactRowV;

    open spec fn view(&self) -> ContactRowV {
        ContactRowV {
            name: self.name@,
            email: self.email@,
            message: self.message@,
            created_at: self.created_at as int,
        }
    }
}

/// The entity a stored row is read as, under the given key.
pub open spec fn contact_of_row(id: Seq<char>, r: ContactRowV) -> ContactMessageV {
    ContactMessageV {
        id: id,
        name: r.name,
        email: r.email,
        message: r.message,
        created_at: r.created_at,
    }
}

/// The row a contact message is written as; the id goes to the table key.
pub open spec fn row_of_contact(p: ContactMessageV) -> ContactRowV {
    ContactRowV {
        name: p.name,
        email: p.email,
        message: p.message,
        created_at: p.created_at,
    }
}

/// Round-trip: reading back a written row gives the message unchanged.
pub proof fn law_contact_round_trip(p: ContactMessageV)
    ensures
        contact_of_row(p.id, row_of_contact(p)) == p,
{
}

pub fn contact_row(p: &ContactMessage) -> (r: ContactRow)
    ensures
        r@ == row_of_contact(p@),
{
    ContactRow {
        name: p.name.clone(),
        email: p.email.clone(),
        message: p.message.clone(),
        created_at: p.created_at,
    }
}

pub fn contact_from_row(id: String, r: &ContactRow) -> (p: ContactMessage)
    ensures
        p@ == contact_of_row(id@, r@),
{
    ContactMessage {
        id,
        name: r.name.clone(),
        email: r.email.clone(),
        message: r.message.clone(),
        created_at: r.created_at,
    }
}

/// The contact-message table.
pub struct ContactRepository {
    pub table: KeyedTable<ContactRow>,
}

impl ContactRepository {
    pub open spec fn wf(&self) -> bool {
        self.table.wf()
    }

    pub open spec fn spec_find(&self, id: Seq<char>) -> Option<ContactMessageV> {
        match lookup(self.table@, id) {
            Some(row) => Some(contact_of_row(id, row@)),
            None => None,
        }
    }

    pub fn new() -> (r: ContactRepository)
        ensures
            r.wf(),
            r.table@ =~= Seq::<(Seq<char>, ContactRow)>::empty(),
    {
        ContactRepository { table: KeyedTable::new() }
    }

    /// Stores a new message under its own id and returns it unchanged; a
    /// duplicate id is a storage error and changes nothing.
    pub fn create(&mut self, item: ContactMessage) -> (r: Result<ContactMessage, AppError>)
        requires
            old(self).wf(),
        ensures
            final (self).wf(),
            match r {
                Ok(p) => {
                    &&& p@ == item@
                    &&& old(self).spec_find(item.id@) is None
                    &&& final (self).spec_find(item.id@) == Some(item@)
                    &&& final (self).table@.len() == old(self).table@.len() + 1
                    &&& final (self).table@.last().0 == item.id@
                    &&& contact_of_row(item.id@, final (self).table@.last().1@) == item@
                    &&& forall|k: Seq<char>|
                        k != item.id@ ==> #[trigger] final (self).spec_find(k) == old(
                            self,
                        ).spec_find(k)
                },
                Err(e) => {
                    &&& final (self).table@ == old(self).table@
                    &&& old(self).spec_find(item.id@) is Some
                    &&& old(self).table@.len() > 0
                    &&& e is DatabaseError
                },
            },
    {
        let row = contact_row(&item);
        let ghost grow = row;
        let inserted = self.table.insert_new(item.id.clone(), row);
        if inserted {
            proof {
                assert(self.table@.last() == (item.id@, grow));
                assert forall|k: Seq<char>| #[trigger]
                    lookup(self.table@, k) == (if k == item.id@ {
                        Some(grow)
                    } else {
                        lookup(old(self).table@, k)
                    }) by {
                    lemma_lookup_push(old(self).table@, item.id@, grow, k);
                }
            }
            Ok(item)
        } else {
            Err(AppError::DatabaseError("duplicate id".to_owned()))
        }
    }

    /// All stored messages, newest first; ties keep no fixed order. The
    /// result is a reordering of the element-wise decodings.
    pub fn get_all(&self) -> (r: Vec<ContactMessage>)
        ensures
            r@.len() == self.table@.len(),
            exists|perm: Seq<int>|
                #[trigger] is_reordering(perm, self.table@.len() as int) && forall|i: int|
                    0 <= i < r@.len() ==> (#[trigger] r@[i])@ == contact_of_row(
                        self.table@[perm[i]].0,
                        self.table@[perm[i]].1@,
                    ),
            forall|i: int, j: int|
                0 <= i <= j < r@.len() ==> (#[trigger] r@[i])@.created_at >= (
                #[trigger] r@[j])@.created_at,
    {
        let n = self.table.len();
        let mut keys: Vec<i64> = Vec::new();
        let mut t: usize = 0;
        while t < n
            invariant
                t <= n,
                n == self.table@.len(),
                keys@.len() == t,
                forall|q: int|
                    0 <= q < t ==> (#[trigger] keys@[q]) as int == self.table@[q].1@.created_at,
            decreases n - t,
        {
            proof {
                assert(self.table@[t as int] == (self.table.rows@[t as int].0@, self.table.rows@[
                t as int].1));
            }
            keys.push(self.table.rows[t].1.created_at);
            t = t + 1;
        }
        let order = sort_indices_desc_i64(&keys);
        let mut r: Vec<ContactMessage> = Vec::new();
        let mut k: usize = 0;
        while k < n
            invariant
                k <= n,
                n == self.table@.len(),
                n == keys@.len(),
                n == order@.len(),
                forall|i: int| 0 <= i < n ==> (#[trigger] order@[i]) < n,
                forall|i: int, j: int| 0 <= i < j < n ==> order@[i] != order@[j],
                forall|i: int, j: int|
                    0 <= i <= j < n ==> keys@[(#[trigger] order@[i]) as int] >= keys@[(
                    #[trigger] order@[j]) as int],
                forall|q: int|
                    0 <= q < n ==> (#[trigger] keys@[q]) as int == self.table@[q].1@.created_at,
                r@.len() == k,
                forall|q: int|
                    0 <= q < k ==> (#[trigger] r@[q])@ == contact_of_row(
                        self.table@[order@[q] as int].0,
                        self.table@[order@[q] as int].1@,
                    ),
            decreases n - k,
        {
            let idx = order[k];
            proof {
                assert(self.table@[idx as int] == (self.table.rows@[idx as int].0@,
                    self.table.rows@[idx as int].1));
            }
            let row = &self.table.rows[idx];
            let p = contact_from_row(row.0.clone(), &row.1);
            r.push(p);
            k = k + 1;
        }
        proof {
            let perm = Seq::new(n as nat, |i: int| order@[i] as int);
            assert(is_reordering(perm, self.table@.len() as int));
            assert forall|i: int|
                0 <= i < r@.len() implies (#[trigger] r@[i])@ == contact_of_row(
                self.table@[perm[i]].0,
                self.table@[perm[i]].1@,
            ) by {}
            assert forall|i: int, j: int|
                0 <= i <= j < r@.len() implies (#[trigger] r@[i])@.created_at >= (
            #[trigger] r@[j])@.created_at by {
                assert(r@[i]@.created_at == keys@[order@[i] as int] as int);
                assert(r@[j]@.created_at == keys@[order@[j] as int] as int);
            }
        }
        r
    }

    /// The message stored under `id`; an absent id is a not-found error.
    pub fn get_by_id(&self, id: &String) -> (r: Result<ContactMessage, AppError>)
        ensures
            match r {
                Ok(p) => self.spec_find(id@) == Some(p@),
                Err(e) => self.spec_find(id@) is None && e is NotFoundError,
            },
    {
        match self.table.get(id) {
            Some(row) => Ok(contact_from_row(id.clone(), row)),
            None => Err(AppError::NotFoundError("Contact not found".to_owned())),
        }
    }

    /// Removes the message stored under `id`; an absent id is a not-found
    /// error and changes nothing.
    pub fn delete(&mut self, id: &String) -> (r: Result<(), AppError>)
        requires
            old(self).wf(),
        ensures
            final (self).wf(),
            match r {
                Ok(u) => {
                    &&& old(self).spec_find(id@) is Some
                    &&& final (self).spec_find(id@) is None
                    &&& forall|k: Seq<char>|
                        k != id@ ==> #[trigger] final (self).spec_find(k) == old(
                            self,
                        ).spec_find(k)
                },
                Err(e) => {
                    &&& final (self).table@ == old(self).table@
                    &&& old(self).spec_find(id@) is None
                    &&& e is NotFoundError
                },
            },
    {
        let deleted = self.table.delete_row(id);
        if deleted {
            proof {
                assert forall|k: Seq<char>| #[trigger]
                    lookup(self.table@, k) == (if k == id@ {
                        None::<ContactRow>
                    } else {
                        lookup(old(self).table@, k)
                    }) by {
                    crate::store::lemma_lookup_remove(old(self).table@, id@, k);
                }
            }
            Ok(())
        } else {
            Err(AppError::NotFoundError("Contact not found".to_owned()))
        }
    }
}

} // verus!
