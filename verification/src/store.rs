//! The in-memory store: a table of rows addressed by unique string keys, with
//! the lookup, insert, update and delete semantics the repositories build on.

use vstd::prelude::*;

verus! {

/// The first value stored under key `k`, if any.
pub open spec fn lookup<V>(rows: Seq<(Seq<char>, V)>, k: Seq<char>) -> Option<V>
    decreases rows.len(),
{
    if rows.len() == 0 {
        None
    } else if rows[0].0 == k {
        Some(rows[0].1)
    } else {
        lookup(rows.drop_first(), k)
    }
}

/// The index of the first row keyed `k`; meaningful only when [`lookup`]
/// finds one.
pub open spec fn key_index<V>(rows: Seq<(Seq<char>, V)>, k: Seq<char>) -> int
    decreases rows.len(),
{
    if rows.len() == 0 {
        0
    } else if rows[0].0 == k {
        0
    } else {
        1 + key_index(rows.drop_first(), k)
    }
}

/// Every key appears at most once.
pub open spec fn unique_keys<V>(rows: Seq<(Seq<char>, V)>) -> bool {
    forall|i: int, j: int|
        0 <= i < j < rows.len() ==> (#[trigger] rows[i]).0 != (#[trigger] rows[j]).0
}

/// A row keyed `k` at index `j`, with no earlier row keyed `k`, is the one
/// that `lookup` and `key_index` find.
pub proof fn lemma_lookup_first<V>(rows: Seq<(Seq<char>, V)>, k: Seq<char>, j: int)
    requires
        0 <= j < rows.len(),
        rows[j].0 == k,
        forall|q: int| 0 <= q < j ==> (#[trigger] rows[q]).0 != k,
    ensures
        lookup(rows, k) == Some(rows[j].1),
        key_index(rows, k) == j,
    decreases j,
{
    if j == 0 {
    } else {
        assert(rows[0].0 != k);
        let rows1 = rows.drop_first();
        assert(rows1[j - 1] == rows[j]);
        assert(forall|q: int| 0 <= q < j - 1 ==> (#[trigger] rows1[q]) == rows[q + 1]);
        lemma_lookup_first(rows1, k, j - 1);
    }
}

pub proof fn lemma_key_index_nonneg<V>(rows: Seq<(Seq<char>, V)>, k: Seq<char>)
    ensures
        key_index(rows, k) >= 0,
    decreases rows.len(),
{
    if rows.len() > 0 && rows[0].0 != k {
        lemma_key_index_nonneg(rows.drop_first(), k);
    }
}

/// A key that no row carries is not found.
pub proof fn lemma_lookup_absent<V>(rows: Seq<(Seq<char>, V)>, k: Seq<char>)
    requires
        forall|q: int| 0 <= q < rows.len() ==> (#[trigger] rows[q]).0 != k,
    ensures
        lookup(rows, k) is None,
    decreases rows.len(),
{
    if rows.len() > 0 {
        let rows1 = rows.drop_first();
        assert(forall|q: int| 0 <= q < rows1.len() ==> (#[trigger] rows1[q]) == rows[q + 1]);
        lemma_lookup_absent(rows1, k);
    }
}

/// Appending a row with a fresh key leaves every other key's lookup as it
/// was and makes the new key found.
pub proof fn lemma_lookup_push<V>(rows: Seq<(Seq<char>, V)>, k: Seq<char>, v: V, k2: Seq<char>)
    requires
        lookup(rows, k) is None,
    ensures
        lookup(rows.push((k, v)), k2) == if k2 == k { Some(v) } else { lookup(rows, k2) },
    decreases rows.len(),
{
    let rows2 = rows.push((k, v));
    if rows.len() == 0 {
        assert(rows2[0] == (k, v));
        assert(rows2.drop_first() =~= rows);
    } else {
        assert(rows2[0] == rows[0]);
        assert(rows2.drop_first() =~= rows.drop_first().push((k, v)));
        lemma_lookup_push(rows.drop_first(), k, v, k2);
    }
}

/// Replacing the row that `key_index` points at changes that key's lookup
/// and no other's.
pub proof fn lemma_lookup_update<V>(rows: Seq<(Seq<char>, V)>, k: Seq<char>, v: V, k2: Seq<char>)
    requires
        lookup(rows, k) is Some,
    ensures
        lookup(rows.update(key_index(rows, k), (k, v)), k2) == if k2 == k {
            Some(v)
        } else {
            lookup(rows, k2)
        },
        0 <= key_index(rows, k) < rows.len(),
    decreases rows.len(),
{
    let j = key_index(rows, k);
    let rows2 = rows.update(j, (k, v));
    if rows[0].0 == k {
        assert(rows2[0] == (k, v));
        assert(rows2.drop_first() =~= rows.drop_first());
    } else {
        lemma_lookup_update(rows.drop_first(), k, v, k2);
        assert(rows2[0] == rows[0]);
        assert(rows2.drop_first() =~= rows.drop_first().update(j - 1, (k, v)));
    }
}

/// Removing the row that `key_index` points at, when keys are unique, makes
/// that key absent and leaves every other key's lookup as it was.
pub proof fn lemma_lookup_remove<V>(rows: Seq<(Seq<char>, V)>, k: Seq<char>, k2: Seq<char>)
    requires
        unique_keys(rows),
        lookup(rows, k) is Some,
    ensures
        lookup(rows.remove(key_index(rows, k)), k2) == if k2 == k {
            None::<V>
        } else {
            lookup(rows, k2)
        },
        0 <= key_index(rows, k) < rows.len(),
    decreases rows.len(),
{
    let j = key_index(rows, k);
    let rows2 = rows.remove(j);
    if rows[0].0 == k {
        assert(rows2 =~= rows.drop_first());
        if k2 == k {
            assert(forall|q: int|
                0 <= q < rows2.len() ==> (#[trigger] rows2[q]) == rows[q + 1]);
            lemma_lookup_absent(rows2, k);
        }
    } else {
        assert(forall|i: int, j2: int|
            0 <= i < j2 < rows.drop_first().len() ==> (#[trigger] rows.drop_first()[i]).0 != (
            #[trigger] rows.drop_first()[j2]).0) by {
            assert(forall|q: int|
                0 <= q < rows.drop_first().len() ==> (#[trigger] rows.drop_first()[q]) == rows[
                q + 1]);
        }
        lemma_lookup_remove(rows.drop_first(), k, k2);
        assert(rows2[0] == rows[0]);
        assert(rows2.drop_first() =~= rows.drop_first().remove(j - 1));
    }
}

/// A table of rows addressed by unique string keys, kept in insertion order.
pub struct KeyedTable<V> {
    pub rows: Vec<(String, V)>,
}

impl<V> View for KeyedTable<V> {
    type V = Seq<(Seq<char>, V)>;

    open spec fn view(&self) -> Seq<(Seq<char>, V)> {
        Seq::new(self.rows@.len(), |i: int| (self.rows@[i].0@, self.rows@[i].1))
    }
}

impl<V> KeyedTable<V> {
    /// The table's invariant: no two rows share a key.
    pub open spec fn wf(&self) -> bool {
        unique_keys(self@)
    }

    pub fn new() -> (r: KeyedTable<V>)
        ensures
            r@ =~= Seq::<(Seq<char>, V)>::empty(),
            r.wf(),
    {
        KeyedTable { rows: Vec::new() }
    }

    pub fn len(&self) -> (n: usize)
        ensures
            n == self@.len(),
    {
        self.rows.len()
    }

    /// The index of the row keyed `id`, if one exists.
    fn find_index(&self, id: &String) -> (r: Option<usize>)
        ensures
            match r {
                Some(j) => {
                    &&& j < self@.len()
                    &&& self@[j as int].0 == id@
                    &&& forall|q: int| 0 <= q < j ==> (#[trigger] self@[q]).0 != id@
                    &&& lookup(self@, id@) == Some(self@[j as int].1)
                    &&& key_index(self@, id@) == j
                },
                None => lookup(self@, id@) is None,
            },
    {
        let n = self.rows.len();
        let mut j: usize = 0;
        while j < n
            invariant
                j <= n,
                n == self@.len(),
                forall|q: int| 0 <= q < j ==> (#[trigger] self@[q]).0 != id@,
            decreases n - j,
        {
            if self.rows[j].0.eq(id) {
                proof {
                    assert(self@[j as int].0 == id@);
                    lemma_lookup_first(self@, id@, j as int);
                }
                return Some(j);
            }
            proof {
                assert(self@[j as int].0 == self.rows@[j as int].0@);
            }
            j = j + 1;
        }
        proof {
            lemma_lookup_absent(self@, id@);
        }
        None
    }

    /// The row stored under `id`, if any.
    pub fn get<'a>(&'a self, id: &String) -> (r: Option<&'a V>)
        ensures
            match r {
                Some(v) => lookup(self@, id@) == Some(*v),
                None => lookup(self@, id@) is None,
            },
    {
        match self.find_index(id) {
            Some(j) => Some(&self.rows[j].1),
            None => None,
        }
    }

    /// Appends a row under a fresh key; refuses a key already present.
    pub fn insert_new(&mut self, id: String, v: V) -> (r: bool)
        requires
            old(self).wf(),
        ensures
            final (self).wf(),
            r == (lookup(old(self)@, id@) is None),
            r ==> final (self)@ =~= old(self)@.push((id@, v)),
            !r ==> final (self)@ == old(self)@,
    {
        match self.find_index(&id) {
            Some(_) => false,
            None => {
                let ghost pre = self@;
                self.rows.push((id, v));
                proof {
                    assert(self@ =~= pre.push((self.rows@[pre.len() as int].0@, v)));
                    assert forall|i: int, j: int|
                        0 <= i < j < self@.len() implies (#[trigger] self@[i]).0 != (
                    #[trigger] self@[j]).0 by {
                        if j == self@.len() - 1 {
                            if self@[i].0 == self@[j].0 {
                                assert(pre[i].0 == self@[j].0);
                                lemma_lookup_first(pre, pre[i].0, i);
                            }
                        }
                    }
                }
                true
            },
        }
    }

    /// Replaces the row stored under `id`; reports whether one was there.
    pub fn update_row(&mut self, id: &String, v: V) -> (r: bool)
        requires
            old(self).wf(),
        ensures
            final (self).wf(),
            r == (lookup(old(self)@, id@) is Some),
            r ==> final (self)@ =~= old(self)@.update(key_index(old(self)@, id@), (id@, v)),
            !r ==> final (self)@ == old(self)@,
    {
        match self.find_index(id) {
            Some(j) => {
                let ghost pre = self@;
                self.rows[j] = (id.clone(), v);
                proof {
                    assert(self@ =~= pre.update(j as int, (id@, v)));
                    assert forall|i: int, j2: int|
                        0 <= i < j2 < self@.len() implies (#[trigger] self@[i]).0 != (
                    #[trigger] self@[j2]).0 by {
                        assert(pre[i].0 != pre[j2].0);
                    }
                }
                true
            },
            None => false,
        }
    }

    /// Removes the row stored under `id`; reports whether one was there.
    pub fn delete_row(&mut self, id: &String) -> (r: bool)
        requires
            old(self).wf(),
        ensures
            final (self).wf(),
            r == (lookup(old(self)@, id@) is Some),
            r ==> final (self)@ =~= old(self)@.remove(key_index(old(self)@, id@)),
            !r ==> final (self)@ == old(self)@,
    {
        match self.find_index(id) {
            Some(j) => {
                let ghost pre = self@;
                self.rows.remove(j);
                proof {
                    assert(self@ =~= pre.remove(j as int));
                    assert forall|i: int, j2: int|
                        0 <= i < j2 < self@.len() implies (#[trigger] self@[i]).0 != (
                    #[trigger] self@[j2]).0 by {
                        let i0 = if i < j { i } else { i + 1 };
                        let j0 = if j2 < j { j2 } else { j2 + 1 };
                        assert(self@[i] == pre[i0] && self@[j2] == pre[j0]);
                        assert(pre[i0].0 != pre[j0].0);
                    }
                }
                true
            },
            None => false,
        }
    }
}

} // verus!
