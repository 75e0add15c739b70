//! Storage for the aggregated GitHub statistics, a singleton-style resource
//! read through its first row.

use vstd::prelude::*;
use crate::columns::{
    activity_col, decode_activity_col, decode_activity_col_spec, decode_toplang_col,
    decode_toplang_col_spec, encode_activity_col, encode_toplang_col,
    lemma_activity_col_roundtrip, lemma_toplang_col_roundtrip, toplang_col, toplang_valid,
};
use crate::error::AppError;
use crate::models::{GithubStats, GithubStatsV, RecentActivityV, TopLanguageV};
use crate::store::{key_index, lemma_lookup_push, lemma_lookup_update, lookup, KeyedTable};

verus! {

/// A stored statistics row; the two list-valued fields are JSON text columns.
pub struct GithubStatsRow {
    pub username: String,
    pub repo_count: i32,
    pub followers: i32,
    pub contributions: i32,
    pub top_languages: String,
    pub recent_activity: String,
}

pub ghost struct GithubStatsRowV {
    pub username: Seq<char>,
    pub repo_count: int,
    pub followers: int,
    pub contributions: int,
    pub top_languages: Seq<char>,
    pub recent_activity: Seq<char>,
}

impl View for GithubStatsRow {
    type V = GithubStatsRowV;

    open spec fn view(&self) -> GithubStatsRowV {
        GithubStatsRowV {
            username: self.username@,
            repo_count: self.repo_count as int,
            followers: self.followers as int,
            contributions: self.contributions as int,
            top_languages: self.top_languages@,
            recent_activity: self.recent_activity@,
        }
    }
}

pub open spec fn toplang_or_empty(o: Option<Seq<TopLanguageV>>) -> Seq<TopLanguageV> {
    match o {
        Some(l) => l,
        None => Seq::empty(),
    }
}

pub open spec fn activity_or_empty(o: Option<Seq<RecentActivityV>>) -> Seq<RecentActivityV> {
    match o {
        Some(l) => l,
        None => Seq::empty(),
    }
}

/// The entity a stored row is read as.
pub open spec fn stats_of_row(r: GithubStatsRowV) -> GithubStatsV {
    GithubStatsV {
        username: r.username,
        repo_count: r.repo_count,
        followers: r.followers,
        contributions: r.contributions,
        top_languages: toplang_or_empty(decode_toplang_col_spec(r.top_languages)),
        recent_activity: activity_or_empty(decode_activity_col_spec(r.recent_activity)),
    }
}

/// The row a statistics record is written as.
pub open spec fn row_of_stats(p: GithubStatsV) -> GithubStatsRowV {
    GithubStatsRowV {
        username: p.username,
        repo_count: p.repo_count,
        followers: p.followers,
        contributions: p.contributions,
        top_languages: toplang_col(p.top_languages),
        recent_activity: activity_col(p.recent_activity),
    }
}

/// Round-trip: reading back a written row gives the statistics unchanged,
/// provided each percentage fits the stored integer type.
pub proof fn law_stats_round_trip(p: GithubStatsV)
    requires
        forall|i: int|
            0 <= i < p.top_languages.len() ==> toplang_valid()(#[trigger] p.top_languages[i]),
    ensures
        stats_of_row(row_of_stats(p)) == p,
{
    lemma_toplang_col_roundtrip(p.top_languages);
    lemma_activity_col_roundtrip(p.recent_activity);
}

/// Writes a statistics record as a row.
pub fn stats_row(p: &GithubStats) -> (r: GithubStatsRow)
    ensures
        r@ == row_of_stats(p@),
{
    GithubStatsRow {
        username: p.username.clone(),
        repo_count: p.repo_count,
        followers: p.followers,
        contributions: p.contributions,
        top_languages: encode_toplang_col(&p.top_languages),
        recent_activity: encode_activity_col(&p.recent_activity),
    }
}

fn empty_toplangs() -> (r: Vec<crate::models::TopLanguage>)
    ensures
        r.deep_view() =~= Seq::<TopLanguageV>::empty(),
{
    Vec::new()
}

fn empty_activity() -> (r: Vec<crate::models::RecentActivity>)
    ensures
        r.deep_view() =~= Seq::<RecentActivityV>::empty(),
{
    Vec::new()
}

/// Reads a row back as its entity.
pub fn stats_from_row(r: &GithubStatsRow) -> (p: GithubStats)
    ensures
        p@ == stats_of_row(r@),
{
    let top_languages = match decode_toplang_col(r.top_languages.as_str()) {
        Some(l) => l,
        None => empty_toplangs(),
    };
    let recent_activity = match decode_activity_col(r.recent_activity.as_str()) {
        Some(l) => l,
        None => empty_activity(),
    };
    GithubStats {
        username: r.username.clone(),
        repo_count: r.repo_count,
        followers: r.followers,
        contributions: r.contributions,
        top_languages,
        recent_activity,
    }
}

/// The statistics table.
pub struct GithubStatsRepository {
    pub table: KeyedTable<GithubStatsRow>,
}

impl GithubStatsRepository {
    pub open spec fn wf(&self) -> bool {
        self.table.wf()
    }

    /// The singleton read: the first row, if any.
    pub open spec fn spec_first(&self) -> Option<GithubStatsV> {
        if self.table@.len() > 0 {
            Some(stats_of_row(self.table@[0].1@))
        } else {
            None
        }
    }

    pub open spec fn spec_find(&self, id: Seq<char>) -> Option<GithubStatsV> {
        match lookup(self.table@, id) {
            Some(row) => Some(stats_of_row(row@)),
            None => None,
        }
    }

    pub fn new() -> (r: GithubStatsRepository)
        ensures
            r.wf(),
            r.table@ =~= Seq::<(Seq<char>, GithubStatsRow)>::empty(),
    {
        GithubStatsRepository { table: KeyedTable::new() }
    }

    /// The singleton convention: at most the first row is ever read.
    pub fn find_all(&self) -> (r: Vec<GithubStats>)
        ensures
            self.table@.len() == 0 ==> r@.len() == 0,
            self.table@.len() > 0 ==> r@.len() == 1 && r@[0]@ == stats_of_row(
                self.table@[0].1@,
            ),
    {
        let mut r: Vec<GithubStats> = Vec::new();
        if self.table.len() > 0 {
            proof {
                assert(self.table@[0] == (self.table.rows@[0].0@, self.table.rows@[0].1));
            }
            let p = stats_from_row(&self.table.rows[0].1);
            r.push(p);
        }
        r
    }

    /// The statistics stored under `id`, or nothing.
    pub fn find_by_id(&self, id: &String) -> (r: Option<GithubStats>)
        ensures
            match r {
                Some(p) => self.spec_find(id@) == Some(p@),
                None => self.spec_find(id@) is None,
            },
    {
        match self.table.get(id) {
            Some(row) => Some(stats_from_row(row)),
            None => None,
        }
    }

    /// Stores a new statistics row under the given id and returns the record
    /// unchanged; a duplicate id is a storage error and changes nothing.
    pub fn create(&mut self, id: String, item: GithubStats) -> (r: Result<
        GithubStats,
        AppError,
    >)
        requires
            old(self).wf(),
        ensures
            final (self).wf(),
            match r {
                Ok(p) => {
                    &&& p@ == item@
                    &&& old(self).spec_find(id@) is None
                    &&& final (self).table@ =~= old(self).table@.push(
                        (id@, final (self).table@.last().1),
                    )
                    &&& final (self).table@.last().1@ == row_of_stats(item@)
                    &&& final (self).spec_find(id@) == Some(stats_of_row(row_of_stats(item@)))
                    &&& forall|k: Seq<char>|
                        k != id@ ==> #[trigger] final (self).spec_find(k) == old(
                            self,
                        ).spec_find(k)
                },
                Err(e) => {
                    &&& final (self).table@ == old(self).table@
                    &&& old(self).spec_find(id@) is Some
                    &&& e is DatabaseError
                },
            },
    {
        let row = stats_row(&item);
        let ghost grow = row;
        let ghost gid = id@;
        let inserted = self.table.insert_new(id, row);
        if inserted {
            proof {
                assert forall|k: Seq<char>| #[trigger]
                    lookup(self.table@, k) == (if k == gid {
                        Some(grow)
                    } else {
                        lookup(old(self).table@, k)
                    }) by {
                    lemma_lookup_push(old(self).table@, gid, grow, k);
                }
                assert(self.table@.last() == (gid, grow));
            }
            Ok(item)
        } else {
            Err(AppError::DatabaseError("duplicate id".to_owned()))
        }
    }

    /// Overwrites the row stored under `id`, keeping the key; an absent id is
    /// a silent no-op. Returns the values as given.
    #[verifier::rlimit(60)]
    pub fn update(&mut self, id: &String, item: GithubStats) -> (r: GithubStats)
        requires
            old(self).wf(),
        ensures
            final (self).wf(),
            r@ == item@,
            old(self).spec_find(id@) is Some ==> {
                &&& final (self).spec_find(id@) == Some(stats_of_row(row_of_stats(item@)))
                &&& final (self).table@.len() == old(self).table@.len()
                &&& forall|k: Seq<char>|
                    k != id@ ==> #[trigger] final (self).spec_find(k) == old(self).spec_find(k)
                &&& old(self).table@[0].0 == id@ ==> final (self).spec_first() == Some(
                    stats_of_row(row_of_stats(item@)),
                )
                &&& final (self).table@[0].0 == old(self).table@[0].0
            },
            old(self).spec_find(id@) is None ==> final (self).table@ == old(self).table@,
    {
        let row = stats_row(&item);
        let ghost grow = row;
        let updated = self.table.update_row(id, row);
        proof {
            if lookup(old(self).table@, id@) is Some {
                let j = key_index(old(self).table@, id@);
                lemma_lookup_update(old(self).table@, id@, grow, id@);
                assert(0 <= j < old(self).table@.len());
                assert(self.table@ == old(self).table@.update(j, (id@, grow)));
                assert forall|k: Seq<char>| #[trigger]
                    lookup(self.table@, k) == (if k == id@ {
                        Some(grow)
                    } else {
                        lookup(old(self).table@, k)
                    }) by {
                    lemma_lookup_update(old(self).table@, id@, grow, k);
                }
                if old(self).table@[0].0 == id@ {
                    crate::store::lemma_lookup_first(old(self).table@, id@, 0);
                    assert(j == 0);
                    assert(self.table@[0] == (id@, grow));
                } else {
                    crate::store::lemma_key_index_nonneg(
                        old(self).table@.drop_first(),
                        id@,
                    );
                    assert(j >= 1);
                    assert(self.table@[0] == old(self).table@[0]);
                }
            }
        }
        item
    }
}

} // verus!
