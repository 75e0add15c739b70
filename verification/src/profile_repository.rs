//! Storage for the profile, a singleton-style resource: the table may hold
//! many rows, but reads go through the first row only, and creation generates
//! the id.

use vstd::prelude::*;
use crate::columns::{
    decode_education_col, decode_education_col_spec, decode_languages_col,
    decode_languages_col_spec, decode_social_links_col, decode_social_links_col_spec,
    decode_strings_col, decode_strings_col_spec, education_col, encode_education_col,
    encode_languages_col, encode_social_links_col, encode_strings_col, languages_col,
    lemma_education_col_roundtrip, lemma_languages_col_roundtrip,
    lemma_social_links_col_roundtrip, lemma_strings_col_roundtrip, social_links_col, strings_col,
};
use crate::error::AppError;
use crate::models::{EducationV, LanguageV, Profile, ProfileV, SocialLinkV};
use crate::project_repository::{col_or_empty, empty_strings};
use crate::store::{key_index, lemma_lookup_push, lemma_lookup_update, lookup, KeyedTable};

verus! {

/// A stored profile row; every field is a JSON text column.
pub struct ProfileRow {
    pub bio: String,
    pub social_links: String,
    pub education: String,
    pub languages: String,
}

pub ghost struct ProfileRowV {
    pub bio: Seq<char>,
    pub social_links: Seq<char>,
    pub education: Seq<char>,
    pub languages: Seq<char>,
}

impl View for ProfileRow {
    type V = ProfileRowV;

    open spec fn view(&self) -> ProfileRowV {
        ProfileRowV {
            bio: self.bio@,
            social_links: self.social_links@,
            education: self.education@,
            languages: self.languages@,
        }
    }
}

pub open spec fn links_or_empty(o: Option<Seq<SocialLinkV>>) -> Seq<SocialLinkV> {
    match o {
        Some(l) => l,
        None => Seq::empty(),
    }
}

pub open spec fn education_or_empty(o: Option<Seq<EducationV>>) -> Seq<EducationV> {
    match o {
        Some(l) => l,
        None => Seq::empty(),
    }
}

pub open spec fn languages_or_empty(o: Option<Seq<LanguageV>>) -> Seq<LanguageV> {
    match o {
        Some(l) => l,
        None => Seq::empty(),
    }
}

/// The entity a stored row is read as.
pub open spec fn profile_of_row(r: ProfileRowV) -> ProfileV {
    ProfileV {
        bio: col_or_empty(decode_strings_col_spec(r.bio)),
        social_links: links_or_empty(decode_social_links_col_spec(r.social_links)),
        education: education_or_empty(decode_education_col_spec(r.education)),
        languages: languages_or_empty(decode_languages_col_spec(r.languages)),
    }
}

/// The row a profile is written as.
pub open spec fn row_of_profile(p: ProfileV) -> ProfileRowV {
    ProfileRowV {
        bio: strings_col(p.bio),
        social_links: social_links_col(p.social_links),
        education: education_col(p.education),
        languages: languages_col(p.languages),
    }
}

/// Round-trip: reading back a written row gives the profile unchanged,
/// whatever its lists hold.
pub proof fn law_profile_round_trip(p: ProfileV)
    ensures
        profile_of_row(row_of_profile(p)) == p,
{
    lemma_strings_col_roundtrip(p.bio);
    lemma_social_links_col_roundtrip(p.social_links);
    lemma_education_col_roundtrip(p.education);
    lemma_languages_col_roundtrip(p.languages);
}

/// Writes a profile as a row.
pub fn profile_row(p: &Profile) -> (r: ProfileRow)
    ensures
        r@ == row_of_profile(p@),
{
    ProfileRow {
        bio: encode_strings_col(&p.bio),
        social_links: encode_social_links_col(&p.social_links),
        education: encode_education_col(&p.education),
        languages: encode_languages_col(&p.languages),
    }
}

fn empty_links() -> (r: Vec<crate::models::SocialLink>)
    ensures
        r.deep_view() =~= Seq::<SocialLinkV>::empty(),
{
    Vec::new()
}

fn empty_education() -> (r: Vec<crate::models::Education>)
    ensures
        r.deep_view() =~= Seq::<EducationV>::empty(),
{
    Vec::new()
}

fn empty_languages() -> (r: Vec<crate::models::Language>)
    ensures
        r.deep_view() =~= Seq::<LanguageV>::empty(),
{
    Vec::new()
}

/// Reads a row back as its entity.
pub fn profile_from_row(r: &ProfileRow) -> (p: Profile)
    ensures
        p@ == profile_of_row(r@),
{
    let bio = match decode_strings_col(r.bio.as_str()) {
        Some(l) => l,
        None => empty_strings(),
    };
    let social_links = match decode_social_links_col(r.social_links.as_str()) {
        Some(l) => l,
        None => empty_links(),
    };
    let education = match decode_education_col(r.education.as_str()) {
        Some(l) => l,
        None => empty_education(),
    };
    let languages = match decode_languages_col(r.languages.as_str()) {
        Some(l) => l,
        None => empty_languages(),
    };
    Profile { bio, social_links, education, languages }
}

/// The profile table.
pub struct ProfileRepository {
    pub table: KeyedTable<ProfileRow>,
}

impl ProfileRepository {
    pub open spec fn wf(&self) -> bool {
        self.table.wf()
    }

    /// The singleton read: the first row, if any.
    pub open spec fn spec_first(&self) -> Option<ProfileV> {
        if self.table@.len() > 0 {
            Some(profile_of_row(self.table@[0].1@))
        } else {
            None
        }
    }

    pub open spec fn spec_find(&self, id: Seq<char>) -> Option<ProfileV> {
        match lookup(self.table@, id) {
            Some(row) => Some(profile_of_row(row@)),
            None => None,
        }
    }

    pub fn new() -> (r: ProfileRepository)
        ensures
            r.wf(),
            r.table@ =~= Seq::<(Seq<char>, ProfileRow)>::empty(),
    {
        ProfileRepository { table: KeyedTable::new() }
    }

    /// The singleton convention: at most the first row is ever read.
    pub fn find_all(&self) -> (r: Vec<Profile>)
        ensures
            self.table@.len() == 0 ==> r@.len() == 0,
            self.table@.len() > 0 ==> r@.len() == 1 && r@[0]@ == profile_of_row(
                self.table@[0].1@,
            ),
    {
        let mut r: Vec<Profile> = Vec::new();
        if self.table.len() > 0 {
            proof {
                assert(self.table@[0] == (self.table.rows@[0].0@, self.table.rows@[0].1));
            }
            let p = profile_from_row(&self.table.rows[0].1);
            r.push(p);
        }
        r
    }

    /// The key of the first row, if any.
    pub fn first_id(&self) -> (r: Option<String>)
        ensures
            match r {
                Some(id) => self.table@.len() > 0 && id@ == self.table@[0].0,
                None => self.table@.len() == 0,
            },
    {
        if self.table.len() > 0 {
            proof {
                assert(self.table@[0] == (self.table.rows@[0].0@, self.table.rows@[0].1));
            }
            Some(self.table.rows[0].0.clone())
        } else {
            None
        }
    }

    /// The profile stored under `id`, or nothing.
    pub fn find_by_id(&self, id: &String) -> (r: Option<Profile>)
        ensures
            match r {
                Some(p) => self.spec_find(id@) == Some(p@),
                None => self.spec_find(id@) is None,
            },
    {
        match self.table.get(id) {
            Some(row) => Some(profile_from_row(row)),
            None => None,
        }
    }

    /// Stores a new profile row under the given id and returns the profile
    /// unchanged; a duplicate id is a storage error and changes nothing.
    pub fn create(&mut self, id: String, item: Profile) -> (r: Result<Profile, AppError>)
        requires
            old(self).wf(),
        ensures
            final (self).wf(),
            match r {
                Ok(p) => {
                    &&& p@ == item@
                    &&& old(self).spec_find(id@) is None
                    &&& final (self).table@ =~= old(self).table@.push(
                        (id@, final (self).table@.last().1),
                    )
                    &&& final (self).table@.last().1@ == row_of_profile(item@)
                    &&& final (self).spec_find(id@) == Some(item@)
                    &&& forall|k: Seq<char>|
                        k != id@ ==> #[trigger] final (self).spec_find(k) == old(
                            self,
                        ).spec_find(k)
                },
                Err(e) => {
                    &&& final (self).table@ == old(self).table@
                    &&& old(self).spec_find(id@) is Some
                    &&& e is DatabaseError
                },
            },
    {
        let row = profile_row(&item);
        let ghost grow = row;
        let ghost gid = id@;
        let inserted = self.table.insert_new(id, row);
        if inserted {
            proof {
                assert forall|k: Seq<char>| #[trigger]
                    lookup(self.table@, k) == (if k == gid {
                        Some(grow)
                    } else {
                        lookup(old(self).table@, k)
                    }) by {
                    lemma_lookup_push(old(self).table@, gid, grow, k);
                }
                assert(self.table@.last() == (gid, grow));
                law_profile_round_trip(item@);
            }
            Ok(item)
        } else {
            Err(AppError::DatabaseError("duplicate id".to_owned()))
        }
    }

    /// Overwrites the row stored under `id`, keeping the key; an absent id is
    /// a silent no-op. Returns the values as given.
    #[verifier::rlimit(60)]
    pub fn update(&mut self, id: &String, item: Profile) -> (r: Profile)
        requires
            old(self).wf(),
        ensures
            final (self).wf(),
            r@ == item@,
            old(self).spec_find(id@) is Some ==> {
                &&& final (self).spec_find(id@) == Some(profile_of_row(row_of_profile(item@)))
                &&& final (self).table@.len() == old(self).table@.len()
                &&& forall|k: Seq<char>|
                    k != id@ ==> #[trigger] final (self).spec_find(k) == old(self).spec_find(k)
                &&& old(self).table@[0].0 == id@ ==> final (self).spec_first() == Some(
                    profile_of_row(row_of_profile(item@)),
                )
                &&& final (self).table@[0].0 == old(self).table@[0].0
            },
            old(self).spec_find(id@) is None ==> final (self).table@ == old(self).table@,
    {
        let row = profile_row(&item);
        let ghost grow = row;
        let updated = self.table.update_row(id, row);
        proof {
            if lookup(old(self).table@, id@) is Some {
                let j = key_index(old(self).table@, id@);
                lemma_lookup_update(old(self).table@, id@, grow, id@);
                assert(0 <= j < old(self).table@.len());
                assert(self.table@ == old(self).table@.update(j, (id@, grow)));
                assert forall|k: Seq<char>| #[trigger]
                    lookup(self.table@, k) == (if k == id@ {
                        Some(grow)
                    } else {
                        lookup(old(self).table@, k)
                    }) by {
                    lemma_lookup_update(old(self).table@, id@, grow, k);
                }
                if old(self).table@[0].0 == id@ {
                    crate::store::lemma_lookup_first(old(self).table@, id@, 0);
                    assert(j == 0);
                    assert(self.table@[0] == (id@, grow));
                } else {
                    crate::store::lemma_key_index_nonneg(
                        old(self).table@.drop_first(),
                        id@,
                    );
                    assert(j >= 1);
                    assert(self.table@[0] == old(self).table@[0]);
                }
            }
        }
        item
    }
}

} // verus!
