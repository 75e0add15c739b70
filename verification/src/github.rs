//! The GitHub aggregation service: the wire shapes the external API answers
//! with, and the derivations computed from them — the language histogram,
//! the recent-activity mapping, and the assembled profile. Fetching itself
//! is I/O and happens outside; every derivation here is verified for
//! whatever data came back.

use vstd::prelude::*;
use crate::models::{RecentActivity, TopLanguage, TopLanguageV};
use vstd::string::StringExecFns;

verus! {

// ------------------------------------------------------------------
// Wire shapes

pub struct GitHubUser {
    pub login: String,
    pub id: i64,
    pub avatar_url: String,
    pub html_url: String,
    pub name: Option<String>,
    pub company: Option<String>,
    pub blog: Option<String>,
    pub location: Option<String>,
    pub email: Option<String>,
    pub bio: Option<String>,
    pub twitter_username: Option<String>,
    pub public_repos: i32,
    pub public_gists: i32,
    pub followers: i32,
    pub following: i32,
    pub created_at: String,
    pub updated_at: String,
}

pub struct GitHubRepo {
    pub id: i64,
    pub name: String,
    pub full_name: String,
    pub html_url: String,
    pub description: Option<String>,
    pub fork: bool,
    pub created_at: String,
    pub updated_at: String,
    pub pushed_at: String,
    pub homepage: Option<String>,
    pub size: i32,
    pub stargazers_count: i32,
    pub watchers_count: i32,
    pub language: Option<String>,
    pub forks_count: i32,
    pub open_issues_count: i32,
    pub topics: Option<Vec<String>>,
    pub visibility: Option<String>,
}

pub struct GitHubOrg {
    pub login: String,
    pub id: i64,
    pub avatar_url: String,
    pub description: Option<String>,
    pub url: String,
}

pub struct GitHubActor {
    pub id: i64,
    pub login: String,
    pub display_login: String,
    pub avatar_url: String,
}

pub struct GitHubActivityRepo {
    pub id: i64,
    pub name: String,
    pub url: String,
}

/// A public event; the payload is carried as its raw JSON text.
pub struct GitHubActivity {
    pub id: String,
    pub event_type: String,
    pub actor: GitHubActor,
    pub repo: GitHubActivityRepo,
    pub payload: String,
    pub public: bool,
    pub created_at: String,
}

/// The aggregation service's identity: whose account is summarized, and an
/// optional API token the fetching side sends.
pub struct GitHubService {
    pub username: String,
    pub token: Option<String>,
}

// ------------------------------------------------------------------
// ASCII lowering

pub open spec fn lower_char(c: char) -> char {
    if 65 <= c as u32 <= 90 {
        ((c as u32 + 32) as u32) as char
    } else {
        c
    }
}

pub open spec fn lower_ascii(s: Seq<char>) -> Seq<char> {
    Seq::new(s.len(), |i: int| lower_char(s[i]))
}

/// Lowers the ASCII letters of a text, leaving everything else alone.
pub fn ascii_lower(s: &str) -> (r: String)
    ensures
        r@ == lower_ascii(s@),
{
    let cs = crate::json::chars_of(s);
    let mut out = String::new();
    let n = cs.len();
    let mut i: usize = 0;
    while i < n
        invariant
            i <= n,
            n == cs@.len(),
            cs@ == s@,
            out@ == lower_ascii(s@).take(i as int),
        decreases n - i,
    {
        let c = cs[i];
        let u = c as u32;
        let lc: char;
        if 65 <= u && u <= 90 {
            lc = ((u + 32) as u8) as char;
            proof {
                assert(lc as u32 == u + 32);
                vstd::utf8::char_u32_cast(lc, (u + 32) as u32);
                assert(lc == lower_char(c));
            }
        } else {
            lc = c;
        }
        out.push(lc);
        proof {
            assert(out@ =~= lower_ascii(s@).take(i + 1));
        }
        i = i + 1;
    }
    proof {
        assert(lower_ascii(s@).take(n as int) =~= lower_ascii(s@));
    }
    out
}

// ------------------------------------------------------------------
// Recent activity

/// Maps fetched events to the stored activity entries: the date is kept, the
/// repository named, and the message formed from the lowered event type.
pub fn recent_activity_from_events(events: &Vec<GitHubActivity>) -> (r: Vec<RecentActivity>)
    ensures
        r@.len() == events@.len(),
        forall|i: int|
            0 <= i < r@.len() ==> {
                &&& (#[trigger] r@[i]).date@ == events@[i].created_at@
                &&& r@[i].repo@ == events@[i].repo.name@
                &&& r@[i].message@ == lower_ascii(events@[i].event_type@) + "ed to "@
                    + events@[i].repo.name@
            },
{
    let mut r: Vec<RecentActivity> = Vec::new();
    let n = events.len();
    let mut i: usize = 0;
    while i < n
        invariant
            i <= n,
            n == events@.len(),
            r@.len() == i,
            forall|q: int|
                0 <= q < i ==> {
                    &&& (#[trigger] r@[q]).date@ == events@[q].created_at@
                    &&& r@[q].repo@ == events@[q].repo.name@
                    &&& r@[q].message@ == lower_ascii(events@[q].event_type@) + "ed to "@
                        + events@[q].repo.name@
                },
        decreases n - i,
    {
        let e = &events[i];
        let mut message = ascii_lower(e.event_type.as_str());
        message.append("ed to ");
        message.append(e.repo.name.as_str());
        r.push(
            RecentActivity {
                date: e.created_at.clone(),
                message,
                repo: e.repo.name.clone(),
            },
        );
        i = i + 1;
    }
    r
}

// ------------------------------------------------------------------
// The language histogram

/// Whether a repository names a primary language.
pub open spec fn has_language(r: GitHubRepo) -> bool {
    match r.language {
        Some(l) => l@.len() > 0,
        None => false,
    }
}

/// How many of the first `i` repositories name a language.
pub open spec fn lang_count_to(s: Seq<GitHubRepo>, i: int) -> int
    decreases i,
{
    if i <= 0 {
        0
    } else {
        lang_count_to(s, i - 1) + if has_language(s[i - 1]) {
            1int
        } else {
            0int
        }
    }
}

/// The sum of the percentages of a histogram.
pub open spec fn sum_perc(l: Seq<TopLanguageV>) -> int
    decreases l.len(),
{
    if l.len() == 0 {
        0
    } else {
        sum_perc(l.drop_last()) + l.last().percentage
    }
}

proof fn lemma_sum_perc_update(l: Seq<TopLanguageV>, j: int, v: TopLanguageV)
    requires
        0 <= j < l.len(),
    ensures
        sum_perc(l.update(j, v)) == sum_perc(l) - l[j].percentage + v.percentage,
    decreases l.len(),
{
    let l2 = l.update(j, v);
    if j == l.len() - 1 {
        assert(l2.drop_last() =~= l.drop_last());
        assert(l2.last() == v);
    } else {
        assert(l2.drop_last() =~= l.drop_last().update(j, v));
        assert(l2.last() == l.last());
        lemma_sum_perc_update(l.drop_last(), j, v);
    }
}

/// How many repositories name `name` as their primary language, among the
/// first `i`.
pub open spec fn tally_to(s: Seq<GitHubRepo>, i: int, name: Seq<char>) -> int
    decreases i,
{
    if i <= 0 {
        0
    } else {
        tally_to(s, i - 1, name) + (match s[i - 1].language {
            Some(l) => if l@ == name {
                1int
            } else {
                0int
            },
            None => 0int,
        })
    }
}

/// How many repositories name `name` as their primary language.
pub open spec fn spec_tally(s: Seq<GitHubRepo>, name: Seq<char>) -> int {
    tally_to(s, s.len() as int, name)
}

/// A complete tally of the repositories' primary languages, largest counts
/// first: pairwise-distinct non-empty names, each with its exact count, in
/// descending count order, and no tallied language missing.
pub open spec fn is_language_tally(t: Seq<(Seq<char>, int)>, repos: Seq<GitHubRepo>) -> bool {
    &&& forall|i: int, j: int| 0 <= i < j < t.len() ==> (#[trigger] t[i]).0 != (#[trigger] t[j]).0
    &&& forall|i: int|
        0 <= i < t.len() ==> (#[trigger] t[i]).0.len() > 0 && t[i].1 == spec_tally(
            repos,
            t[i].0,
        ) && t[i].1 >= 1
    &&& forall|i: int, j: int| 0 <= i <= j < t.len() ==> (#[trigger] t[i]).1 >= (#[trigger] t[j]).1
    &&& forall|name: Seq<char>|
        name.len() > 0 && #[trigger] spec_tally(repos, name) >= 1 ==> exists|i: int|
            0 <= i < t.len() && (#[trigger] t[i]).0 == name
}

/// A count's share of the total, rounded half-up.
pub open spec fn round_pct(c: int, t: int) -> int {
    (c * 200 + t) / (2 * t)
}

/// The leading entries of the histogram: the four largest tallies (or all of
/// them, if fewer), each with its rounded share.
pub open spec fn heads_of(t: Seq<(Seq<char>, int)>, total: int) -> Seq<TopLanguageV> {
    Seq::new(
        if t.len() < 4 {
            t.len()
        } else {
            4
        },
        |i: int| TopLanguageV { name: t[i].0, percentage: round_pct(t[i].1, total) },
    )
}

/// The rounded shares of the tallies from position `i` on, summed.
pub open spec fn other_sum(t: Seq<(Seq<char>, int)>, total: int, i: int) -> int
    decreases t.len() - i,
{
    if i < 0 || i >= t.len() {
        0
    } else {
        round_pct(t[i].1, total) + other_sum(t, total, i + 1)
    }
}

/// The histogram before the rounding fix: the leading entries, then an
/// aggregate bucket whenever anything is left over.
pub open spec fn histogram_pre(t: Seq<(Seq<char>, int)>, total: int) -> Seq<TopLanguageV> {
    heads_of(t, total) + (if other_sum(t, total, 4) > 0 {
        seq![TopLanguageV { name: "Other"@, percentage: other_sum(t, total, 4) }]
    } else {
        Seq::<TopLanguageV>::empty()
    })
}

/// The position of the first entry holding the largest percentage, scanning
/// from `i` with `best` the best position so far.
pub open spec fn first_max_from(l: Seq<TopLanguageV>, i: int, best: int) -> int
    decreases l.len() - i,
{
    if i < 0 || i >= l.len() {
        best
    } else if l[i].percentage > l[best].percentage {
        first_max_from(l, i + 1, i)
    } else {
        first_max_from(l, i + 1, best)
    }
}

/// The rounding fix: if the shares do not already sum to one hundred, the
/// first largest bucket absorbs the difference.
pub open spec fn nudged(l: Seq<TopLanguageV>) -> Seq<TopLanguageV> {
    if sum_perc(l) == 100 {
        l
    } else {
        let j = first_max_from(l, 1, 0);
        l.update(
            j,
            TopLanguageV { name: l[j].name, percentage: l[j].percentage + 100 - sum_perc(l) },
        )
    }
}

/// The histogram a tally is served as.
pub open spec fn histogram_of(t: Seq<(Seq<char>, int)>, total: int) -> Seq<TopLanguageV> {
    nudged(histogram_pre(t, total))
}

/// The ghost reading of a tallied-count vector.
pub open spec fn counts_view(v: Seq<(String, i32)>) -> Seq<(Seq<char>, int)> {
    Seq::new(v.len(), |i: int| (v[i].0@, v[i].1 as int))
}

/// A rounded share lies between nothing and the whole.
proof fn lemma_round_pct_bounds(c: int, t: int)
    requires
        1 <= c <= t,
        1 <= t,
    ensures
        0 <= round_pct(c, t) <= 100,
{
    let a = c * 200 + t;
    let d = 2 * t;
    vstd::arithmetic::div_mod::lemma_fundamental_div_mod(a, d);
    assert(a <= 201 * t) by (nonlinear_arith)
        requires
            a == c * 200 + t,
            c <= t,
    {
    }
    assert(a >= 0) by (nonlinear_arith)
        requires
            a == c * 200 + t,
            c >= 1,
            t >= 1,
    {
    }
    assert(0 <= a / d <= 100) by (nonlinear_arith)
        requires
            a == d * (a / d) + (a % d),
            0 <= a % d < d,
            d == 2 * t,
            t >= 1,
            0 <= a <= 201 * t,
    {
    }
}

impl GitHubService {
    /// A service for the given account.
    pub fn new(username: String, token: Option<String>) -> (r: GitHubService)
        ensures
            r.username@ == username@,
            r.token.deep_view() == token.deep_view(),
    {
        GitHubService { username, token }
    }

    /// Derives the language histogram from the fetched repositories (the
    /// fetch is capped at one page of a hundred). Fewer than five
    /// language-bearing repositories fall back to a fixed illustrative
    /// distribution; otherwise the result is exactly the histogram of a
    /// complete descending tally of the primary languages: the four most
    /// frequent with their rounded shares, an aggregate bucket for whatever
    /// remains, and the first largest bucket absorbing the rounding
    /// difference so the shares sum to exactly one hundred.
    pub fn get_language_stats(&self, repos: &Vec<GitHubRepo>) -> (r: Vec<TopLanguage>)
        requires
            repos@.len() <= 100,
        ensures
            lang_count_to(repos@, repos@.len() as int) < 5 ==> {
                &&& r@.len() == 5
                &&& r@[0]@ == (TopLanguageV { name: "Rust"@, percentage: 35 })
                &&& r@[1]@ == (TopLanguageV { name: "TypeScript"@, percentage: 30 })
                &&& r@[2]@ == (TopLanguageV { name: "JavaScript"@, percentage: 20 })
                &&& r@[3]@ == (TopLanguageV { name: "C#"@, percentage: 10 })
                &&& r@[4]@ == (TopLanguageV { name: "Other"@, percentage: 5 })
            },
            lang_count_to(repos@, repos@.len() as int) >= 5 ==> exists|t: Seq<(Seq<char>, int)>|
                #[trigger] is_language_tally(t, repos@) && r.deep_view() == histogram_of(
                    t,
                    lang_count_to(repos@, repos@.len() as int),
                ),
    {
        let n = repos.len();
        let mut counts: Vec<(String, i32)> = Vec::new();
        let mut total: i32 = 0;
        let mut i: usize = 0;
        while i < n
            invariant
                i <= n <= 100,
                n == repos@.len(),
                total == lang_count_to(repos@, i as int),
                0 <= total <= i,
                counts@.len() <= total,
                forall|p: int, q: int|
                    0 <= p < q < counts@.len() ==> (#[trigger] counts@[p]).0@ != (
                    #[trigger] counts@[q]).0@,
                forall|q: int|
                    0 <= q < counts@.len() ==> (#[trigger] counts@[q]).0@.len() > 0 && counts@[
                        q
                    ].1 == tally_to(repos@, i as int, counts@[q].0@) && 1 <= counts@[q].1
                        <= total,
                forall|name: Seq<char>|
                    name.len() > 0 && #[trigger] tally_to(repos@, i as int, name) >= 1
                        ==> exists|q: int|
                        0 <= q < counts@.len() && (#[trigger] counts@[q]).0@ == name,
            decreases n - i,
        {
            let ghost pre = counts@;
            let repo = &repos[i];
            match &repo.language {
                Some(lang) => {
                    if !lang.as_str().is_empty() {
                        proof {
                            assert(has_language(repos@[i as int]));
                            assert forall|name: Seq<char>|
                                name != lang@ implies tally_to(repos@, i as int + 1, name)
                                == tally_to(repos@, i as int, name) by {}
                            assert(tally_to(repos@, i as int + 1, lang@) == tally_to(
                                repos@,
                                i as int,
                                lang@,
                            ) + 1);
                        }
                        match find_count_index(&counts, lang) {
                            Some(j) => {
                                let c = counts[j].1;
                                let name = counts[j].0.clone();
                                counts[j] = (name, c + 1);
                                proof {
                                    assert(counts@[j as int].0@ == lang@ && counts@[j as int].1
                                        == c + 1);
                                    assert forall|q: int|
                                        0 <= q < counts@.len() && q != j implies (
                                    #[trigger] counts@[q]) == pre[q] by {}
                                    assert forall|name: Seq<char>|
                                        name.len() > 0 && #[trigger] tally_to(
                                            repos@,
                                            i as int + 1,
                                            name,
                                        ) >= 1 implies exists|q: int|
                                        0 <= q < counts@.len() && (#[trigger] counts@[q]).0@
                                            == name by {
                                        if name == lang@ {
                                            assert(counts@[j as int].0@ == name);
                                        } else {
                                            assert(tally_to(repos@, i as int, name) >= 1);
                                            let w = choose|q: int|
                                                0 <= q < pre.len() && (#[trigger] pre[q]).0@
                                                    == name;
                                            assert(counts@[w].0@ == name);
                                        }
                                    }
                                }
                            },
                            None => {
                                proof {
                                    lemma_tally_nonneg(repos@, i as int, lang@);
                                    if tally_to(repos@, i as int, lang@) >= 1 {
                                        let w = choose|q: int|
                                            0 <= q < pre.len() && (#[trigger] pre[q]).0@
                                                == lang@;
                                        assert(false);
                                    }
                                    assert(tally_to(repos@, i as int, lang@) == 0);
                                }
                                counts.push((lang.clone(), 1));
                                proof {
                                    assert forall|q: int|
                                        0 <= q < pre.len() implies (#[trigger] counts@[q])
                                        == pre[q] by {}
                                    assert(counts@[pre.len() as int].0@ == lang@);
                                    assert forall|name: Seq<char>|
                                        name.len() > 0 && #[trigger] tally_to(
                                            repos@,
                                            i as int + 1,
                                            name,
                                        ) >= 1 implies exists|q: int|
                                        0 <= q < counts@.len() && (#[trigger] counts@[q]).0@
                                            == name by {
                                        if name == lang@ {
                                            assert(counts@[pre.len() as int].0@ == name);
                                        } else {
                                            assert(tally_to(repos@, i as int, name) >= 1);
                                            let w = choose|q: int|
                                                0 <= q < pre.len() && (#[trigger] pre[q]).0@
                                                    == name;
                                            assert(counts@[w].0@ == name);
                                        }
                                    }
                                }
                            },
                        }
                        total = total + 1;
                    } else {
                        proof {
                            assert(!has_language(repos@[i as int]));
                            assert forall|name: Seq<char>|
                                name.len() > 0 && #[trigger] tally_to(
                                    repos@,
                                    i as int + 1,
                                    name,
                                ) >= 1 implies exists|q: int|
                                0 <= q < counts@.len() && (#[trigger] counts@[q]).0@
                                    == name by {
                                assert(tally_to(repos@, i as int + 1, name) == tally_to(
                                    repos@,
                                    i as int,
                                    name,
                                ));
                                let w = choose|q: int|
                                    0 <= q < counts@.len() && (#[trigger] counts@[q]).0@
                                        == name;
                            }
                            assert forall|q: int|
                                0 <= q < counts@.len() implies (#[trigger] counts@[q]).1
                                == tally_to(repos@, i as int + 1, counts@[q].0@) by {}
                        }
                    }
                },
                None => {
                    proof {
                        assert(!has_language(repos@[i as int]));
                        assert forall|name: Seq<char>|
                            name.len() > 0 && #[trigger] tally_to(
                                repos@,
                                i as int + 1,
                                name,
                            ) >= 1 implies exists|q: int|
                            0 <= q < counts@.len() && (#[trigger] counts@[q]).0@ == name by {
                            assert(tally_to(repos@, i as int + 1, name) == tally_to(
                                repos@,
                                i as int,
                                name,
                            ));
                            let w = choose|q: int|
                                0 <= q < counts@.len() && (#[trigger] counts@[q]).0@ == name;
                        }
                        assert forall|q: int|
                            0 <= q < counts@.len() implies (#[trigger] counts@[q]).1
                            == tally_to(repos@, i as int + 1, counts@[q].0@) by {}
                    }
                },
            }
            i = i + 1;
        }
        if total < 5 {
            let mut r: Vec<TopLanguage> = Vec::new();
            r.push(TopLanguage { name: "Rust".to_owned(), percentage: 35 });
            r.push(TopLanguage { name: "TypeScript".to_owned(), percentage: 30 });
            r.push(TopLanguage { name: "JavaScript".to_owned(), percentage: 20 });
            r.push(TopLanguage { name: "C#".to_owned(), percentage: 10 });
            r.push(TopLanguage { name: "Other".to_owned(), percentage: 5 });
            return r;
        }
        // order the tallies by count, largest first
        let ghost cinit = counts@.len();
        let mut sorted: Vec<(String, i32)> = Vec::new();
        while counts.len() > 0
            invariant
                n == repos@.len(),
                5 <= total <= 100,
                total == lang_count_to(repos@, n as int),
                counts@.len() + sorted@.len() == cinit,
                forall|p: int, q: int|
                    0 <= p < q < counts@.len() ==> (#[trigger] counts@[p]).0@ != (
                    #[trigger] counts@[q]).0@,
                forall|p: int, q: int|
                    0 <= p < q < sorted@.len() ==> (#[trigger] sorted@[p]).0@ != (
                    #[trigger] sorted@[q]).0@,
                forall|p: int, q: int|
                    0 <= p < counts@.len() && 0 <= q < sorted@.len() ==> (
                    #[trigger] counts@[p]).0@ != (#[trigger] sorted@[q]).0@,
                forall|q: int|
                    0 <= q < counts@.len() ==> (#[trigger] counts@[q]).0@.len() > 0 && counts@[
                        q
                    ].1 == spec_tally(repos@, counts@[q].0@) && 1 <= counts@[q].1 <= total,
                forall|q: int|
                    0 <= q < sorted@.len() ==> (#[trigger] sorted@[q]).0@.len() > 0 && sorted@[
                        q
                    ].1 == spec_tally(repos@, sorted@[q].0@) && 1 <= sorted@[q].1 <= total,
                forall|name: Seq<char>|
                    name.len() > 0 && #[trigger] spec_tally(repos@, name) >= 1 ==> (exists|q: int|
                        0 <= q < counts@.len() && (#[trigger] counts@[q]).0@ == name) || (exists|
                        q: int,
                    |
                        0 <= q < sorted@.len() && (#[trigger] sorted@[q]).0@ == name),
                forall|p: int, q: int|
                    0 <= p <= q < sorted@.len() ==> (#[trigger] sorted@[p]).1 >= (
                    #[trigger] sorted@[q]).1,
                sorted@.len() > 0 ==> forall|q: int|
                    0 <= q < counts@.len() ==> (#[trigger] counts@[q]).1 <= sorted@[sorted@.len()
                        - 1].1,
            decreases counts@.len(),
        {
            let m = counts.len();
            let mut best: usize = 0;
            let mut j: usize = 1;
            while j < m
                invariant
                    best < j <= m,
                    m == counts@.len(),
                    forall|q: int| 0 <= q < j ==> (#[trigger] counts@[q]).1 <= counts@[
                        best as int].1,
                decreases m - j,
            {
                if counts[j].1 > counts[best].1 {
                    best = j;
                }
                j = j + 1;
            }
            let ghost cpre = counts@;
            let ghost spre = sorted@;
            let e = counts.remove(best);
            sorted.push(e);
            proof {
                assert(e == cpre[best as int]);
                assert(counts@ == cpre.remove(best as int));
                assert forall|q: int|
                    0 <= q < counts@.len() implies (#[trigger] counts@[q]) == (if q < best {
                    cpre[q]
                } else {
                    cpre[q + 1]
                }) by {}
                assert forall|q: int|
                    0 <= q < spre.len() implies (#[trigger] sorted@[q]) == spre[q] by {}
                assert(sorted@[spre.len() as int] == e);
                assert forall|name: Seq<char>|
                    name.len() > 0 && #[trigger] spec_tally(repos@, name) >= 1 implies (exists|
                    q: int,
                |
                    0 <= q < counts@.len() && (#[trigger] counts@[q]).0@ == name) || (exists|
                    q: int,
                |
                    0 <= q < sorted@.len() && (#[trigger] sorted@[q]).0@ == name) by {
                    if exists|q: int| 0 <= q < cpre.len() && (#[trigger] cpre[q]).0@ == name {
                        let w = choose|q: int|
                            0 <= q < cpre.len() && (#[trigger] cpre[q]).0@ == name;
                        if w == best {
                            assert(sorted@[spre.len() as int].0@ == name);
                        } else if w < best {
                            assert(counts@[w].0@ == name);
                        } else {
                            assert(counts@[w - 1].0@ == name);
                        }
                    } else {
                        let w = choose|q: int|
                            0 <= q < spre.len() && (#[trigger] spre[q]).0@ == name;
                        assert(sorted@[w].0@ == name);
                    }
                }
            }
        }
        // the four largest tallies, their rounded shares, and the rest in an
        // aggregate bucket
        let ghost tv = counts_view(sorted@);
        let ghost gtotal = total as int;
        proof {
            assert(is_language_tally(tv, repos@)) by {
                assert forall|name: Seq<char>|
                    name.len() > 0 && #[trigger] spec_tally(repos@, name) >= 1 implies exists|
                    q: int,
                |
                    0 <= q < tv.len() && (#[trigger] tv[q]).0 == name by {
                    let w = choose|q: int|
                        0 <= q < sorted@.len() && (#[trigger] sorted@[q]).0@ == name;
                    assert(tv[w].0 == name);
                }
            }
            assert(tv.len() >= 1) by {
                assert(lang_count_to(repos@, n as int) >= 5);
                lemma_lang_count_needs_language(repos@, n as int);
                let w = choose|q: int| 0 <= q < n && has_language(repos@[q]);
                assert(spec_tally(repos@, repos@[w].language->Some_0@) >= 1) by {
                    lemma_has_language_tally(repos@, n as int, w);
                }
            }
        }
        let mut r: Vec<TopLanguage> = Vec::new();
        let mut other: i32 = 0;
        let k = sorted.len();
        let mut j: usize = 0;
        while j < k
            invariant
                j <= k,
                1 <= k <= 100,
                k == sorted@.len(),
                5 <= total <= 100,
                gtotal == total as int,
                tv == counts_view(sorted@),
                forall|q: int| 0 <= q < tv.len() ==> 1 <= (#[trigger] tv[q]).1 <= total,
                j <= 4 ==> r.deep_view() == heads_of(tv, gtotal).take(j as int) && other == 0,
                j > 4 ==> r.deep_view() == heads_of(tv, gtotal) && other + other_sum(
                    tv,
                    gtotal,
                    j as int,
                ) == other_sum(tv, gtotal, 4),
                0 <= other <= 100 * j,
            decreases k - j,
        {
            let count = sorted[j].1;
            let ghost c = count as int;
            proof {
                assert(tv[j as int].1 == c);
                lemma_round_pct_bounds(c, gtotal);
            }
            let p64: u64 = ((count as u64) * 200 + (total as u64)) / (2 * (total as u64));
            proof {
                assert(p64 as int == round_pct(c, gtotal));
            }
            let p: i32 = p64 as i32;
            if j < 4 {
                r.push(TopLanguage { name: sorted[j].0.clone(), percentage: p });
                proof {
                    assert(r.deep_view() =~= heads_of(tv, gtotal).take(j as int + 1));
                }
            } else {
                proof {
                    assert(other_sum(tv, gtotal, j as int) == round_pct(tv[j as int].1, gtotal)
                        + other_sum(tv, gtotal, j as int + 1));
                    if j == 4 {
                        assert(heads_of(tv, gtotal).take(4) =~= heads_of(tv, gtotal));
                    }
                }
                other = other + p;
            }
            j = j + 1;
        }
        proof {
            if k <= 4 {
                assert(heads_of(tv, gtotal).take(k as int) =~= heads_of(tv, gtotal));
                assert(other_sum(tv, gtotal, 4) == 0);
            } else {
                assert(other_sum(tv, gtotal, k as int) == 0);
            }
            assert(r.deep_view() == heads_of(tv, gtotal));
            assert(other == other_sum(tv, gtotal, 4));
        }
        if other > 0 {
            r.push(TopLanguage { name: "Other".to_owned(), percentage: other });
        }
        proof {
            assert(r.deep_view() =~= histogram_pre(tv, gtotal));
            assert(r@.len() >= 1 && r@.len() <= 5);
            assert forall|q: int|
                0 <= q < r@.len() implies 0 <= (#[trigger] r.deep_view()[q]).percentage
                <= 10000 by {
                if q < heads_of(tv, gtotal).len() {
                    lemma_round_pct_bounds(tv[q].1, gtotal);
                }
            }
        }
        let ghost hpre = r.deep_view();
        // nudge the first largest bucket so the total is exactly one hundred
        let rl = r.len();
        let mut sum: i64 = 0;
        let mut q: usize = 0;
        while q < rl
            invariant
                q <= rl,
                1 <= rl == r@.len() && rl <= 5,
                hpre == r.deep_view(),
                sum == sum_perc(r.deep_view().take(q as int)),
                0 <= sum <= 10000 * q,
                forall|t: int|
                    0 <= t < r@.len() ==> 0 <= (#[trigger] r.deep_view()[t]).percentage <= 10000,
            decreases rl - q,
        {
            proof {
                assert(r.deep_view().take(q as int + 1).drop_last() =~= r.deep_view().take(
                    q as int,
                ));
                assert(r.deep_view().take(q as int + 1).last() == r@[q as int]@);
            }
            sum = sum + (r[q].percentage as i64);
            q = q + 1;
        }
        proof {
            assert(r.deep_view().take(rl as int) =~= r.deep_view());
        }
        if sum != 100 {
            let mut jmax: usize = 0;
            let mut t: usize = 1;
            while t < rl
                invariant
                    jmax < t <= rl,
                    rl == r@.len(),
                    hpre == r.deep_view(),
                    first_max_from(r.deep_view(), t as int, jmax as int) == first_max_from(
                        r.deep_view(),
                        1,
                        0,
                    ),
                decreases rl - t,
            {
                if r[t].percentage > r[jmax].percentage {
                    jmax = t;
                }
                t = t + 1;
            }
            proof {
                assert(jmax as int == first_max_from(hpre, 1, 0));
            }
            let name = r[jmax].name.clone();
            proof {
                assert(r.deep_view()[jmax as int].percentage == r@[jmax as int].percentage
                    as int);
                assert(0 <= r.deep_view()[jmax as int].percentage <= 10000);
                assert(0 <= sum <= 50000);
            }
            let newp: i64 = (r[jmax].percentage as i64) + (100 - sum);
            proof {
                assert(-60000 <= newp <= 10100);
            }
            r[jmax] = TopLanguage { name, percentage: newp as i32 };
            proof {
                assert(hpre[jmax as int].name == r.deep_view()[jmax as int].name);
                assert(r.deep_view() =~= hpre.update(
                    jmax as int,
                    TopLanguageV {
                        name: hpre[jmax as int].name,
                        percentage: hpre[jmax as int].percentage + 100 - sum_perc(hpre),
                    },
                ));
                assert(r.deep_view() == nudged(hpre));
            }
        } else {
            proof {
                assert(r.deep_view() == nudged(hpre));
            }
        }
        proof {
            assert(r.deep_view() == histogram_of(tv, gtotal));
            assert(is_language_tally(tv, repos@) && r.deep_view() == histogram_of(
                tv,
                lang_count_to(repos@, repos@.len() as int),
            ));
        }
        r
    }
}

/// Locates a language in the running tally.
fn find_count_index(counts: &Vec<(String, i32)>, lang: &String) -> (r: Option<usize>)
    ensures
        match r {
            Some(j) => j < counts@.len() && counts@[j as int].0@ == lang@,
            None => forall|q: int| 0 <= q < counts@.len() ==> (#[trigger] counts@[q]).0@ != lang@,
        },
{
    let m = counts.len();
    let mut j: usize = 0;
    while j < m
        invariant
            j <= m,
            m == counts@.len(),
            forall|q: int| 0 <= q < j ==> (#[trigger] counts@[q]).0@ != lang@,
        decreases m - j,
    {
        if counts[j].0.eq(lang) {
            return Some(j);
        }
        j = j + 1;
    }
    None
}

/// A positive language count means some repository names a language.
proof fn lemma_lang_count_needs_language(s: Seq<GitHubRepo>, i: int)
    ensures
        lang_count_to(s, i) >= 1 ==> exists|q: int| 0 <= q < i && has_language(#[trigger] s[q]),
    decreases i,
{
    if i > 0 {
        lemma_lang_count_needs_language(s, i - 1);
        if lang_count_to(s, i) >= 1 && lang_count_to(s, i - 1) < 1 {
            assert(has_language(s[i - 1]));
        }
    }
}

/// A repository that names a language makes that language's tally positive.
proof fn lemma_has_language_tally(s: Seq<GitHubRepo>, i: int, w: int)
    requires
        0 <= w < i,
        has_language(s[w]),
    ensures
        tally_to(s, i, s[w].language->Some_0@) >= 1,
    decreases i,
{
    let name = s[w].language->Some_0@;
    if w == i - 1 {
        lemma_tally_nonneg(s, i - 1, name);
    } else {
        lemma_has_language_tally(s, i - 1, w);
    }
}

/// A tally never goes below nothing.
proof fn lemma_tally_nonneg(s: Seq<GitHubRepo>, i: int, name: Seq<char>)
    ensures
        tally_to(s, i, name) >= 0,
    decreases i,
{
    if i > 0 {
        lemma_tally_nonneg(s, i - 1, name);
    }
}

} // verus!
