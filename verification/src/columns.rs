//! Encoders and decoders for the JSON text columns of the store: each
//! list-valued entity field is written as a JSON array and read back, and
//! reading is proved to invert writing.

use vstd::prelude::*;
use crate::json::{
    chars_of, elem_shrinks, enc_items, enc_list, enc_obj2, enc_obj3, enc_obj_str_int, enc_string,
    enc_opens, lemma_enc_items_snoc, lemma_parse_list_inverts, lemma_parse_obj2_inverts,
    lemma_parse_obj2_shrinks, lemma_parse_obj3_inverts, lemma_parse_obj3_shrinks,
    lemma_parse_obj_str_int_inverts, lemma_parse_obj_str_int_shrinks,
    lemma_parse_string_inverts, lemma_parse_string_shrinks, parse_items, parse_list, parse_obj2,
    parse_obj2_at, parse_obj3, parse_obj3_at, parse_obj_str_int, parse_obj_str_int_at,
    parse_exact, parse_string, parse_string_at, parses_encoded, push_json_int, push_json_string,
};
use vstd::string::StringExecFns;
use crate::models::{
    Education, EducationV, Language, LanguageV, RecentActivity, RecentActivityV, SocialLink,
    SocialLinkV, TopLanguage, TopLanguageV,
};

verus! {

// ------------------------------------------------------------------
// Lists of strings

pub open spec fn jstr_p() -> spec_fn(Seq<char>) -> Option<(Seq<char>, Seq<char>)> {
    |s: Seq<char>| parse_string(s)
}

pub open spec fn jstr_g() -> spec_fn(Seq<char>) -> Seq<char> {
    |t: Seq<char>| enc_string(t)
}

/// The column text a list of strings is stored as.
pub open spec fn strings_col(l: Seq<Seq<char>>) -> Seq<char> {
    enc_list(jstr_g(), l)
}

/// What a stored column decodes to: the whole text must be one array.
pub open spec fn decode_strings_col_spec(s: Seq<char>) -> Option<Seq<Seq<char>>> {
    match parse_list(jstr_p(), s) {
        Some((l, r)) => if r.len() == 0 { Some(l) } else { None },
        None => None,
    }
}

pub open spec fn always<T>() -> spec_fn(T) -> bool {
    |e: T| true
}

pub proof fn lemma_jstr_wf()
    ensures
        elem_shrinks(jstr_p()),
        parses_encoded(jstr_p(), jstr_g(), always::<Seq<char>>()),
        enc_opens(jstr_g(), always::<Seq<char>>()),
{
    assert forall|s: Seq<char>|
        ((#[trigger] jstr_p()(s)) matches Some(p) ==> p.1.len() < s.len()) by {
        lemma_parse_string_shrinks(s);
    }
    assert forall|e: Seq<char>, rest: Seq<char>| #[trigger] jstr_p()(jstr_g()(e) + rest) == Some(
        (e, rest),
    ) by {
        lemma_parse_string_inverts(e, rest);
    }
    assert forall|e: Seq<char>| (#[trigger] jstr_g()(e)).len() >= 1 && jstr_g()(e)[0] != ']' by {
        assert(enc_string(e)[0] == '"');
    }
}

/// Decoding a written column gives back exactly the list that was written.
pub proof fn lemma_strings_col_roundtrip(l: Seq<Seq<char>>)
    ensures
        decode_strings_col_spec(strings_col(l)) == Some(l),
{
    lemma_jstr_wf();
    lemma_parse_list_inverts(jstr_p(), jstr_g(), always::<Seq<char>>(), l, Seq::empty());
    assert(enc_list(jstr_g(), l) + Seq::<char>::empty() =~= strings_col(l));
}

/// Writes a list of strings as its JSON column text.
pub fn encode_strings_col(l: &Vec<String>) -> (r: String)
    ensures
        r@ == strings_col(l.deep_view()),
{
    let ghost dv = l.deep_view();
    let mut out = String::new();
    out.push('[');
    let n = l.len();
    let mut i: usize = 0;
    while i < n
        invariant
            n == l.len(),
            dv == l.deep_view(),
            i <= n,
            out@ == seq!['['] + enc_items(jstr_g(), dv.take(i as int)),
        decreases n - i,
    {
        proof {
            assert(dv.take(i as int).push(dv[i as int]) =~= dv.take(i as int + 1));
            assert(dv[i as int] == l@[i as int]@);
        }
        if i > 0 {
            out.push(',');
            push_json_string(&mut out, l[i].as_str());
            proof {
                lemma_enc_items_snoc(jstr_g(), dv.take(i as int), dv[i as int]);
                assert(out@ =~= seq!['['] + enc_items(jstr_g(), dv.take(i as int + 1)));
            }
        } else {
            push_json_string(&mut out, l[i].as_str());
            proof {
                assert(dv.take(1) =~= seq![dv[0]]);
                assert(enc_items(jstr_g(), seq![dv[0]]) == jstr_g()(dv[0]));
                assert(out@ =~= seq!['['] + enc_items(jstr_g(), dv.take(1)));
            }
        }
        i = i + 1;
    }
    proof {
        assert(dv.take(n as int) =~= dv);
    }
    out.push(']');
    proof {
        assert(out@ =~= strings_col(dv));
    }
    out
}

/// Reads a JSON column back into a list of strings; anything else gives
/// `None`.
pub fn decode_strings_col(col: &str) -> (r: Option<Vec<String>>)
    ensures
        match r {
            Some(l) => decode_strings_col_spec(col@) == Some(l.deep_view()),
            None => decode_strings_col_spec(col@) is None,
        },
{
    let v = chars_of(col);
    let ghost s = col@;
    proof {
        assert(v@.skip(0) =~= s);
    }
    if v.len() == 0 {
        return None;
    }
    if v[0] != '[' {
        return None;
    }
    if v.len() >= 2 {
        let c1 = v[1];
        if c1 == ']' {
            if v.len() == 2 {
                let empty: Vec<String> = Vec::new();
                proof {
                    assert(s.skip(2) =~= Seq::<char>::empty());
                    assert(empty.deep_view() =~= Seq::<Seq<char>>::empty());
                }
                return Some(empty);
            } else {
                proof {
                    assert(s.skip(2).len() > 0);
                }
                return None;
            }
        }
    } else {
        proof {
            lemma_jstr_wf();
            assert(parse_string(s.skip(1)) is None);
        }
        return None;
    }
    proof {
        lemma_jstr_wf();
        assert(s.skip(1) =~= v@.skip(1));
    }
    let mut acc: Vec<String> = Vec::new();
    let mut p: usize = 1;
    loop
        invariant
            1 <= p <= v@.len(),
            s == v@,
            s == col@,
            elem_shrinks(jstr_p()),
            s.len() >= 2 && s[0] == '[' && s[1] != ']',
            parse_items(jstr_p(), v@.skip(p as int)) matches Some(lr)
                ==> parse_items(jstr_p(), s.skip(1)) == Some((acc.deep_view() + lr.0, lr.1)),
            parse_items(jstr_p(), v@.skip(p as int)) is None
                ==> parse_items(jstr_p(), s.skip(1)) is None,
        decreases v@.len() - p,
    {
        let ghost sp = v@.skip(p as int);
        let (e, p2) = match parse_string_at(&v, p) {
            Some(x) => x,
            None => {
                proof {
                    assert(parse_items(jstr_p(), sp) is None);
                }
                return None;
            },
        };
        let ghost old_acc = acc.deep_view();
        acc.push(e);
        proof {
            assert(acc.deep_view() =~= old_acc.push(e@));
        }
        if p2 >= v.len() {
            proof {
                assert(v@.skip(p2 as int).len() == 0);
                assert(parse_items(jstr_p(), sp) is None);
            }
            return None;
        }
        let c = v[p2];
        proof {
            assert(v@.skip(p2 as int)[0] == c);
        }
        if c == ']' {
            proof {
                assert(v@.skip(p2 as int).skip(1) =~= v@.skip(p2 as int + 1));
                assert(parse_items(jstr_p(), sp) == Some(
                    (seq![e@], v@.skip(p2 as int + 1)),
                ));
                assert(old_acc + seq![e@] =~= acc.deep_view());
            }
            if p2 + 1 == v.len() {
                proof {
                    assert(v@.skip(p2 as int + 1).len() == 0);
                    assert(parse_items(jstr_p(), s.skip(1)) == Some(
                        (acc.deep_view(), v@.skip(p2 as int + 1)),
                    ));
                    assert(parse_list(jstr_p(), s) == Some(
                        (acc.deep_view(), v@.skip(p2 as int + 1)),
                    ));
                }
                return Some(acc);
            } else {
                proof {
                    assert(v@.skip(p2 as int + 1).len() > 0);
                }
                return None;
            }
        } else if c == ',' {
            proof {
                assert(v@.skip(p2 as int).skip(1) =~= v@.skip(p2 as int + 1));
                if let Some((l2, r2)) = parse_items(jstr_p(), v@.skip(p2 as int + 1)) {
                    assert(parse_items(jstr_p(), sp) == Some((seq![e@] + l2, r2)));
                    assert(old_acc + (seq![e@] + l2) =~= acc.deep_view() + l2);
                }
            }
            p = p2 + 1;
        } else {
            proof {
                assert(parse_items(jstr_p(), sp) is None);
            }
            return None;
        }
    }
}

// ------------------------------------------------------------------
// Lists of social links

pub open spec fn social_p() -> spec_fn(Seq<char>) -> Option<(SocialLinkV, Seq<char>)> {
    |s: Seq<char>| match parse_obj3(s, "{\"title\":"@, ",\"url\":"@, ",\"icon\":"@) {
        Some((t, r)) => Some((SocialLinkV { title: t.0, url: t.1, icon: t.2 }, r)),
        None => None,
    }
}

pub open spec fn social_g() -> spec_fn(SocialLinkV) -> Seq<char> {
    |e: SocialLinkV| enc_obj3("{\"title\":"@, e.title, ",\"url\":"@, e.url, ",\"icon\":"@, e.icon)
}

/// The column text a list of social links is stored as.
pub open spec fn social_links_col(l: Seq<SocialLinkV>) -> Seq<char> {
    enc_list(social_g(), l)
}

pub open spec fn decode_social_links_col_spec(s: Seq<char>) -> Option<Seq<SocialLinkV>> {
    match parse_list(social_p(), s) {
        Some((l, r)) => if r.len() == 0 { Some(l) } else { None },
        None => None,
    }
}

pub proof fn lemma_social_links_wf()
    ensures
        elem_shrinks(social_p()),
        parses_encoded(social_p(), social_g(), always::<SocialLinkV>()),
        enc_opens(social_g(), always::<SocialLinkV>()),
{
    reveal_strlit("{\"title\":");
    assert forall|s: Seq<char>|
        ((#[trigger] social_p()(s)) matches Some(q) ==> q.1.len() < s.len()) by {
        lemma_parse_obj3_shrinks(s, "{\"title\":"@, ",\"url\":"@, ",\"icon\":"@);
    }
    assert forall|e: SocialLinkV, rest: Seq<char>| #[trigger] social_p()(social_g()(e) + rest) == Some(
        (e, rest),
    ) by {
        lemma_parse_obj3_inverts("{\"title\":"@, e.title, ",\"url\":"@, e.url, ",\"icon\":"@, e.icon, rest);
    }
    assert forall|e: SocialLinkV| (#[trigger] social_g()(e)).len() >= 1 && social_g()(e)[0] != ']' by {
        assert(social_g()(e)[0] == '{');
    }
}

/// Decoding a written column gives back exactly the list that was written.
pub proof fn lemma_social_links_col_roundtrip(l: Seq<SocialLinkV>)
    ensures
        decode_social_links_col_spec(social_links_col(l)) == Some(l),
{
    lemma_social_links_wf();
    lemma_parse_list_inverts(social_p(), social_g(), always::<SocialLinkV>(), l, Seq::empty());
    assert(enc_list(social_g(), l) + Seq::<char>::empty() =~= social_links_col(l));
}

fn push_social_links_item(out: &mut String, e: &SocialLink)
    ensures
        final (out)@ == old(out)@ + social_g()(e@),
{
    let ghost base = out@;
    out.append("{\"title\":");
    push_json_string(out, e.title.as_str());
    out.append(",\"url\":");
    push_json_string(out, e.url.as_str());
    out.append(",\"icon\":");
    push_json_string(out, e.icon.as_str());
    out.push('}');
    proof {
        assert(out@ =~= base + social_g()(e@));
    }
}

/// Writes a list of social links as its JSON column text.
pub fn encode_social_links_col(l: &Vec<SocialLink>) -> (r: String)
    ensures
        r@ == social_links_col(l.deep_view()),
{
    let ghost dv = l.deep_view();
    let mut out = String::new();
    out.push('[');
    let n = l.len();
    let mut i: usize = 0;
    while i < n
        invariant
            n == l.len(),
            dv == l.deep_view(),
            i <= n,
            out@ == seq!['['] + enc_items(social_g(), dv.take(i as int)),
        decreases n - i,
    {
        proof {
            assert(dv.take(i as int).push(dv[i as int]) =~= dv.take(i as int + 1));
            assert(dv[i as int] == l@[i as int]@);
        }
        if i > 0 {
            out.push(',');
            push_social_links_item(&mut out, &l[i]);
            proof {
                lemma_enc_items_snoc(social_g(), dv.take(i as int), dv[i as int]);
                assert(out@ =~= seq!['['] + enc_items(social_g(), dv.take(i as int + 1)));
            }
        } else {
            push_social_links_item(&mut out, &l[i]);
            proof {
                assert(dv.take(1) =~= seq![dv[0]]);
                assert(enc_items(social_g(), seq![dv[0]]) == social_g()(dv[0]));
                assert(out@ =~= seq!['['] + enc_items(social_g(), dv.take(1)));
            }
        }
        i = i + 1;
    }
    proof {
        assert(dv.take(n as int) =~= dv);
    }
    out.push(']');
    proof {
        assert(out@ =~= social_links_col(dv));
    }
    out
}

/// Reads a JSON column back into a list of social links.
#[verifier::rlimit(60)]
pub fn decode_social_links_col(col: &str) -> (r: Option<Vec<SocialLink>>)
    ensures
        match r {
            Some(l) => decode_social_links_col_spec(col@) == Some(l.deep_view()),
            None => decode_social_links_col_spec(col@) is None,
        },
{
    let v = chars_of(col);
    let ghost s = col@;
    proof {
        assert(v@.skip(0) =~= s);
    }
    if v.len() == 0 {
        return None;
    }
    if v[0] != '[' {
        return None;
    }
    if v.len() >= 2 {
        let c1 = v[1];
        if c1 == ']' {
            if v.len() == 2 {
                let empty: Vec<SocialLink> = Vec::new();
                proof {
                    assert(s.skip(2) =~= Seq::<char>::empty());
                    assert(empty.deep_view() =~= Seq::<SocialLinkV>::empty());
                }
                return Some(empty);
            } else {
                proof {
                    assert(s.skip(2).len() > 0);
                }
                return None;
            }
        }
    } else {
        proof {
            lemma_social_links_wf();
            assert(s.skip(1).len() <= 1);
            reveal_strlit("{\"title\":");
            assert(parse_exact(s.skip(1), "{\"title\":"@) is None);
        }
        return None;
    }
    proof {
        lemma_social_links_wf();
        assert(s.skip(1) =~= v@.skip(1));
    }
    let mut acc: Vec<SocialLink> = Vec::new();
    let mut p: usize = 1;
    loop
        invariant
            1 <= p <= v@.len(),
            s == v@,
            s == col@,
            elem_shrinks(social_p()),
            s.len() >= 2 && s[0] == '[' && s[1] != ']',
            parse_items(social_p(), v@.skip(p as int)) matches Some(lr)
                ==> parse_items(social_p(), s.skip(1)) == Some((acc.deep_view() + lr.0, lr.1)),
            parse_items(social_p(), v@.skip(p as int)) is None
                ==> parse_items(social_p(), s.skip(1)) is None,
        decreases v@.len() - p,
    {
        let ghost sp = v@.skip(p as int);
        let (t, p2) = match parse_obj3_at(&v, p, "{\"title\":", ",\"url\":", ",\"icon\":") {
            Some(x) => x,
            None => {
                proof {
                    assert(parse_items(social_p(), sp) is None);
                }
                return None;
            },
        };
        let e = SocialLink { title: t.0, url: t.1, icon: t.2 };
        proof {
            assert(social_p()(sp) == Some((e@, v@.skip(p2 as int))));
        }
        if p2 <= p {
            proof {
                lemma_parse_obj3_shrinks(sp, "{\"title\":"@, ",\"url\":"@, ",\"icon\":"@);
                assert(false);
            }
        }
        let ghost old_acc = acc.deep_view();
        acc.push(e);
        proof {
            assert(acc.deep_view() =~= old_acc.push(e@));
        }
        if p2 >= v.len() {
            proof {
                assert(v@.skip(p2 as int).len() == 0);
                assert(parse_items(social_p(), sp) is None);
            }
            return None;
        }
        let c = v[p2];
        proof {
            assert(v@.skip(p2 as int)[0] == c);
        }
        if c == ']' {
            proof {
                assert(v@.skip(p2 as int).skip(1) =~= v@.skip(p2 as int + 1));
                assert(parse_items(social_p(), sp) == Some(
                    (seq![e@], v@.skip(p2 as int + 1)),
                ));
                assert(old_acc + seq![e@] =~= acc.deep_view());
            }
            if p2 + 1 == v.len() {
                proof {
                    assert(v@.skip(p2 as int + 1).len() == 0);
                    assert(parse_items(social_p(), s.skip(1)) == Some(
                        (acc.deep_view(), v@.skip(p2 as int + 1)),
                    ));
                    assert(parse_list(social_p(), s) == Some(
                        (acc.deep_view(), v@.skip(p2 as int + 1)),
                    ));
                }
                return Some(acc);
            } else {
                proof {
                    assert(v@.skip(p2 as int + 1).len() > 0);
                }
                return None;
            }
        } else if c == ',' {
            proof {
                assert(v@.skip(p2 as int).skip(1) =~= v@.skip(p2 as int + 1));
                if let Some((l2, r2)) = parse_items(social_p(), v@.skip(p2 as int + 1)) {
                    assert(parse_items(social_p(), sp) == Some((seq![e@] + l2, r2)));
                    assert(old_acc + (seq![e@] + l2) =~= acc.deep_view() + l2);
                }
            }
            p = p2 + 1;
        } else {
            proof {
                assert(parse_items(social_p(), sp) is None);
            }
            return None;
        }
    }
}

// ------------------------------------------------------------------
// Lists of education entries

pub open spec fn education_p() -> spec_fn(Seq<char>) -> Option<(EducationV, Seq<char>)> {
    |s: Seq<char>| match parse_obj3(s, "{\"degree\":"@, ",\"institution\":"@, ",\"period\":"@) {
        Some((t, r)) => Some((EducationV { degree: t.0, institution: t.1, period: t.2 }, r)),
        None => None,
    }
}

pub open spec fn education_g() -> spec_fn(EducationV) -> Seq<char> {
    |e: EducationV| enc_obj3("{\"degree\":"@, e.degree, ",\"institution\":"@, e.institution, ",\"period\":"@, e.period)
}

/// The column text a list of education entries is stored as.
pub open spec fn education_col(l: Seq<EducationV>) -> Seq<char> {
    enc_list(education_g(), l)
}

pub open spec fn decode_education_col_spec(s: Seq<char>) -> Option<Seq<EducationV>> {
    match parse_list(education_p(), s) {
        Some((l, r)) => if r.len() == 0 { Some(l) } else { None },
        None => None,
    }
}

pub proof fn lemma_education_wf()
    ensures
        elem_shrinks(education_p()),
        parses_encoded(education_p(), education_g(), always::<EducationV>()),
        enc_opens(education_g(), always::<EducationV>()),
{
    reveal_strlit("{\"degree\":");
    assert forall|s: Seq<char>|
        ((#[trigger] education_p()(s)) matches Some(q) ==> q.1.len() < s.len()) by {
        lemma_parse_obj3_shrinks(s, "{\"degree\":"@, ",\"institution\":"@, ",\"period\":"@);
    }
    assert forall|e: EducationV, rest: Seq<char>| #[trigger] education_p()(education_g()(e) + rest) == Some(
        (e, rest),
    ) by {
        lemma_parse_obj3_inverts("{\"degree\":"@, e.degree, ",\"institution\":"@, e.institution, ",\"period\":"@, e.period, rest);
    }
    assert forall|e: EducationV| (#[trigger] education_g()(e)).len() >= 1 && education_g()(e)[0] != ']' by {
        assert(education_g()(e)[0] == '{');
    }
}

/// Decoding a written column gives back exactly the list that was written.
pub proof fn lemma_education_col_roundtrip(l: Seq<EducationV>)
    ensures
        decode_education_col_spec(education_col(l)) == Some(l),
{
    lemma_education_wf();
    lemma_parse_list_inverts(education_p(), education_g(), always::<EducationV>(), l, Seq::empty());
    assert(enc_list(education_g(), l) + Seq::<char>::empty() =~= education_col(l));
}

fn push_education_item(out: &mut String, e: &Education)
    ensures
        final (out)@ == old(out)@ + education_g()(e@),
{
    let ghost base = out@;
    out.append("{\"degree\":");
    push_json_string(out, e.degree.as_str());
    out.append(",\"institution\":");
    push_json_string(out, e.institution.as_str());
    out.append(",\"period\":");
    push_json_string(out, e.period.as_str());
    out.push('}');
    proof {
        assert(out@ =~= base + education_g()(e@));
    }
}

/// Writes a list of education entries as its JSON column text.
pub fn encode_education_col(l: &Vec<Education>) -> (r: String)
    ensures
        r@ == education_col(l.deep_view()),
{
    let ghost dv = l.deep_view();
    let mut out = String::new();
    out.push('[');
    let n = l.len();
    let mut i: usize = 0;
    while i < n
        invariant
            n == l.len(),
            dv == l.deep_view(),
            i <= n,
            out@ == seq!['['] + enc_items(education_g(), dv.take(i as int)),
        decreases n - i,
    {
        proof {
            assert(dv.take(i as int).push(dv[i as int]) =~= dv.take(i as int + 1));
            assert(dv[i as int] == l@[i as int]@);
        }
        if i > 0 {
            out.push(',');
            push_education_item(&mut out, &l[i]);
            proof {
                lemma_enc_items_snoc(education_g(), dv.take(i as int), dv[i as int]);
                assert(out@ =~= seq!['['] + enc_items(education_g(), dv.take(i as int + 1)));
            }
        } else {
            push_education_item(&mut out, &l[i]);
            proof {
                assert(dv.take(1) =~= seq![dv[0]]);
                assert(enc_items(education_g(), seq![dv[0]]) == education_g()(dv[0]));
                assert(out@ =~= seq!['['] + enc_items(education_g(), dv.take(1)));
            }
        }
        i = i + 1;
    }
    proof {
        assert(dv.take(n as int) =~= dv);
    }
    out.push(']');
    proof {
        assert(out@ =~= education_col(dv));
    }
    out
}

/// Reads a JSON column back into a list of education entries.
#[verifier::rlimit(60)]
pub fn decode_education_col(col: &str) -> (r: Option<Vec<Education>>)
    ensures
        match r {
            Some(l) => decode_education_col_spec(col@) == Some(l.deep_view()),
            None => decode_education_col_spec(col@) is None,
        },
{
    let v = chars_of(col);
    let ghost s = col@;
    proof {
        assert(v@.skip(0) =~= s);
    }
    if v.len() == 0 {
        return None;
    }
    if v[0] != '[' {
        return None;
    }
    if v.len() >= 2 {
        let c1 = v[1];
        if c1 == ']' {
            if v.len() == 2 {
                let empty: Vec<Education> = Vec::new();
                proof {
                    assert(s.skip(2) =~= Seq::<char>::empty());
                    assert(empty.deep_view() =~= Seq::<EducationV>::empty());
                }
                return Some(empty);
            } else {
                proof {
                    assert(s.skip(2).len() > 0);
                }
                return None;
            }
        }
    } else {
        proof {
            lemma_education_wf();
            assert(s.skip(1).len() <= 1);
            reveal_strlit("{\"degree\":");
            assert(parse_exact(s.skip(1), "{\"degree\":"@) is None);
        }
        return None;
    }
    proof {
        lemma_education_wf();
        assert(s.skip(1) =~= v@.skip(1));
    }
    let mut acc: Vec<Education> = Vec::new();
    let mut p: usize = 1;
    loop
        invariant
            1 <= p <= v@.len(),
            s == v@,
            s == col@,
            elem_shrinks(education_p()),
            s.len() >= 2 && s[0] == '[' && s[1] != ']',
            parse_items(education_p(), v@.skip(p as int)) matches Some(lr)
                ==> parse_items(education_p(), s.skip(1)) == Some((acc.deep_view() + lr.0, lr.1)),
            parse_items(education_p(), v@.skip(p as int)) is None
                ==> parse_items(education_p(), s.skip(1)) is None,
        decreases v@.len() - p,
    {
        let ghost sp = v@.skip(p as int);
        let (t, p2) = match parse_obj3_at(&v, p, "{\"degree\":", ",\"institution\":", ",\"period\":") {
            Some(x) => x,
            None => {
                proof {
                    assert(parse_items(education_p(), sp) is None);
                }
                return None;
            },
        };
        let e = Education { degree: t.0, institution: t.1, period: t.2 };
        proof {
            assert(education_p()(sp) == Some((e@, v@.skip(p2 as int))));
        }
        if p2 <= p {
            proof {
                lemma_parse_obj3_shrinks(sp, "{\"degree\":"@, ",\"institution\":"@, ",\"period\":"@);
                assert(false);
            }
        }
        let ghost old_acc = acc.deep_view();
        acc.push(e);
        proof {
            assert(acc.deep_view() =~= old_acc.push(e@));
        }
        if p2 >= v.len() {
            proof {
                assert(v@.skip(p2 as int).len() == 0);
                assert(parse_items(education_p(), sp) is None);
            }
            return None;
        }
        let c = v[p2];
        proof {
            assert(v@.skip(p2 as int)[0] == c);
        }
        if c == ']' {
            proof {
                assert(v@.skip(p2 as int).skip(1) =~= v@.skip(p2 as int + 1));
                assert(parse_items(education_p(), sp) == Some(
                    (seq![e@], v@.skip(p2 as int + 1)),
                ));
                assert(old_acc + seq![e@] =~= acc.deep_view());
            }
            if p2 + 1 == v.len() {
                proof {
                    assert(v@.skip(p2 as int + 1).len() == 0);
                    assert(parse_items(education_p(), s.skip(1)) == Some(
                        (acc.deep_view(), v@.skip(p2 as int + 1)),
                    ));
                    assert(parse_list(education_p(), s) == Some(
                        (acc.deep_view(), v@.skip(p2 as int + 1)),
                    ));
                }
                return Some(acc);
            } else {
                proof {
                    assert(v@.skip(p2 as int + 1).len() > 0);
                }
                return None;
            }
        } else if c == ',' {
            proof {
                assert(v@.skip(p2 as int).skip(1) =~= v@.skip(p2 as int + 1));
                if let Some((l2, r2)) = parse_items(education_p(), v@.skip(p2 as int + 1)) {
                    assert(parse_items(education_p(), sp) == Some((seq![e@] + l2, r2)));
                    assert(old_acc + (seq![e@] + l2) =~= acc.deep_view() + l2);
                }
            }
            p = p2 + 1;
        } else {
            proof {
                assert(parse_items(education_p(), sp) is None);
            }
            return None;
        }
    }
}

// ------------------------------------------------------------------
// Lists of recent-activity entries

pub open spec fn activity_p() -> spec_fn(Seq<char>) -> Option<(RecentActivityV, Seq<char>)> {
    |s: Seq<char>| match parse_obj3(s, "{\"date\":"@, ",\"message\":"@, ",\"repo\":"@) {
        Some((t, r)) => Some((RecentActivityV { date: t.0, message: t.1, repo: t.2 }, r)),
        None => None,
    }
}

pub open spec fn activity_g() -> spec_fn(RecentActivityV) -> Seq<char> {
    |e: RecentActivityV| enc_obj3("{\"date\":"@, e.date, ",\"message\":"@, e.message, ",\"repo\":"@, e.repo)
}

/// The column text a list of recent-activity entries is stored as.
pub open spec fn activity_col(l: Seq<RecentActivityV>) -> Seq<char> {
    enc_list(activity_g(), l)
}

pub open spec fn decode_activity_col_spec(s: Seq<char>) -> Option<Seq<RecentActivityV>> {
    match parse_list(activity_p(), s) {
        Some((l, r)) => if r.len() == 0 { Some(l) } else { None },
        None => None,
    }
}

pub proof fn lemma_activity_wf()
    ensures
        elem_shrinks(activity_p()),
        parses_encoded(activity_p(), activity_g(), always::<RecentActivityV>()),
        enc_opens(activity_g(), always::<RecentActivityV>()),
{
    reveal_strlit("{\"date\":");
    assert forall|s: Seq<char>|
        ((#[trigger] activity_p()(s)) matches Some(q) ==> q.1.len() < s.len()) by {
        lemma_parse_obj3_shrinks(s, "{\"date\":"@, ",\"message\":"@, ",\"repo\":"@);
    }
    assert forall|e: RecentActivityV, rest: Seq<char>| #[trigger] activity_p()(activity_g()(e) + rest) == Some(
        (e, rest),
    ) by {
        lemma_parse_obj3_inverts("{\"date\":"@, e.date, ",\"message\":"@, e.message, ",\"repo\":"@, e.repo, rest);
    }
    assert forall|e: RecentActivityV| (#[trigger] activity_g()(e)).len() >= 1 && activity_g()(e)[0] != ']' by {
        assert(activity_g()(e)[0] == '{');
    }
}

/// Decoding a written column gives back exactly the list that was written.
pub proof fn lemma_activity_col_roundtrip(l: Seq<RecentActivityV>)
    ensures
        decode_activity_col_spec(activity_col(l)) == Some(l),
{
    lemma_activity_wf();
    lemma_parse_list_inverts(activity_p(), activity_g(), always::<RecentActivityV>(), l, Seq::empty());
    assert(enc_list(activity_g(), l) + Seq::<char>::empty() =~= activity_col(l));
}

fn push_activity_item(out: &mut String, e: &RecentActivity)
    ensures
        final (out)@ == old(out)@ + activity_g()(e@),
{
    let ghost base = out@;
    out.append("{\"date\":");
    push_json_string(out, e.date.as_str());
    out.append(",\"message\":");
    push_json_string(out, e.message.as_str());
    out.append(",\"repo\":");
    push_json_string(out, e.repo.as_str());
    out.push('}');
    proof {
        assert(out@ =~= base + activity_g()(e@));
    }
}

/// Writes a list of recent-activity entries as its JSON column text.
pub fn encode_activity_col(l: &Vec<RecentActivity>) -> (r: String)
    ensures
        r@ == activity_col(l.deep_view()),
{
    let ghost dv = l.deep_view();
    let mut out = String::new();
    out.push('[');
    let n = l.len();
    let mut i: usize = 0;
    while i < n
        invariant
            n == l.len(),
            dv == l.deep_view(),
            i <= n,
            out@ == seq!['['] + enc_items(activity_g(), dv.take(i as int)),
        decreases n - i,
    {
        proof {
            assert(dv.take(i as int).push(dv[i as int]) =~= dv.take(i as int + 1));
            assert(dv[i as int] == l@[i as int]@);
        }
        if i > 0 {
            out.push(',');
            push_activity_item(&mut out, &l[i]);
            proof {
                lemma_enc_items_snoc(activity_g(), dv.take(i as int), dv[i as int]);
                assert(out@ =~= seq!['['] + enc_items(activity_g(), dv.take(i as int + 1)));
            }
        } else {
            push_activity_item(&mut out, &l[i]);
            proof {
                assert(dv.take(1) =~= seq![dv[0]]);
                assert(enc_items(activity_g(), seq![dv[0]]) == activity_g()(dv[0]));
                assert(out@ =~= seq!['['] + enc_items(activity_g(), dv.take(1)));
            }
        }
        i = i + 1;
    }
    proof {
        assert(dv.take(n as int) =~= dv);
    }
    out.push(']');
    proof {
        assert(out@ =~= activity_col(dv));
    }
    out
}

/// Reads a JSON column back into a list of recent-activity entries.
#[verifier::rlimit(60)]
pub fn decode_activity_col(col: &str) -> (r: Option<Vec<RecentActivity>>)
    ensures
        match r {
            Some(l) => decode_activity_col_spec(col@) == Some(l.deep_view()),
            None => decode_activity_col_spec(col@) is None,
        },
{
    let v = chars_of(col);
    let ghost s = col@;
    proof {
        assert(v@.skip(0) =~= s);
    }
    if v.len() == 0 {
        return None;
    }
    if v[0] != '[' {
        return None;
    }
    if v.len() >= 2 {
        let c1 = v[1];
        if c1 == ']' {
            if v.len() == 2 {
                let empty: Vec<RecentActivity> = Vec::new();
                proof {
                    assert(s.skip(2) =~= Seq::<char>::empty());
                    assert(empty.deep_view() =~= Seq::<RecentActivityV>::empty());
                }
                return Some(empty);
            } else {
                proof {
                    assert(s.skip(2).len() > 0);
                }
                return None;
            }
        }
    } else {
        proof {
            lemma_activity_wf();
            assert(s.skip(1).len() <= 1);
            reveal_strlit("{\"date\":");
            assert(parse_exact(s.skip(1), "{\"date\":"@) is None);
        }
        return None;
    }
    proof {
        lemma_activity_wf();
        assert(s.skip(1) =~= v@.skip(1));
    }
    let mut acc: Vec<RecentActivity> = Vec::new();
    let mut p: usize = 1;
    loop
        invariant
            1 <= p <= v@.len(),
            s == v@,
            s == col@,
            elem_shrinks(activity_p()),
            s.len() >= 2 && s[0] == '[' && s[1] != ']',
            parse_items(activity_p(), v@.skip(p as int)) matches Some(lr)
                ==> parse_items(activity_p(), s.skip(1)) == Some((acc.deep_view() + lr.0, lr.1)),
            parse_items(activity_p(), v@.skip(p as int)) is None
                ==> parse_items(activity_p(), s.skip(1)) is None,
        decreases v@.len() - p,
    {
        let ghost sp = v@.skip(p as int);
        let (t, p2) = match parse_obj3_at(&v, p, "{\"date\":", ",\"message\":", ",\"repo\":") {
            Some(x) => x,
            None => {
                proof {
                    assert(parse_items(activity_p(), sp) is None);
                }
                return None;
            },
        };
        let e = RecentActivity { date: t.0, message: t.1, repo: t.2 };
        proof {
            assert(activity_p()(sp) == Some((e@, v@.skip(p2 as int))));
        }
        if p2 <= p {
            proof {
                lemma_parse_obj3_shrinks(sp, "{\"date\":"@, ",\"message\":"@, ",\"repo\":"@);
                assert(false);
            }
        }
        let ghost old_acc = acc.deep_view();
        acc.push(e);
        proof {
            assert(acc.deep_view() =~= old_acc.push(e@));
        }
        if p2 >= v.len() {
            proof {
                assert(v@.skip(p2 as int).len() == 0);
                assert(parse_items(activity_p(), sp) is None);
            }
            return None;
        }
        let c = v[p2];
        proof {
            assert(v@.skip(p2 as int)[0] == c);
        }
        if c == ']' {
            proof {
                assert(v@.skip(p2 as int).skip(1) =~= v@.skip(p2 as int + 1));
                assert(parse_items(activity_p(), sp) == Some(
                    (seq![e@], v@.skip(p2 as int + 1)),
                ));
                assert(old_acc + seq![e@] =~= acc.deep_view());
            }
            if p2 + 1 == v.len() {
                proof {
                    assert(v@.skip(p2 as int + 1).len() == 0);
                    assert(parse_items(activity_p(), s.skip(1)) == Some(
                        (acc.deep_view(), v@.skip(p2 as int + 1)),
                    ));
                    assert(parse_list(activity_p(), s) == Some(
                        (acc.deep_view(), v@.skip(p2 as int + 1)),
                    ));
                }
                return Some(acc);
            } else {
                proof {
                    assert(v@.skip(p2 as int + 1).len() > 0);
                }
                return None;
            }
        } else if c == ',' {
            proof {
                assert(v@.skip(p2 as int).skip(1) =~= v@.skip(p2 as int + 1));
                if let Some((l2, r2)) = parse_items(activity_p(), v@.skip(p2 as int + 1)) {
                    assert(parse_items(activity_p(), sp) == Some((seq![e@] + l2, r2)));
                    assert(old_acc + (seq![e@] + l2) =~= acc.deep_view() + l2);
                }
            }
            p = p2 + 1;
        } else {
            proof {
                assert(parse_items(activity_p(), sp) is None);
            }
            return None;
        }
    }
}

// ------------------------------------------------------------------
// Lists of spoken languages

pub open spec fn languages_p() -> spec_fn(Seq<char>) -> Option<(LanguageV, Seq<char>)> {
    |s: Seq<char>| match parse_obj2(s, "{\"name\":"@, ",\"level\":"@) {
        Some((t, r)) => Some((LanguageV { name: t.0, level: t.1 }, r)),
        None => None,
    }
}

pub open spec fn languages_g() -> spec_fn(LanguageV) -> Seq<char> {
    |e: LanguageV| enc_obj2("{\"name\":"@, e.name, ",\"level\":"@, e.level)
}

/// The column text a list of spoken languages is stored as.
pub open spec fn languages_col(l: Seq<LanguageV>) -> Seq<char> {
    enc_list(languages_g(), l)
}

pub open spec fn decode_languages_col_spec(s: Seq<char>) -> Option<Seq<LanguageV>> {
    match parse_list(languages_p(), s) {
        Some((l, r)) => if r.len() == 0 { Some(l) } else { None },
        None => None,
    }
}

pub proof fn lemma_languages_wf()
    ensures
        elem_shrinks(languages_p()),
        parses_encoded(languages_p(), languages_g(), always::<LanguageV>()),
        enc_opens(languages_g(), always::<LanguageV>()),
{
    reveal_strlit("{\"name\":");
    assert forall|s: Seq<char>|
        ((#[trigger] languages_p()(s)) matches Some(q) ==> q.1.len() < s.len()) by {
        lemma_parse_obj2_shrinks(s, "{\"name\":"@, ",\"level\":"@);
    }
    assert forall|e: LanguageV, rest: Seq<char>| #[trigger] languages_p()(languages_g()(e) + rest) == Some(
        (e, rest),
    ) by {
        lemma_parse_obj2_inverts("{\"name\":"@, e.name, ",\"level\":"@, e.level, rest);
    }
    assert forall|e: LanguageV| (#[trigger] languages_g()(e)).len() >= 1 && languages_g()(e)[0] != ']' by {
        assert(languages_g()(e)[0] == '{');
    }
}

/// Decoding a written column gives back exactly the list that was written.
pub proof fn lemma_languages_col_roundtrip(l: Seq<LanguageV>)
    ensures
        decode_languages_col_spec(languages_col(l)) == Some(l),
{
    lemma_languages_wf();
    lemma_parse_list_inverts(languages_p(), languages_g(), always::<LanguageV>(), l, Seq::empty());
    assert(enc_list(languages_g(), l) + Seq::<char>::empty() =~= languages_col(l));
}

fn push_languages_item(out: &mut String, e: &Language)
    ensures
        final (out)@ == old(out)@ + languages_g()(e@),
{
    let ghost base = out@;
    out.append("{\"name\":");
    push_json_string(out, e.name.as_str());
    out.append(",\"level\":");
    push_json_string(out, e.level.as_str());
    out.push('}');
    proof {
        assert(out@ =~= base + languages_g()(e@));
    }
}

/// Writes a list of spoken languages as its JSON column text.
pub fn encode_languages_col(l: &Vec<Language>) -> (r: String)
    ensures
        r@ == languages_col(l.deep_view()),
{
    let ghost dv = l.deep_view();
    let mut out = String::new();
    out.push('[');
    let n = l.len();
    let mut i: usize = 0;
    while i < n
        invariant
            n == l.len(),
            dv == l.deep_view(),
            i <= n,
            out@ == seq!['['] + enc_items(languages_g(), dv.take(i as int)),
        decreases n - i,
    {
        proof {
            assert(dv.take(i as int).push(dv[i as int]) =~= dv.take(i as int + 1));
            assert(dv[i as int] == l@[i as int]@);
        }
        if i > 0 {
            out.push(',');
            push_languages_item(&mut out, &l[i]);
            proof {
                lemma_enc_items_snoc(languages_g(), dv.take(i as int), dv[i as int]);
                assert(out@ =~= seq!['['] + enc_items(languages_g(), dv.take(i as int + 1)));
            }
        } else {
            push_languages_item(&mut out, &l[i]);
            proof {
                assert(dv.take(1) =~= seq![dv[0]]);
                assert(enc_items(languages_g(), seq![dv[0]]) == languages_g()(dv[0]));
                assert(out@ =~= seq!['['] + enc_items(languages_g(), dv.take(1)));
            }
        }
        i = i + 1;
    }
    proof {
        assert(dv.take(n as int) =~= dv);
    }
    out.push(']');
    proof {
        assert(out@ =~= languages_col(dv));
    }
    out
}

/// Reads a JSON column back into a list of spoken languages.
#[verifier::rlimit(60)]
pub fn decode_languages_col(col: &str) -> (r: Option<Vec<Language>>)
    ensures
        match r {
            Some(l) => decode_languages_col_spec(col@) == Some(l.deep_view()),
            None => decode_languages_col_spec(col@) is None,
        },
{
    let v = chars_of(col);
    let ghost s = col@;
    proof {
        assert(v@.skip(0) =~= s);
    }
    if v.len() == 0 {
        return None;
    }
    if v[0] != '[' {
        return None;
    }
    if v.len() >= 2 {
        let c1 = v[1];
        if c1 == ']' {
            if v.len() == 2 {
                let empty: Vec<Language> = Vec::new();
                proof {
                    assert(s.skip(2) =~= Seq::<char>::empty());
                    assert(empty.deep_view() =~= Seq::<LanguageV>::empty());
                }
                return Some(empty);
            } else {
                proof {
                    assert(s.skip(2).len() > 0);
                }
                return None;
            }
        }
    } else {
        proof {
            lemma_languages_wf();
            assert(s.skip(1).len() <= 1);
            reveal_strlit("{\"name\":");
            assert(parse_exact(s.skip(1), "{\"name\":"@) is None);
        }
        return None;
    }
    proof {
        lemma_languages_wf();
        assert(s.skip(1) =~= v@.skip(1));
    }
    let mut acc: Vec<Language> = Vec::new();
    let mut p: usize = 1;
    loop
        invariant
            1 <= p <= v@.len(),
            s == v@,
            s == col@,
            elem_shrinks(languages_p()),
            s.len() >= 2 && s[0] == '[' && s[1] != ']',
            parse_items(languages_p(), v@.skip(p as int)) matches Some(lr)
                ==> parse_items(languages_p(), s.skip(1)) == Some((acc.deep_view() + lr.0, lr.1)),
            parse_items(languages_p(), v@.skip(p as int)) is None
                ==> parse_items(languages_p(), s.skip(1)) is None,
        decreases v@.len() - p,
    {
        let ghost sp = v@.skip(p as int);
        let (t, p2) = match parse_obj2_at(&v, p, "{\"name\":", ",\"level\":") {
            Some(x) => x,
            None => {
                proof {
                    assert(parse_items(languages_p(), sp) is None);
                }
                return None;
            },
        };
        let e = Language { name: t.0, level: t.1 };
        proof {
            assert(languages_p()(sp) == Some((e@, v@.skip(p2 as int))));
        }
        if p2 <= p {
            proof {
                lemma_parse_obj2_shrinks(sp, "{\"name\":"@, ",\"level\":"@);
                assert(false);
            }
        }
        let ghost old_acc = acc.deep_view();
        acc.push(e);
        proof {
            assert(acc.deep_view() =~= old_acc.push(e@));
        }
        if p2 >= v.len() {
            proof {
                assert(v@.skip(p2 as int).len() == 0);
                assert(parse_items(languages_p(), sp) is None);
            }
            return None;
        }
        let c = v[p2];
        proof {
            assert(v@.skip(p2 as int)[0] == c);
        }
        if c == ']' {
            proof {
                assert(v@.skip(p2 as int).skip(1) =~= v@.skip(p2 as int + 1));
                assert(parse_items(languages_p(), sp) == Some(
                    (seq![e@], v@.skip(p2 as int + 1)),
                ));
                assert(old_acc + seq![e@] =~= acc.deep_view());
            }
            if p2 + 1 == v.len() {
                proof {
                    assert(v@.skip(p2 as int + 1).len() == 0);
                    assert(parse_items(languages_p(), s.skip(1)) == Some(
                        (acc.deep_view(), v@.skip(p2 as int + 1)),
                    ));
                    assert(parse_list(languages_p(), s) == Some(
                        (acc.deep_view(), v@.skip(p2 as int + 1)),
                    ));
                }
                return Some(acc);
            } else {
                proof {
                    assert(v@.skip(p2 as int + 1).len() > 0);
                }
                return None;
            }
        } else if c == ',' {
            proof {
                assert(v@.skip(p2 as int).skip(1) =~= v@.skip(p2 as int + 1));
                if let Some((l2, r2)) = parse_items(languages_p(), v@.skip(p2 as int + 1)) {
                    assert(parse_items(languages_p(), sp) == Some((seq![e@] + l2, r2)));
                    assert(old_acc + (seq![e@] + l2) =~= acc.deep_view() + l2);
                }
            }
            p = p2 + 1;
        } else {
            proof {
                assert(parse_items(languages_p(), sp) is None);
            }
            return None;
        }
    }
}

// ------------------------------------------------------------------
// Lists of language-percentage pairs

pub open spec fn toplang_p() -> spec_fn(Seq<char>) -> Option<(TopLanguageV, Seq<char>)> {
    |s: Seq<char>| match parse_obj_str_int(s, "{\"name\":"@, ",\"percentage\":"@) {
        Some((t, r)) => Some((TopLanguageV { name: t.0, percentage: t.1 }, r)),
        None => None,
    }
}

pub open spec fn toplang_g() -> spec_fn(TopLanguageV) -> Seq<char> {
    |e: TopLanguageV| enc_obj_str_int("{\"name\":"@, e.name, ",\"percentage\":"@, e.percentage)
}

/// A percentage that fits the stored integer type.
pub open spec fn toplang_valid() -> spec_fn(TopLanguageV) -> bool {
    |e: TopLanguageV| -0x8000_0000 <= e.percentage <= 0x7fff_ffff
}

/// The column text a list of language-percentage pairs is stored as.
pub open spec fn toplang_col(l: Seq<TopLanguageV>) -> Seq<char> {
    enc_list(toplang_g(), l)
}

pub open spec fn decode_toplang_col_spec(s: Seq<char>) -> Option<Seq<TopLanguageV>> {
    match parse_list(toplang_p(), s) {
        Some((l, r)) => if r.len() == 0 { Some(l) } else { None },
        None => None,
    }
}

pub proof fn lemma_toplang_wf()
    ensures
        elem_shrinks(toplang_p()),
        parses_encoded(toplang_p(), toplang_g(), toplang_valid()),
        enc_opens(toplang_g(), toplang_valid()),
{
    reveal_strlit("{\"name\":");
    assert forall|s: Seq<char>|
        ((#[trigger] toplang_p()(s)) matches Some(q) ==> q.1.len() < s.len()) by {
        lemma_parse_obj_str_int_shrinks(s, "{\"name\":"@, ",\"percentage\":"@);
    }
    assert forall|e: TopLanguageV, rest: Seq<char>|
        (toplang_valid()(e) ==> #[trigger] toplang_p()(toplang_g()(e) + rest) == Some(
            (e, rest),
        )) by {
        if toplang_valid()(e) {
            lemma_parse_obj_str_int_inverts(
                "{\"name\":"@, e.name, ",\"percentage\":"@, e.percentage, rest,
            );
        }
    }
    assert forall|e: TopLanguageV|
        (toplang_valid()(e) ==> (#[trigger] toplang_g()(e)).len() >= 1
            && toplang_g()(e)[0] != ']') by {
        assert(toplang_g()(e)[0] == '{');
    }
}

/// Decoding a written column gives back exactly the list that was written.
pub proof fn lemma_toplang_col_roundtrip(l: Seq<TopLanguageV>)
    requires
        forall|i: int| 0 <= i < l.len() ==> toplang_valid()(#[trigger] l[i]),
    ensures
        decode_toplang_col_spec(toplang_col(l)) == Some(l),
{
    lemma_toplang_wf();
    lemma_parse_list_inverts(toplang_p(), toplang_g(), toplang_valid(), l, Seq::empty());
    assert(enc_list(toplang_g(), l) + Seq::<char>::empty() =~= toplang_col(l));
}

fn push_toplang_item(out: &mut String, e: &TopLanguage)
    ensures
        final (out)@ == old(out)@ + toplang_g()(e@),
{
    let ghost base = out@;
    out.append("{\"name\":");
    push_json_string(out, e.name.as_str());
    out.append(",\"percentage\":");
    push_json_int(out, e.percentage);
    out.push('}');
    proof {
        assert(out@ =~= base + toplang_g()(e@));
    }
}

/// Writes a list of language-percentage pairs as its JSON column text.
pub fn encode_toplang_col(l: &Vec<TopLanguage>) -> (r: String)
    ensures
        r@ == toplang_col(l.deep_view()),
{
    let ghost dv = l.deep_view();
    let mut out = String::new();
    out.push('[');
    let n = l.len();
    let mut i: usize = 0;
    while i < n
        invariant
            n == l.len(),
            dv == l.deep_view(),
            i <= n,
            out@ == seq!['['] + enc_items(toplang_g(), dv.take(i as int)),
        decreases n - i,
    {
        proof {
            assert(dv.take(i as int).push(dv[i as int]) =~= dv.take(i as int + 1));
            assert(dv[i as int] == l@[i as int]@);
        }
        if i > 0 {
            out.push(',');
            push_toplang_item(&mut out, &l[i]);
            proof {
                lemma_enc_items_snoc(toplang_g(), dv.take(i as int), dv[i as int]);
                assert(out@ =~= seq!['['] + enc_items(toplang_g(), dv.take(i as int + 1)));
            }
        } else {
            push_toplang_item(&mut out, &l[i]);
            proof {
                assert(dv.take(1) =~= seq![dv[0]]);
                assert(enc_items(toplang_g(), seq![dv[0]]) == toplang_g()(dv[0]));
                assert(out@ =~= seq!['['] + enc_items(toplang_g(), dv.take(1)));
            }
        }
        i = i + 1;
    }
    proof {
        assert(dv.take(n as int) =~= dv);
    }
    out.push(']');
    proof {
        assert(out@ =~= toplang_col(dv));
    }
    out
}

/// Reads a JSON column back into a list of language-percentage pairs.
#[verifier::rlimit(60)]
pub fn decode_toplang_col(col: &str) -> (r: Option<Vec<TopLanguage>>)
    ensures
        match r {
            Some(l) => decode_toplang_col_spec(col@) == Some(l.deep_view()),
            None => decode_toplang_col_spec(col@) is None,
        },
{
    let v = chars_of(col);
    let ghost s = col@;
    proof {
        assert(v@.skip(0) =~= s);
    }
    if v.len() == 0 {
        return None;
    }
    if v[0] != '[' {
        return None;
    }
    if v.len() >= 2 {
        let c1 = v[1];
        if c1 == ']' {
            if v.len() == 2 {
                let empty: Vec<TopLanguage> = Vec::new();
                proof {
                    assert(s.skip(2) =~= Seq::<char>::empty());
                    assert(empty.deep_view() =~= Seq::<TopLanguageV>::empty());
                }
                return Some(empty);
            } else {
                proof {
                    assert(s.skip(2).len() > 0);
                }
                return None;
            }
        }
    } else {
        proof {
            lemma_toplang_wf();
            assert(s.skip(1).len() <= 1);
            reveal_strlit("{\"name\":");
            assert(parse_exact(s.skip(1), "{\"name\":"@) is None);
        }
        return None;
    }
    proof {
        lemma_toplang_wf();
        assert(s.skip(1) =~= v@.skip(1));
    }
    let mut acc: Vec<TopLanguage> = Vec::new();
    let mut p: usize = 1;
    loop
        invariant
            1 <= p <= v@.len(),
            s == v@,
            s == col@,
            elem_shrinks(toplang_p()),
            s.len() >= 2 && s[0] == '[' && s[1] != ']',
            parse_items(toplang_p(), v@.skip(p as int)) matches Some(lr)
                ==> parse_items(toplang_p(), s.skip(1)) == Some((acc.deep_view() + lr.0, lr.1)),
            parse_items(toplang_p(), v@.skip(p as int)) is None
                ==> parse_items(toplang_p(), s.skip(1)) is None,
        decreases v@.len() - p,
    {
        let ghost sp = v@.skip(p as int);
        let (t, p2) = match parse_obj_str_int_at(&v, p, "{\"name\":", ",\"percentage\":") {
            Some(x) => x,
            None => {
                proof {
                    assert(parse_items(toplang_p(), sp) is None);
                }
                return None;
            },
        };
        let e = TopLanguage { name: t.0, percentage: t.1 };
        proof {
            assert(toplang_p()(sp) == Some((e@, v@.skip(p2 as int))));
        }
        if p2 <= p {
            proof {
                lemma_parse_obj_str_int_shrinks(sp, "{\"name\":"@, ",\"percentage\":"@);
                assert(false);
            }
        }
        let ghost old_acc = acc.deep_view();
        acc.push(e);
        proof {
            assert(acc.deep_view() =~= old_acc.push(e@));
        }
        if p2 >= v.len() {
            proof {
                assert(v@.skip(p2 as int).len() == 0);
                assert(parse_items(toplang_p(), sp) is None);
            }
            return None;
        }
        let c = v[p2];
        proof {
            assert(v@.skip(p2 as int)[0] == c);
        }
        if c == ']' {
            proof {
                assert(v@.skip(p2 as int).skip(1) =~= v@.skip(p2 as int + 1));
                assert(parse_items(toplang_p(), sp) == Some(
                    (seq![e@], v@.skip(p2 as int + 1)),
                ));
                assert(old_acc + seq![e@] =~= acc.deep_view());
            }
            if p2 + 1 == v.len() {
                proof {
                    assert(v@.skip(p2 as int + 1).len() == 0);
                    assert(parse_items(toplang_p(), s.skip(1)) == Some(
                        (acc.deep_view(), v@.skip(p2 as int + 1)),
                    ));
                    assert(parse_list(toplang_p(), s) == Some(
                        (acc.deep_view(), v@.skip(p2 as int + 1)),
                    ));
                }
                return Some(acc);
            } else {
                proof {
                    assert(v@.skip(p2 as int + 1).len() > 0);
                }
                return None;
            }
        } else if c == ',' {
            proof {
                assert(v@.skip(p2 as int).skip(1) =~= v@.skip(p2 as int + 1));
                if let Some((l2, r2)) = parse_items(toplang_p(), v@.skip(p2 as int + 1)) {
                    assert(parse_items(toplang_p(), sp) == Some((seq![e@] + l2, r2)));
                    assert(old_acc + (seq![e@] + l2) =~= acc.deep_view() + l2);
                }
            }
            p = p2 + 1;
        } else {
            proof {
                assert(parse_items(toplang_p(), sp) is None);
            }
            return None;
        }
    }
}

} // verus!
