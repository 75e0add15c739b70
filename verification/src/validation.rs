//! Request validation: the email grammar and the contact-form field checks,
//! with the exact failure message they produce.

use vstd::prelude::*;
use crate::error::AppError;
use crate::json::{char_code, chars_of};
use vstd::string::StringExecFns;

verus! {

pub open spec fn is_lower(c: char) -> bool {
    97 <= char_code(c) <= 122
}

pub open spec fn is_num(c: char) -> bool {
    48 <= char_code(c) <= 57
}

pub open spec fn is_alnum(c: char) -> bool {
    is_lower(c) || is_num(c)
}

/// A character the local part of an address may hold.
pub open spec fn is_local_char(c: char) -> bool {
    is_alnum(c) || c == '_' || c == '+' || c == '.'
}

/// The local part: non-empty, local characters only, neither starting nor
/// ending with a dot.
pub open spec fn valid_local(l: Seq<char>) -> bool {
    &&& l.len() >= 1
    &&& forall|i: int| 0 <= i < l.len() ==> is_local_char(#[trigger] l[i])
    &&& l[0] != '.'
    &&& l[l.len() - 1] != '.'
}

/// A character the domain name may hold.
pub open spec fn is_name_char(c: char) -> bool {
    is_alnum(c) || c == '.' || c == '-'
}

pub open spec fn is_name_sep(c: char) -> bool {
    c == '.' || c == '-'
}

/// The domain name before the top-level label: labels of lower-case letters
/// and digits joined by single dots or hyphens.
pub open spec fn valid_domain_name(d: Seq<char>) -> bool {
    &&& d.len() >= 1
    &&& forall|i: int| 0 <= i < d.len() ==> is_name_char(#[trigger] d[i])
    &&& is_alnum(d[0])
    &&& is_alnum(d[d.len() - 1])
    &&& forall|i: int| 0 <= i < d.len() - 1 ==> !(is_name_sep(#[trigger] d[i]) && is_name_sep(d[i + 1]))
}

/// The top-level label: two to six lower-case letters.
pub open spec fn valid_tld(t: Seq<char>) -> bool {
    &&& 2 <= t.len() <= 6
    &&& forall|i: int| 0 <= i < t.len() ==> is_lower(#[trigger] t[i])
}

/// The position of the first `@`, or the length if there is none.
pub open spec fn first_at(s: Seq<char>) -> int
    decreases s.len(),
{
    if s.len() == 0 {
        0
    } else if s[0] == '@' {
        0
    } else {
        1 + first_at(s.drop_first())
    }
}

/// The position of the last `.`, or the length if there is none.
pub open spec fn last_dot(s: Seq<char>) -> int
    decreases s.len(),
{
    if s.len() == 0 {
        0
    } else if s[s.len() - 1] == '.' {
        s.len() - 1
    } else {
        let ld = last_dot(s.drop_last());
        if ld == s.len() - 1 {
            s.len() as int
        } else {
            ld
        }
    }
}

/// A valid address: a local part, an `@`, a domain name, a dot, and a
/// top-level label.
pub open spec fn valid_email(s: Seq<char>) -> bool {
    let at = first_at(s);
    let dom = s.skip(at + 1);
    let dot = last_dot(dom);
    &&& at < s.len()
    &&& valid_local(s.take(at))
    &&& dot < dom.len()
    &&& valid_domain_name(dom.take(dot))
    &&& valid_tld(dom.skip(dot + 1))
}

pub proof fn lemma_first_at(s: Seq<char>)
    ensures
        0 <= first_at(s) <= s.len(),
        first_at(s) < s.len() ==> s[first_at(s)] == '@',
        forall|i: int| 0 <= i < first_at(s) ==> s[i] != '@',
    decreases s.len(),
{
    if s.len() > 0 && s[0] != '@' {
        lemma_first_at(s.drop_first());
        assert forall|i: int| 0 <= i < first_at(s) implies s[i] != '@' by {
            if i >= 1 {
                assert(s.drop_first()[i - 1] == s[i]);
            }
        }
        if first_at(s) < s.len() {
            assert(s.drop_first()[first_at(s.drop_first())] == s[first_at(s)]);
        }
    }
}

pub proof fn lemma_last_dot(s: Seq<char>)
    ensures
        0 <= last_dot(s) <= s.len(),
        last_dot(s) < s.len() ==> s[last_dot(s)] == '.',
        forall|i: int| last_dot(s) < i < s.len() ==> s[i] != '.',
        last_dot(s) == s.len() ==> forall|i: int| 0 <= i < s.len() ==> s[i] != '.',
    decreases s.len(),
{
    if s.len() > 0 && s[s.len() - 1] != '.' {
        let dl = s.drop_last();
        lemma_last_dot(dl);
        assert(forall|i: int| 0 <= i < dl.len() ==> dl[i] == s[i]);
        let ld = last_dot(dl);
        if ld == s.len() - 1 {
            assert(last_dot(dl) == dl.len());
            assert forall|i: int| 0 <= i < s.len() implies s[i] != '.' by {
                if i < s.len() - 1 {
                    assert(dl[i] == s[i]);
                }
            }
        } else {
            assert(last_dot(s) == ld);
            assert(dl[ld] == s[ld]);
            assert forall|i: int| last_dot(s) < i < s.len() implies s[i] != '.' by {
                if i < s.len() - 1 {
                    assert(dl[i] == s[i]);
                }
            }
        }
    }
}

/// The position of the first `@` in the vector, or its length.
fn find_first_at(v: &Vec<char>) -> (r: usize)
    ensures
        r == first_at(v@),
{
    let n = v.len();
    let mut i: usize = 0;
    while i < n
        invariant
            i <= n,
            n == v@.len(),
            forall|q: int| 0 <= q < i ==> v@[q] != '@',
        decreases n - i,
    {
        if v[i] == '@' {
            proof {
                lemma_first_at(v@);
                if first_at(v@) < i {
                    assert(v@[first_at(v@)] == '@');
                }
                if first_at(v@) > i {
                    assert(v@[i as int] != '@');
                }
            }
            return i;
        }
        i = i + 1;
    }
    proof {
        lemma_first_at(v@);
        if first_at(v@) < n {
            assert(v@[first_at(v@)] == '@');
        }
    }
    n
}

/// The position of the last `.` at or after `from`, or the length.
fn find_last_dot_from(v: &Vec<char>, from: usize) -> (r: usize)
    requires
        from <= v@.len(),
    ensures
        r == from + last_dot(v@.skip(from as int)),
{
    let ghost d = v@.skip(from as int);
    let n = v.len();
    let mut i: usize = n;
    while i > from
        invariant
            from <= i <= n,
            n == v@.len(),
            d == v@.skip(from as int),
            forall|q: int| i - from <= q < d.len() ==> d[q] != '.',
        decreases i,
    {
        proof {
            assert(d[i - 1 - from as int] == v@[i - 1]);
        }
        if v[i - 1] == '.' {
            proof {
                lemma_last_dot(d);
                let ld = last_dot(d);
                if ld < i - 1 - from {
                    assert(d[i - 1 - from as int] != '.');
                }
                if ld > i - 1 - from {
                    if ld == d.len() {
                        assert(d[i - 1 - from as int] != '.');
                    } else {
                        assert(d[ld] != '.');
                        assert(d[ld] == '.');
                    }
                }
            }
            return i - 1;
        }
        i = i - 1;
    }
    proof {
        lemma_last_dot(d);
        if last_dot(d) < d.len() {
            assert(d[last_dot(d)] != '.');
            assert(d[last_dot(d)] == '.');
        }
    }
    n
}

/// Accepts exactly the addresses of the email grammar; anything else is a
/// validation error.
pub fn validate_email(email: &str) -> (r: Result<(), AppError>)
    ensures
        r is Ok <==> valid_email(email@),
        r matches Err(e) ==> e is ValidationError,
{
    let v = chars_of(email);
    let n = v.len();
    let at = find_first_at(&v);
    if at >= n {
        return Err(AppError::ValidationError("Invalid email format".to_owned()));
    }
    // the local part
    let ghost loc = email@.take(at as int);
    if at == 0 {
        proof {
            assert(!valid_local(loc));
        }
        return Err(AppError::ValidationError("Invalid email format".to_owned()));
    }
    let mut i: usize = 0;
    while i < at
        invariant
            i <= at,
            at < n == v@.len(),
            v@ == email@,
            at == first_at(email@),
            loc == email@.take(at as int),
            forall|q: int| 0 <= q < i ==> is_local_char(#[trigger] loc[q]),
        decreases at - i,
    {
        let c = v[i];
        proof {
            assert(loc[i as int] == v@[i as int]);
        }
        let u = c as u32;
        if !((97 <= u && u <= 122) || (48 <= u && u <= 57) || c == '_' || c == '+' || c == '.') {
            proof {
                assert(!is_local_char(loc[i as int]));
            }
            return Err(AppError::ValidationError("Invalid email format".to_owned()));
        }
        i = i + 1;
    }
    if v[0] == '.' || v[at - 1] == '.' {
        proof {
            assert(loc[0] == v@[0] && loc[at - 1] == v@[at - 1]);
        }
        return Err(AppError::ValidationError("Invalid email format".to_owned()));
    }
    proof {
        assert(loc[0] == v@[0] && loc[at - 1] == v@[at - 1]);
        assert(valid_local(loc));
    }
    // the domain
    let ghost dom = email@.skip(at + 1);
    let dot = find_last_dot_from(&v, at + 1);
    proof {
        assert(dot - (at + 1) == last_dot(dom));
        lemma_last_dot(dom);
    }
    if dot >= n {
        return Err(AppError::ValidationError("Invalid email format".to_owned()));
    }
    let ghost dname = dom.take(last_dot(dom));
    let ghost tld = dom.skip(last_dot(dom) + 1);
    // the name before the last dot
    if dot == at + 1 {
        proof {
            assert(!valid_domain_name(dname));
        }
        return Err(AppError::ValidationError("Invalid email format".to_owned()));
    }
    let mut j: usize = at + 1;
    while j < dot
        invariant
            at + 1 <= j <= dot < n == v@.len(),
            v@ == email@,
            at == first_at(email@),
            dom == email@.skip(at + 1),
            dot - (at + 1) == last_dot(dom),
            dname == dom.take(dot - (at + 1)),
            forall|q: int| 0 <= q < j - (at + 1) ==> is_name_char(#[trigger] dname[q]),
            forall|q: int|
                0 <= q < j - (at + 1) - 1 ==> !(is_name_sep(#[trigger] dname[q]) && is_name_sep(
                    dname[q + 1],
                )),
        decreases dot - j,
    {
        let c = v[j];
        proof {
            assert(dname[j - (at + 1) as int] == v@[j as int]);
        }
        let u = c as u32;
        if !((97 <= u && u <= 122) || (48 <= u && u <= 57) || c == '.' || c == '-') {
            proof {
                assert(!is_name_char(dname[j - (at + 1) as int]));
            }
            return Err(AppError::ValidationError("Invalid email format".to_owned()));
        }
        if j > at + 1 && (c == '.' || c == '-') {
            let p = v[j - 1];
            if p == '.' || p == '-' {
                proof {
                    assert(dname[j - 1 - (at + 1) as int] == v@[j - 1]);
                    assert(is_name_sep(dname[j - 1 - (at + 1) as int]) && is_name_sep(
                        dname[j - (at + 1) as int],
                    ));
                }
                return Err(AppError::ValidationError("Invalid email format".to_owned()));
            }
        }
        j = j + 1;
    }
    let c0 = v[at + 1];
    let ce = v[dot - 1];
    proof {
        assert(dname[0] == v@[at + 1]);
        assert(dname[dname.len() - 1] == v@[dot - 1]);
    }
    let u0 = c0 as u32;
    let ue = ce as u32;
    if !((97 <= u0 && u0 <= 122) || (48 <= u0 && u0 <= 57)) || !((97 <= ue && ue <= 122) || (48
        <= ue && ue <= 57)) {
        return Err(AppError::ValidationError("Invalid email format".to_owned()));
    }
    proof {
        assert(valid_domain_name(dname));
    }
    // the top-level label
    if n - (dot + 1) < 2 || n - (dot + 1) > 6 {
        proof {
            assert(tld.len() == n - (dot + 1));
        }
        return Err(AppError::ValidationError("Invalid email format".to_owned()));
    }
    let mut k: usize = dot + 1;
    while k < n
        invariant
            dot + 1 <= k <= n == v@.len(),
            at < dot,
            v@ == email@,
            at == first_at(email@),
            dom == email@.skip(at + 1),
            dot - (at + 1) == last_dot(dom),
            tld == dom.skip(dot - (at + 1) + 1),
            forall|q: int| 0 <= q < k - (dot + 1) ==> is_lower(#[trigger] tld[q]),
        decreases n - k,
    {
        let c = v[k];
        proof {
            assert(tld[k - (dot + 1) as int] == v@[k as int]);
        }
        let u = c as u32;
        if !(97 <= u && u <= 122) {
            proof {
                assert(!is_lower(tld[k - (dot + 1) as int]));
            }
            return Err(AppError::ValidationError("Invalid email format".to_owned()));
        }
        k = k + 1;
    }
    proof {
        assert(tld.len() == n - (dot + 1));
        assert(valid_tld(tld));
        assert(valid_email(email@));
    }
    Ok(())
}

/// The exact message a failed contact validation carries: one clause per
/// failing field, in a fixed order.
pub open spec fn contact_error_msg(name_ok: bool, email_ok: bool, msg_ok: bool) -> Seq<char> {
    "Validation failed: "@ + (if !name_ok {
        "Name must be between 2 and 100 characters for field 'name'; "@
    } else {
        Seq::<char>::empty()
    }) + (if !email_ok {
        "Invalid email format for field 'email'; "@
    } else {
        Seq::<char>::empty()
    }) + (if !msg_ok {
        "Message must be between 10 and 5000 characters for field 'message'; "@
    } else {
        Seq::<char>::empty()
    })
}

/// Whether a contact submission is acceptable: name of 2 to 100 characters, a
/// valid address, message of 10 to 5000 characters.
pub open spec fn contact_ok(name: Seq<char>, email: Seq<char>, message: Seq<char>) -> bool {
    &&& 2 <= name.len() <= 100
    &&& valid_email(email)
    &&& 10 <= message.len() <= 5000
}

/// Checks a contact submission; a violation is a validation error whose
/// message names each failing field.
pub fn validate_contact(name: &str, email: &str, message: &str) -> (r: Result<(), AppError>)
    ensures
        r is Ok <==> contact_ok(name@, email@, message@),
        r matches Err(e) ==> e is ValidationError && e.spec_message() == contact_error_msg(
            2 <= name@.len() <= 100,
            valid_email(email@),
            10 <= message@.len() <= 5000,
        ),
{
    let name_len = chars_of(name).len();
    let name_ok = 2 <= name_len && name_len <= 100;
    let email_ok = match validate_email(email) {
        Ok(_) => true,
        Err(_) => false,
    };
    let msg_len = chars_of(message).len();
    let msg_ok = 10 <= msg_len && msg_len <= 5000;
    if name_ok && email_ok && msg_ok {
        Ok(())
    } else {
        let mut m = String::new();
        m.append("Validation failed: ");
        if !name_ok {
            m.append("Name must be between 2 and 100 characters for field 'name'; ");
        }
        if !email_ok {
            m.append("Invalid email format for field 'email'; ");
        }
        if !msg_ok {
            m.append("Message must be between 10 and 5000 characters for field 'message'; ");
        }
        Err(AppError::ValidationError(m))
    }
}

} // verus!
