//! Listing order: lexicographic text comparison and verified index sorts,
//! used by the repositories to serve their rows in the order the store's
//! queries fix.

use vstd::prelude::*;
use crate::json::{char_code, chars_of};

verus! {

/// Lexicographic order on texts, by code point; a prefix comes first.
pub open spec fn lex_le(a: Seq<char>, b: Seq<char>) -> bool
    decreases a.len(),
{
    if a.len() == 0 {
        true
    } else if b.len() == 0 {
        false
    } else if char_code(a[0]) < char_code(b[0]) {
        true
    } else if char_code(a[0]) > char_code(b[0]) {
        false
    } else {
        lex_le(a.drop_first(), b.drop_first())
    }
}

pub proof fn lemma_lex_le_refl(a: Seq<char>)
    ensures
        lex_le(a, a),
    decreases a.len(),
{
    if a.len() > 0 {
        lemma_lex_le_refl(a.drop_first());
    }
}

/// Any two texts compare one way or the other.
pub proof fn lemma_lex_le_total(a: Seq<char>, b: Seq<char>)
    ensures
        lex_le(a, b) || lex_le(b, a),
    decreases a.len(),
{
    if a.len() > 0 && b.len() > 0 && char_code(a[0]) == char_code(b[0]) {
        lemma_lex_le_total(a.drop_first(), b.drop_first());
    }
}

pub proof fn lemma_lex_le_trans(a: Seq<char>, b: Seq<char>, c: Seq<char>)
    requires
        lex_le(a, b),
        lex_le(b, c),
    ensures
        lex_le(a, c),
    decreases a.len(),
{
    if a.len() > 0 && b.len() > 0 && c.len() > 0 && char_code(a[0]) == char_code(b[0])
        && char_code(b[0]) == char_code(c[0]) {
        lemma_lex_le_trans(a.drop_first(), b.drop_first(), c.drop_first());
    }
}

/// Compares two texts lexicographically.
pub fn str_le(a: &str, b: &str) -> (r: bool)
    ensures
        r == lex_le(a@, b@),
{
    let va = chars_of(a);
    let vb = chars_of(b);
    let na = va.len();
    let nb = vb.len();
    proof {
        assert(a@.skip(0) =~= a@);
        assert(b@.skip(0) =~= b@);
    }
    let mut i: usize = 0;
    loop
        invariant
            i <= na,
            i <= nb,
            na == va@.len(),
            nb == vb@.len(),
            va@ == a@,
            vb@ == b@,
            lex_le(a@, b@) == lex_le(a@.skip(i as int), b@.skip(i as int)),
        decreases na - i,
    {
        if i >= na {
            proof {
                assert(a@.skip(i as int).len() == 0);
            }
            return true;
        }
        if i >= nb {
            proof {
                assert(b@.skip(i as int).len() == 0);
                assert(a@.skip(i as int).len() > 0);
            }
            return false;
        }
        let ca = va[i];
        let cb = vb[i];
        proof {
            assert(a@.skip(i as int)[0] == a@[i as int]);
            assert(b@.skip(i as int)[0] == b@[i as int]);
            assert(a@.skip(i as int).drop_first() =~= a@.skip(i as int + 1));
            assert(b@.skip(i as int).drop_first() =~= b@.skip(i as int + 1));
        }
        if (ca as u32) < (cb as u32) {
            return true;
        }
        if (ca as u32) > (cb as u32) {
            return false;
        }
        i = i + 1;
    }
}

/// A rearrangement of the positions `0` to `n`: every position once.
pub open spec fn is_reordering(perm: Seq<int>, n: int) -> bool {
    &&& perm.len() == n
    &&& forall|i: int| 0 <= i < n ==> 0 <= #[trigger] perm[i] < n
    &&& forall|i: int, j: int| 0 <= i < j < n ==> perm[i] != perm[j]
}

/// The identity positions `0` to `n`.
fn identity_indices(n: usize) -> (r: Vec<usize>)
    ensures
        r@.len() == n,
        forall|q: int| 0 <= q < n ==> (#[trigger] r@[q]) == q,
{
    let mut r: Vec<usize> = Vec::new();
    let mut t: usize = 0;
    while t < n
        invariant
            t <= n,
            r@.len() == t,
            forall|q: int| 0 <= q < t ==> (#[trigger] r@[q]) == q,
        decreases n - t,
    {
        r.push(t);
        t = t + 1;
    }
    r
}

/// The positions of the keys, ordered so the keys come largest first.
pub fn sort_indices_desc_i64(keys: &Vec<i64>) -> (r: Vec<usize>)
    ensures
        r@.len() == keys@.len(),
        forall|i: int| 0 <= i < r@.len() ==> (#[trigger] r@[i]) < keys@.len(),
        forall|i: int, j: int| 0 <= i < j < r@.len() ==> r@[i] != r@[j],
        forall|i: int, j: int|
            0 <= i <= j < r@.len() ==> keys@[(#[trigger] r@[i]) as int] >= keys@[(
            #[trigger] r@[j]) as int],
{
    let n = keys.len();
    let mut remaining = identity_indices(n);
    let mut out: Vec<usize> = Vec::new();
    while remaining.len() > 0
        invariant
            n == keys@.len(),
            out@.len() + remaining@.len() == n,
            forall|q: int| 0 <= q < remaining@.len() ==> (#[trigger] remaining@[q]) < n,
            forall|q: int| 0 <= q < out@.len() ==> (#[trigger] out@[q]) < n,
            forall|p: int, q: int|
                0 <= p < q < remaining@.len() ==> (#[trigger] remaining@[p]) != (
                #[trigger] remaining@[q]),
            forall|p: int, q: int|
                0 <= p < q < out@.len() ==> (#[trigger] out@[p]) != (#[trigger] out@[q]),
            forall|p: int, q: int|
                0 <= p < remaining@.len() && 0 <= q < out@.len() ==> (#[trigger] remaining@[p])
                    != (#[trigger] out@[q]),
            forall|p: int, q: int|
                0 <= p <= q < out@.len() ==> keys@[(#[trigger] out@[p]) as int] >= keys@[(
                #[trigger] out@[q]) as int],
            out@.len() > 0 ==> forall|q: int|
                0 <= q < remaining@.len() ==> keys@[(#[trigger] remaining@[q]) as int]
                    <= keys@[out@[out@.len() - 1] as int],
        decreases remaining@.len(),
    {
        let m = remaining.len();
        let mut best: usize = 0;
        let mut j: usize = 1;
        while j < m
            invariant
                best < j <= m,
                m == remaining@.len(),
                n == keys@.len(),
                forall|q: int| 0 <= q < remaining@.len() ==> (#[trigger] remaining@[q]) < n,
                forall|q: int|
                    0 <= q < j ==> keys@[(#[trigger] remaining@[q]) as int] <= keys@[remaining@[
                        best as int] as int],
            decreases m - j,
        {
            if keys[remaining[j]] > keys[remaining[best]] {
                best = j;
            }
            j = j + 1;
        }
        let ghost rpre = remaining@;
        let ghost opre = out@;
        let e = remaining.remove(best);
        out.push(e);
        proof {
            assert(e == rpre[best as int]);
            assert forall|q: int|
                0 <= q < remaining@.len() implies (#[trigger] remaining@[q]) == (if q < best {
                rpre[q]
            } else {
                rpre[q + 1]
            }) by {}
            assert forall|q: int| 0 <= q < opre.len() implies (#[trigger] out@[q]) == opre[
                q
            ] by {}
            assert(out@[opre.len() as int] == e);
        }
    }
    out
}

/// The positions of the keys, ordered so the keys come smallest first when
/// `ascending`, largest first otherwise.
pub fn sort_indices_str(keys: &Vec<String>, ascending: bool) -> (r: Vec<usize>)
    ensures
        r@.len() == keys@.len(),
        forall|i: int| 0 <= i < r@.len() ==> (#[trigger] r@[i]) < keys@.len(),
        forall|i: int, j: int| 0 <= i < j < r@.len() ==> r@[i] != r@[j],
        ascending ==> forall|i: int, j: int|
            0 <= i <= j < r@.len() ==> lex_le(
                keys@[(#[trigger] r@[i]) as int]@,
                keys@[(#[trigger] r@[j]) as int]@,
            ),
        !ascending ==> forall|i: int, j: int|
            0 <= i <= j < r@.len() ==> lex_le(
                keys@[(#[trigger] r@[j]) as int]@,
                keys@[(#[trigger] r@[i]) as int]@,
            ),
{
    let n = keys.len();
    let mut remaining = identity_indices(n);
    let mut out: Vec<usize> = Vec::new();
    while remaining.len() > 0
        invariant
            n == keys@.len(),
            out@.len() + remaining@.len() == n,
            forall|q: int| 0 <= q < remaining@.len() ==> (#[trigger] remaining@[q]) < n,
            forall|q: int| 0 <= q < out@.len() ==> (#[trigger] out@[q]) < n,
            forall|p: int, q: int|
                0 <= p < q < remaining@.len() ==> (#[trigger] remaining@[p]) != (
                #[trigger] remaining@[q]),
            forall|p: int, q: int|
                0 <= p < q < out@.len() ==> (#[trigger] out@[p]) != (#[trigger] out@[q]),
            forall|p: int, q: int|
                0 <= p < remaining@.len() && 0 <= q < out@.len() ==> (#[trigger] remaining@[p])
                    != (#[trigger] out@[q]),
            forall|p: int, q: int|
                0 <= p <= q < out@.len() ==> key_le(
                    keys@,
                    ascending,
                    (#[trigger] out@[p]) as int,
                    (#[trigger] out@[q]) as int,
                ),
            out@.len() > 0 ==> forall|q: int|
                0 <= q < remaining@.len() ==> key_le(
                    keys@,
                    ascending,
                    out@[out@.len() - 1] as int,
                    (#[trigger] remaining@[q]) as int,
                ),
        decreases remaining@.len(),
    {
        let m = remaining.len();
        proof {
            lemma_lex_le_refl(keys@[remaining@[0] as int]@);
        }
        let mut best: usize = 0;
        let mut j: usize = 1;
        while j < m
            invariant
                best < j <= m,
                m == remaining@.len(),
                n == keys@.len(),
                forall|q: int| 0 <= q < remaining@.len() ==> (#[trigger] remaining@[q]) < n,
                forall|q: int|
                    0 <= q < j ==> key_le(
                        keys@,
                        ascending,
                        remaining@[best as int] as int,
                        (#[trigger] remaining@[q]) as int,
                    ),
            decreases m - j,
        {
            let cand_first = if ascending {
                str_le(keys[remaining[j]].as_str(), keys[remaining[best]].as_str())
                    && !str_le(keys[remaining[best]].as_str(), keys[remaining[j]].as_str())
            } else {
                str_le(keys[remaining[best]].as_str(), keys[remaining[j]].as_str())
                    && !str_le(keys[remaining[j]].as_str(), keys[remaining[best]].as_str())
            };
            proof {
                lemma_lex_le_total(
                    keys@[remaining@[best as int] as int]@,
                    keys@[remaining@[j as int] as int]@,
                );
            }
            if cand_first {
                proof {
                    let kj = keys@[remaining@[j as int] as int]@;
                    let kb = keys@[remaining@[best as int] as int]@;
                    assert forall|q: int|
                        0 <= q < j implies key_le(
                        keys@,
                        ascending,
                        remaining@[j as int] as int,
                        (#[trigger] remaining@[q]) as int,
                    ) by {
                        let kq = keys@[remaining@[q] as int]@;
                        if ascending {
                            lemma_lex_le_trans(kj, kb, kq);
                        } else {
                            lemma_lex_le_trans(kq, kb, kj);
                        }
                    }
                }
                best = j;
            }
            proof {
                lemma_lex_le_refl(keys@[remaining@[j as int] as int]@);
            }
            j = j + 1;
        }
        let ghost rpre = remaining@;
        let ghost opre = out@;
        let e = remaining.remove(best);
        out.push(e);
        proof {
            assert(e == rpre[best as int]);
            assert forall|q: int|
                0 <= q < remaining@.len() implies (#[trigger] remaining@[q]) == (if q < best {
                rpre[q]
            } else {
                rpre[q + 1]
            }) by {}
            assert forall|q: int| 0 <= q < opre.len() implies (#[trigger] out@[q]) == opre[
                q
            ] by {}
            assert(out@[opre.len() as int] == e);
            assert forall|p: int, q: int|
                0 <= p <= q < out@.len() implies key_le(
                keys@,
                ascending,
                (#[trigger] out@[p]) as int,
                (#[trigger] out@[q]) as int,
            ) by {
                if q == out@.len() - 1 && p < q {
                    if opre.len() > 1 {
                        assert(key_le(keys@, ascending, opre[p] as int, opre[opre.len()
                            - 1] as int));
                        assert(key_le(keys@, ascending, opre[opre.len() - 1] as int, e as int));
                        if ascending {
                            lemma_lex_le_trans(
                                keys@[opre[p] as int]@,
                                keys@[opre[opre.len() - 1] as int]@,
                                keys@[e as int]@,
                            );
                        } else {
                            lemma_lex_le_trans(
                                keys@[e as int]@,
                                keys@[opre[opre.len() - 1] as int]@,
                                keys@[opre[p] as int]@,
                            );
                        }
                    }
                }
                if p == q {
                    lemma_lex_le_refl(keys@[out@[p] as int]@);
                }
            }
        }
    }
    out
}

/// Whether the key at `a` comes no later than the key at `b` in the chosen
/// direction.
pub open spec fn key_le(keys: Seq<String>, ascending: bool, a: int, b: int) -> bool {
    if ascending {
        lex_le(keys[a]@, keys[b]@)
    } else {
        lex_le(keys[b]@, keys[a]@)
    }
}

} // verus!
