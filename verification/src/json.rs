//! A verified codec for the JSON text stored in the composite columns of the
//! store: strings with escapes, integers, arrays, and the small fixed-key
//! records the entities carry. Encoding and parsing are specified over
//! `Seq<char>`, and parsing is proved to invert encoding.

use vstd::prelude::*;

verus! {

/// Appends the given char to the end of the string.
pub assume_specification[ String::push ](s: &mut String, c: char)
    ensures
        final (s)@ == old(s)@.push(c),
;

/// The characters of a string slice, in order.
pub fn chars_of(s: &str) -> (r: Vec<char>)
    ensures
        r@ == s@,
{
    let mut r: Vec<char> = Vec::new();
    for c in it: s.chars()
        invariant
            r@ == it.seq().take(it.index() as int),
            it.seq() == s@,
    {
        r.push(c);
    }
    proof {
        assert(r@ =~= s@);
    }
    r
}

pub open spec fn char_code(c: char) -> int {
    c as u32 as int
}

pub open spec fn is_digit(c: char) -> bool {
    48 <= char_code(c) <= 57
}

pub open spec fn digit_val(c: char) -> int {
    char_code(c) - 48
}

pub open spec fn hex_digit_char(n: int) -> char {
    if n == 0 { '0' } else if n == 1 { '1' } else if n == 2 { '2' } else if n == 3 { '3' }
    else if n == 4 { '4' } else if n == 5 { '5' } else if n == 6 { '6' } else if n == 7 { '7' }
    else if n == 8 { '8' } else if n == 9 { '9' } else if n == 10 { 'a' } else if n == 11 { 'b' }
    else if n == 12 { 'c' } else if n == 13 { 'd' } else if n == 14 { 'e' } else { 'f' }
}

pub open spec fn hex_val(c: char) -> Option<int> {
    if is_digit(c) { Some(digit_val(c)) }
    else if 97 <= char_code(c) <= 102 { Some(char_code(c) - 87) }
    else if 65 <= char_code(c) <= 70 { Some(char_code(c) - 55) }
    else { None }
}

/// The escape sequence a character is written as inside a JSON string.
pub open spec fn esc_char(c: char) -> Seq<char> {
    if c == '"' { seq!['\\', '"'] }
    else if c == '\\' { seq!['\\', '\\'] }
    else if c == '\n' { seq!['\\', 'n'] }
    else if c == '\r' { seq!['\\', 'r'] }
    else if c == '\t' { seq!['\\', 't'] }
    else if char_code(c) < 32 {
        seq!['\\', 'u', '0', '0', hex_digit_char(char_code(c) / 16), hex_digit_char(char_code(c) % 16)]
    } else { seq![c] }
}

/// The body of a JSON string: each character escaped, no quotes around it.
pub open spec fn enc_chars(s: Seq<char>) -> Seq<char>
    decreases s.len(),
{
    if s.len() == 0 { Seq::empty() } else { esc_char(s[0]) + enc_chars(s.drop_first()) }
}

/// A JSON string: quoted, escaped body.
pub open spec fn enc_string(s: Seq<char>) -> Seq<char> {
    seq!['"'] + enc_chars(s) + seq!['"']
}

/// Parses the body of a JSON string after the opening quote, up to and
/// including the closing quote. Returns the decoded content and the rest of
/// the input.
pub open spec fn parse_chars(s: Seq<char>) -> Option<(Seq<char>, Seq<char>)>
    decreases s.len(),
{
    if s.len() == 0 {
        None
    } else if s[0] == '"' {
        Some((Seq::empty(), s.drop_first()))
    } else if s[0] == '\\' {
        if s.len() < 2 {
            None
        } else {
            let e = s[1];
            if e == 'u' {
                if s.len() < 6 {
                    None
                } else {
                    match (hex_val(s[2]), hex_val(s[3]), hex_val(s[4]), hex_val(s[5])) {
                        (Some(h1), Some(h2), Some(h3), Some(h4)) => {
                            let v = ((h1 * 16 + h2) * 16 + h3) * 16 + h4;
                            if v < 128 {
                                match parse_chars(s.skip(6)) {
                                    Some((t, r)) => Some((seq![(v as u32) as char] + t, r)),
                                    None => None,
                                }
                            } else {
                                None
                            }
                        },
                        _ => None,
                    }
                }
            } else {
                let c = if e == '"' { Some('"') } else if e == '\\' { Some('\\') }
                    else if e == '/' { Some('/') } else if e == 'n' { Some('\n') }
                    else if e == 'r' { Some('\r') } else if e == 't' { Some('\t') }
                    else { None };
                match c {
                    Some(c) => match parse_chars(s.skip(2)) {
                        Some((t, r)) => Some((seq![c] + t, r)),
                        None => None,
                    },
                    None => None,
                }
            }
        }
    } else if char_code(s[0]) < 32 {
        None
    } else {
        match parse_chars(s.drop_first()) {
            Some((t, r)) => Some((seq![s[0]] + t, r)),
            None => None,
        }
    }
}

/// Parses a whole JSON string, opening quote included.
pub open spec fn parse_string(s: Seq<char>) -> Option<(Seq<char>, Seq<char>)> {
    if s.len() > 0 && s[0] == '"' { parse_chars(s.drop_first()) } else { None }
}

/// A successful string-body parse consumes at least the closing quote.
pub proof fn lemma_parse_chars_shrinks(s: Seq<char>)
    ensures
        parse_chars(s) matches Some(p) ==> p.1.len() < s.len(),
    decreases s.len(),
{
    if s.len() == 0 {
    } else if s[0] == '"' {
    } else if s[0] == '\\' {
        if s.len() >= 2 {
            if s[1] == 'u' {
                if s.len() >= 6 {
                    lemma_parse_chars_shrinks(s.skip(6));
                }
            } else {
                lemma_parse_chars_shrinks(s.skip(2));
            }
        }
    } else if char_code(s[0]) < 32 {
    } else {
        lemma_parse_chars_shrinks(s.drop_first());
    }
}

/// A successful string parse consumes at least the two quotes.
pub proof fn lemma_parse_string_shrinks(s: Seq<char>)
    ensures
        parse_string(s) matches Some(p) ==> p.1.len() < s.len(),
{
    if s.len() > 0 && s[0] == '"' {
        lemma_parse_chars_shrinks(s.drop_first());
    }
}

pub proof fn lemma_hex_digit_val(n: int)
    requires
        0 <= n < 16,
    ensures
        hex_val(hex_digit_char(n)) == Some(n),
{
}

/// Parsing inverts escaping: the escaped body followed by a closing quote and
/// anything else parses back to the content it was made from.
pub proof fn lemma_parse_chars_inverts(t: Seq<char>, rest: Seq<char>)
    ensures
        parse_chars(enc_chars(t) + seq!['"'] + rest) == Some((t, rest)),
    decreases t.len(),
{
    let s = enc_chars(t) + seq!['"'] + rest;
    if t.len() == 0 {
        assert(s =~= seq!['"'] + rest);
        assert(s[0] == '"');
        assert(s.drop_first() =~= rest);
    } else {
        let c = t[0];
        let t1 = t.drop_first();
        let s1 = enc_chars(t1) + seq!['"'] + rest;
        lemma_parse_chars_inverts(t1, rest);
        assert(enc_chars(t) == esc_char(c) + enc_chars(t1));
        assert(s =~= esc_char(c) + s1);
        if c == '"' || c == '\\' || c == '\n' || c == '\r' || c == '\t' {
            assert(esc_char(c).len() == 2);
            assert(s[0] == '\\');
            assert(s.skip(2) =~= s1);
            assert(seq![c] + t1 =~= t);
        } else if char_code(c) < 32 {
            assert(esc_char(c).len() == 6);
            assert(s[0] == '\\' && s[1] == 'u' && s[2] == '0' && s[3] == '0');
            let hi = char_code(c) / 16;
            let lo = char_code(c) % 16;
            assert(s[4] == hex_digit_char(hi) && s[5] == hex_digit_char(lo));
            lemma_hex_digit_val(hi);
            lemma_hex_digit_val(lo);
            assert(hex_val(s[2]) == Some(0int) && hex_val(s[3]) == Some(0int));
            let v = ((0 * 16 + 0) * 16 + hi) * 16 + lo;
            assert(v == char_code(c));
            assert((v as u32) == c as u32);
            vstd::utf8::char_u32_cast(c, v as u32);
            assert((v as u32) as char == c);
            assert(s.skip(6) =~= s1);
            assert(seq![c] + t1 =~= t);
        } else {
            assert(esc_char(c) == seq![c]);
            assert(s[0] == c);
            assert(c != '"' && c != '\\');
            assert(s.drop_first() =~= s1);
            assert(seq![c] + t1 =~= t);
        }
    }
}

pub open spec fn digit_char(n: int) -> char {
    hex_digit_char(n)
}

/// The decimal digits of a non-negative integer, most significant first.
pub open spec fn dec_rep(n: int) -> Seq<char>
    recommends
        n >= 0,
    decreases n,
{
    if n < 10 { seq![digit_char(n)] } else { dec_rep(n / 10).push(digit_char(n % 10)) }
}

/// A JSON integer: an optional minus sign and decimal digits.
pub open spec fn enc_int(n: int) -> Seq<char> {
    if n < 0 { seq!['-'] + dec_rep(-n) } else { dec_rep(n) }
}

/// The largest magnitude the digit parser accepts for an `i32`.
pub open spec fn parse_int_bound() -> int {
    0x8000_0000
}

/// The largest magnitude the digit parser accepts for an `i64`.
pub open spec fn parse_int_wide_bound() -> int {
    0x8000_0000_0000_0000
}

/// Consumes decimal digits, accumulating their value; fails once the value
/// passes the given bound.
pub open spec fn parse_digits(s: Seq<char>, acc: int, bound: int) -> Option<(int, Seq<char>)>
    decreases s.len(),
{
    if s.len() > 0 && is_digit(s[0]) {
        let a2 = acc * 10 + digit_val(s[0]);
        if a2 > bound { None } else { parse_digits(s.drop_first(), a2, bound) }
    } else {
        Some((acc, s))
    }
}

/// Parses a JSON integer that fits in an `i32`.
pub open spec fn parse_int(s: Seq<char>) -> Option<(int, Seq<char>)> {
    if s.len() > 0 && s[0] == '-' {
        let s1 = s.drop_first();
        if s1.len() > 0 && is_digit(s1[0]) {
            match parse_digits(s1, 0, parse_int_bound()) {
                Some((n, r)) => if n <= 0x8000_0000 { Some((-n, r)) } else { None },
                None => None,
            }
        } else {
            None
        }
    } else if s.len() > 0 && is_digit(s[0]) {
        match parse_digits(s, 0, parse_int_bound()) {
            Some((n, r)) => if n <= 0x7fff_ffff { Some((n, r)) } else { None },
            None => None,
        }
    } else {
        None
    }
}

/// Parses a JSON integer that fits in an `i64`.
pub open spec fn parse_int_wide(s: Seq<char>) -> Option<(int, Seq<char>)> {
    if s.len() > 0 && s[0] == '-' {
        let s1 = s.drop_first();
        if s1.len() > 0 && is_digit(s1[0]) {
            match parse_digits(s1, 0, parse_int_wide_bound()) {
                Some((n, r)) => if n <= 0x8000_0000_0000_0000 { Some((-n, r)) } else { None },
                None => None,
            }
        } else {
            None
        }
    } else if s.len() > 0 && is_digit(s[0]) {
        match parse_digits(s, 0, parse_int_wide_bound()) {
            Some((n, r)) => if n <= 0x7fff_ffff_ffff_ffff { Some((n, r)) } else { None },
            None => None,
        }
    } else {
        None
    }
}

pub open spec fn pow10(k: nat) -> int
    decreases k,
{
    if k == 0 { 1 } else { 10 * pow10((k - 1) as nat) }
}

pub proof fn lemma_dec_rep_digits(n: int)
    requires
        n >= 0,
    ensures
        dec_rep(n).len() >= 1,
        forall|i: int| 0 <= i < dec_rep(n).len() ==> is_digit(#[trigger] dec_rep(n)[i]),
    decreases n,
{
    if n < 10 {
        assert(is_digit(digit_char(n)));
    } else {
        lemma_dec_rep_digits(n / 10);
        let d = dec_rep(n / 10);
        assert(is_digit(digit_char(n % 10)));
        assert(forall|i: int| 0 <= i < d.len() ==> dec_rep(n)[i] == d[i]);
    }
}

/// Running the digit parser over the decimal form of `n` folds `n` into the
/// accumulator and goes on with the rest of the input.
pub proof fn lemma_parse_digits_inverts(n: int, rest: Seq<char>, acc: int, bound: int)
    requires
        n >= 0,
        acc >= 0,
        acc * pow10(dec_rep(n).len()) + n <= bound,
    ensures
        parse_digits(dec_rep(n) + rest, acc, bound) == parse_digits(
            rest,
            acc * pow10(dec_rep(n).len()) + n,
            bound,
        ),
    decreases n,
{
    let s = dec_rep(n) + rest;
    if n < 10 {
        assert(dec_rep(n) =~= seq![digit_char(n)]);
        assert(s[0] == digit_char(n));
        assert(is_digit(s[0]) && digit_val(s[0]) == n);
        assert(pow10(1) == 10) by {
            reveal_with_fuel(pow10, 2);
        }
        let a2 = acc * 10 + n;
        assert(a2 <= bound);
        assert(s.drop_first() =~= rest);
    } else {
        let np = n / 10;
        let d = digit_char(n % 10);
        let lp = dec_rep(np).len();
        assert(dec_rep(n) == dec_rep(np).push(d));
        assert(pow10(dec_rep(n).len()) == 10 * pow10(lp));
        assert(s =~= dec_rep(np) + (seq![d] + rest));
        lemma_pow10_pos(lp);
        assert(acc * pow10(lp) + np <= bound) by (nonlinear_arith)
            requires
                acc >= 0,
                np == n / 10,
                n >= 10,
                acc * (10 * pow10(lp)) + n <= bound,
                pow10(lp) >= 1,
        {
        }
        lemma_parse_digits_inverts(np, seq![d] + rest, acc, bound);
        let a1 = acc * pow10(lp) + np;
        assert(parse_digits(s, acc, bound) == parse_digits(seq![d] + rest, a1, bound));
        let s2 = seq![d] + rest;
        assert(s2[0] == d && is_digit(d) && digit_val(d) == n % 10);
        let a2 = a1 * 10 + n % 10;
        assert(a2 == acc * (10 * pow10(lp)) + n) by (nonlinear_arith)
            requires
                a1 == acc * pow10(lp) + n / 10,
                a2 == a1 * 10 + n % 10,
                n >= 0,
        {
        }
        assert(a2 <= bound);
        assert(s2.drop_first() =~= rest);
    }
}

pub proof fn lemma_pow10_pos(k: nat)
    ensures
        pow10(k) >= 1,
    decreases k,
{
    if k > 0 {
        lemma_pow10_pos((k - 1) as nat);
    }
}

/// Parsing inverts encoding for integers in the `i32` range, whenever what
/// follows does not begin with a digit.
pub proof fn lemma_parse_int_inverts(n: int, rest: Seq<char>)
    requires
        -0x8000_0000 <= n <= 0x7fff_ffff,
        rest.len() == 0 || !is_digit(rest[0]),
    ensures
        parse_int(enc_int(n) + rest) == Some((n, rest)),
{
    let s = enc_int(n) + rest;
    if n >= 0 {
        lemma_dec_rep_digits(n);
        assert(s =~= dec_rep(n) + rest);
        assert(s[0] == dec_rep(n)[0]);
        assert(is_digit(s[0]));
        assert(s[0] != '-');
        assert(0 * pow10(dec_rep(n).len()) + n <= parse_int_bound());
        lemma_parse_digits_inverts(n, rest, 0, parse_int_bound());
        assert(parse_digits(s, 0, parse_int_bound()) == Some((n, rest)));
    } else {
        let m = -n;
        lemma_dec_rep_digits(m);
        assert(s[0] == '-');
        assert(s.drop_first() =~= dec_rep(m) + rest);
        let s1 = s.drop_first();
        assert(s1[0] == dec_rep(m)[0] && is_digit(s1[0]));
        assert(0 * pow10(dec_rep(m).len()) + m <= parse_int_bound());
        lemma_parse_digits_inverts(m, rest, 0, parse_int_bound());
        assert(parse_digits(s1, 0, parse_int_bound()) == Some((m, rest)));
    }
}

/// Parsing inverts encoding for integers in the `i64` range, whenever what
/// follows does not begin with a digit.
pub proof fn lemma_parse_int_wide_inverts(n: int, rest: Seq<char>)
    requires
        -0x8000_0000_0000_0000 <= n <= 0x7fff_ffff_ffff_ffff,
        rest.len() == 0 || !is_digit(rest[0]),
    ensures
        parse_int_wide(enc_int(n) + rest) == Some((n, rest)),
{
    let s = enc_int(n) + rest;
    if n >= 0 {
        lemma_dec_rep_digits(n);
        assert(s =~= dec_rep(n) + rest);
        assert(s[0] == dec_rep(n)[0]);
        assert(is_digit(s[0]));
        assert(s[0] != '-');
        assert(0 * pow10(dec_rep(n).len()) + n <= parse_int_wide_bound());
        lemma_parse_digits_inverts(n, rest, 0, parse_int_wide_bound());
        assert(parse_digits(s, 0, parse_int_wide_bound()) == Some((n, rest)));
    } else {
        let m = -n;
        lemma_dec_rep_digits(m);
        assert(s[0] == '-');
        assert(s.drop_first() =~= dec_rep(m) + rest);
        let s1 = s.drop_first();
        assert(s1[0] == dec_rep(m)[0] && is_digit(s1[0]));
        assert(0 * pow10(dec_rep(m).len()) + m <= parse_int_wide_bound());
        lemma_parse_digits_inverts(m, rest, 0, parse_int_wide_bound());
        assert(parse_digits(s1, 0, parse_int_wide_bound()) == Some((m, rest)));
    }
}

/// Parsing inverts encoding for whole JSON strings.
pub proof fn lemma_parse_string_inverts(t: Seq<char>, rest: Seq<char>)
    ensures
        parse_string(enc_string(t) + rest) == Some((t, rest)),
{
    let s = enc_string(t) + rest;
    assert(s[0] == '"');
    assert(s.drop_first() =~= enc_chars(t) + seq!['"'] + rest);
    lemma_parse_chars_inverts(t, rest);
}

/// The element parser consumes at least one character on success.
pub open spec fn elem_shrinks<T>(f: spec_fn(Seq<char>) -> Option<(T, Seq<char>)>) -> bool {
    forall|s: Seq<char>| (#[trigger] f(s)) matches Some(p) ==> p.1.len() < s.len()
}

/// Parses `]`-terminated, `,`-separated elements after the opening bracket of
/// a non-empty array.
pub open spec fn parse_items<T>(
    f: spec_fn(Seq<char>) -> Option<(T, Seq<char>)>,
    s: Seq<char>,
) -> Option<(Seq<T>, Seq<char>)>
    decreases s.len(),
    when elem_shrinks(f)
{
    match f(s) {
        None => None,
        Some((e, r)) => {
            if r.len() == 0 {
                None
            } else if r[0] == ']' {
                Some((seq![e], r.skip(1)))
            } else if r[0] == ',' {
                match parse_items(f, r.skip(1)) {
                    Some((l, r2)) => Some((seq![e] + l, r2)),
                    None => None,
                }
            } else {
                None
            }
        },
    }
}

/// Parses a JSON array whose elements are parsed by `f`.
pub open spec fn parse_list<T>(
    f: spec_fn(Seq<char>) -> Option<(T, Seq<char>)>,
    s: Seq<char>,
) -> Option<(Seq<T>, Seq<char>)> {
    if s.len() >= 2 && s[0] == '[' && s[1] == ']' {
        Some((Seq::empty(), s.skip(2)))
    } else if s.len() >= 1 && s[0] == '[' {
        parse_items(f, s.skip(1))
    } else {
        None
    }
}

pub open spec fn enc_items<T>(g: spec_fn(T) -> Seq<char>, l: Seq<T>) -> Seq<char>
    decreases l.len(),
{
    if l.len() == 0 {
        Seq::empty()
    } else if l.len() == 1 {
        g(l[0])
    } else {
        g(l[0]) + seq![','] + enc_items(g, l.drop_first())
    }
}

/// A JSON array whose elements are encoded by `g`.
pub open spec fn enc_list<T>(g: spec_fn(T) -> Seq<char>, l: Seq<T>) -> Seq<char> {
    seq!['['] + enc_items(g, l) + seq![']']
}

/// `f` inverts `g` on any well-formed element followed by anything.
pub open spec fn parses_encoded<T>(
    f: spec_fn(Seq<char>) -> Option<(T, Seq<char>)>,
    g: spec_fn(T) -> Seq<char>,
    valid: spec_fn(T) -> bool,
) -> bool {
    forall|e: T, rest: Seq<char>| valid(e) ==> #[trigger] f(g(e) + rest) == Some((e, rest))
}

/// Encoded well-formed elements are non-empty and do not begin with the
/// character that closes an array.
pub open spec fn enc_opens<T>(g: spec_fn(T) -> Seq<char>, valid: spec_fn(T) -> bool) -> bool {
    forall|e: T| valid(e) ==> (#[trigger] g(e)).len() >= 1 && g(e)[0] != ']'
}

pub proof fn lemma_parse_items_inverts<T>(
    f: spec_fn(Seq<char>) -> Option<(T, Seq<char>)>,
    g: spec_fn(T) -> Seq<char>,
    valid: spec_fn(T) -> bool,
    l: Seq<T>,
    rest: Seq<char>,
)
    requires
        elem_shrinks(f),
        parses_encoded(f, g, valid),
        forall|i: int| 0 <= i < l.len() ==> valid(#[trigger] l[i]),
        l.len() >= 1,
    ensures
        parse_items(f, enc_items(g, l) + seq![']'] + rest) == Some((l, rest)),
    decreases l.len(),
{
    let s = enc_items(g, l) + seq![']'] + rest;
    if l.len() == 1 {
        let tail = seq![']'] + rest;
        assert(s =~= g(l[0]) + tail);
        assert(f(s) == Some((l[0], tail)));
        assert(tail[0] == ']');
        assert(tail.skip(1) =~= rest);
        assert(seq![l[0]] =~= l);
    } else {
        let l1 = l.drop_first();
        let tail = seq![','] + enc_items(g, l1) + seq![']'] + rest;
        assert(s =~= g(l[0]) + tail);
        assert(f(s) == Some((l[0], tail)));
        assert(tail[0] == ',');
        assert(tail.skip(1) =~= enc_items(g, l1) + seq![']'] + rest);
        assert(forall|i: int| 0 <= i < l1.len() ==> valid(#[trigger] l1[i]));
        lemma_parse_items_inverts(f, g, valid, l1, rest);
        assert(seq![l[0]] + l1 =~= l);
    }
}

/// Parsing inverts encoding for arrays.
pub proof fn lemma_parse_list_inverts<T>(
    f: spec_fn(Seq<char>) -> Option<(T, Seq<char>)>,
    g: spec_fn(T) -> Seq<char>,
    valid: spec_fn(T) -> bool,
    l: Seq<T>,
    rest: Seq<char>,
)
    requires
        elem_shrinks(f),
        parses_encoded(f, g, valid),
        enc_opens(g, valid),
        forall|i: int| 0 <= i < l.len() ==> valid(#[trigger] l[i]),
    ensures
        parse_list(f, enc_list(g, l) + rest) == Some((l, rest)),
{
    let s = enc_list(g, l) + rest;
    assert(s[0] == '[');
    if l.len() == 0 {
        assert(s[1] == ']');
        assert(s.skip(2) =~= rest);
    } else {
        assert(s[1] == g(l[0])[0]);
        assert(enc_items(g, l)[0] == g(l[0])[0]);
        assert(s[1] != ']');
        assert(s.skip(1) =~= enc_items(g, l) + seq![']'] + rest);
        lemma_parse_items_inverts(f, g, valid, l, rest);
    }
}

pub proof fn lemma_enc_items_snoc<T>(g: spec_fn(T) -> Seq<char>, l: Seq<T>, e: T)
    requires
        l.len() >= 1,
    ensures
        enc_items(g, l.push(e)) == enc_items(g, l) + seq![','] + g(e),
    decreases l.len(),
{
    if l.len() == 1 {
        assert(l.push(e)[0] == l[0]);
        assert(l.push(e).drop_first() =~= seq![e]);
        assert(enc_items(g, seq![e]) == g(e));
        assert(enc_items(g, l.push(e)) =~= enc_items(g, l) + seq![','] + g(e));
    } else {
        assert(l.push(e)[0] == l[0]);
        assert(l.push(e).drop_first() =~= l.drop_first().push(e));
        lemma_enc_items_snoc(g, l.drop_first(), e);
        assert(enc_items(g, l.push(e)) =~= enc_items(g, l) + seq![','] + g(e));
    }
}

/// Consumes an exact expected text, such as a brace or a quoted key.
pub open spec fn parse_exact(s: Seq<char>, lit: Seq<char>) -> Option<Seq<char>> {
    if lit.len() <= s.len() && s.take(lit.len() as int) == lit {
        Some(s.skip(lit.len() as int))
    } else {
        None
    }
}

pub proof fn lemma_parse_exact_inverts(lit: Seq<char>, rest: Seq<char>)
    ensures
        parse_exact(lit + rest, lit) == Some(rest),
{
    let s = lit + rest;
    assert(s.take(lit.len() as int) =~= lit);
    assert(s.skip(lit.len() as int) =~= rest);
}

pub fn hex_char(n: u8) -> (c: char)
    requires
        n < 16,
    ensures
        c == hex_digit_char(n as int),
{
    match n {
        0 => '0', 1 => '1', 2 => '2', 3 => '3', 4 => '4', 5 => '5', 6 => '6', 7 => '7',
        8 => '8', 9 => '9', 10 => 'a', 11 => 'b', 12 => 'c', 13 => 'd', 14 => 'e', _ => 'f',
    }
}

pub proof fn lemma_enc_chars_snoc(t: Seq<char>, c: char)
    ensures
        enc_chars(t.push(c)) == enc_chars(t) + esc_char(c),
    decreases t.len(),
{
    if t.len() == 0 {
        assert(t.push(c).drop_first() =~= t);
        assert(t.push(c)[0] == c);
        assert(t.push(c).len() == 1);
        assert(enc_chars(t.push(c)) == esc_char(c) + enc_chars(t.push(c).drop_first()));
        assert(enc_chars(t.push(c)) =~= esc_char(c));
        assert(enc_chars(t) + esc_char(c) =~= esc_char(c));
    } else {
        assert(t.push(c).drop_first() =~= t.drop_first().push(c));
        assert(t.push(c)[0] == t[0]);
        lemma_enc_chars_snoc(t.drop_first(), c);
        assert(enc_chars(t.push(c)) =~= enc_chars(t) + esc_char(c));
    }
}

/// Appends the JSON encoding of a string, quotes and escapes included.
pub fn push_json_string(out: &mut String, s: &str)
    ensures
        final (out)@ == old(out)@ + enc_string(s@),
{
    let ghost base = out@;
    out.push('"');
    let cs = chars_of(s);
    let n = cs.len();
    let mut i: usize = 0;
    while i < n
        invariant
            n == cs.len(),
            cs@ == s@,
            i <= n,
            out@ == base + seq!['"'] + enc_chars(s@.take(i as int)),
        decreases n - i,
    {
        let c = cs[i];
        proof {
            lemma_enc_chars_snoc(s@.take(i as int), c);
            assert(s@.take(i as int).push(c) =~= s@.take(i as int + 1));
        }
        if c == '"' {
            out.push('\\');
            out.push('"');
        } else if c == '\\' {
            out.push('\\');
            out.push('\\');
        } else if c == '\n' {
            out.push('\\');
            out.push('n');
        } else if c == '\r' {
            out.push('\\');
            out.push('r');
        } else if c == '\t' {
            out.push('\\');
            out.push('t');
        } else if (c as u32) < 32 {
            let v = c as u32;
            out.push('\\');
            out.push('u');
            out.push('0');
            out.push('0');
            out.push(hex_char((v / 16) as u8));
            out.push(hex_char((v % 16) as u8));
            proof {
                assert(out@ =~= base + seq!['"'] + enc_chars(s@.take(i as int)) + esc_char(c));
            }
        } else {
            out.push(c);
        }
        proof {
            assert(out@ =~= base + seq!['"'] + (enc_chars(s@.take(i as int)) + esc_char(c)));
        }
        i = i + 1;
    }
    proof {
        assert(s@.take(n as int) =~= s@);
    }
    out.push('"');
    proof {
        assert(out@ =~= base + enc_string(s@));
    }
}

/// Appends the decimal form of an `i32`.
pub fn push_json_int(out: &mut String, n: i32)
    ensures
        final (out)@ == old(out)@ + enc_int(n as int),
{
    let ghost base = out@;
    let mut m: u32;
    if n < 0 {
        out.push('-');
        m = (-(n as i64)) as u32;
    } else {
        m = n as u32;
    }
    let ghost m0 = m;
    let mut rev: Vec<char> = Vec::new();
    while m >= 10
        invariant
            dec_rep(m0 as int) =~= dec_rep(m as int) + rev@.reverse(),
        decreases m,
    {
        let d = hex_char((m % 10) as u8);
        proof {
            assert(dec_rep(m as int) == dec_rep(m as int / 10).push(digit_char(m as int % 10)));
            assert(rev@.push(d).reverse() =~= seq![d] + rev@.reverse());
            assert(dec_rep(m as int / 10) + rev@.push(d).reverse() =~= dec_rep(m as int) + rev@.reverse());
        }
        rev.push(d);
        m = m / 10;
    }
    out.push(hex_char((m % 10) as u8));
    proof {
        assert(digit_char(m as int) == digit_char(m as int % 10));
        assert(dec_rep(m as int) =~= seq![digit_char(m as int % 10)]);
    }
    let k = rev.len();
    let mut j: usize = 0;
    while j < k
        invariant
            k == rev.len(),
            j <= k,
            dec_rep(m0 as int).len() == 1 + k,
            dec_rep(m0 as int) =~= seq![dec_rep(m0 as int)[0]] + rev@.reverse(),
            out@ == base + (if (n as int) < 0 { seq!['-'] } else { Seq::<char>::empty() })
                + dec_rep(m0 as int).take(1 + j as int),
        decreases k - j,
    {
        proof {
            assert(dec_rep(m0 as int)[1 + j as int] == rev@.reverse()[j as int]);
            assert(rev@.reverse()[j as int] == rev@[k - 1 - j as int]);
            assert(dec_rep(m0 as int).take(1 + j as int).push(rev@[k - 1 - j as int])
                =~= dec_rep(m0 as int).take(1 + j as int + 1));
        }
        out.push(rev[k - 1 - j]);
        j = j + 1;
    }
    proof {
        assert(dec_rep(m0 as int).take(1 + k as int) =~= dec_rep(m0 as int));
        if n < 0 {
            assert(m0 == -(n as int));
            assert(out@ =~= base + enc_int(n as int));
        } else {
            assert(out@ =~= base + enc_int(n as int));
        }
    }
}

/// Appends the decimal form of a machine-word count.
pub fn push_dec_usize(out: &mut String, n: usize)
    ensures
        final (out)@ == old(out)@ + dec_rep(n as int),
{
    let ghost base = out@;
    let mut m: usize = n;
    let ghost m0 = m;
    let mut rev: Vec<char> = Vec::new();
    while m >= 10
        invariant
            dec_rep(m0 as int) =~= dec_rep(m as int) + rev@.reverse(),
        decreases m,
    {
        let d = hex_char((m % 10) as u8);
        proof {
            assert(dec_rep(m as int) == dec_rep(m as int / 10).push(digit_char(m as int % 10)));
            assert(rev@.push(d).reverse() =~= seq![d] + rev@.reverse());
            assert(dec_rep(m as int / 10) + rev@.push(d).reverse() =~= dec_rep(m as int) + rev@.reverse());
        }
        rev.push(d);
        m = m / 10;
    }
    out.push(hex_char((m % 10) as u8));
    proof {
        assert(digit_char(m as int) == digit_char(m as int % 10));
        assert(dec_rep(m as int) =~= seq![digit_char(m as int % 10)]);
    }
    let k = rev.len();
    let mut j: usize = 0;
    while j < k
        invariant
            k == rev.len(),
            j <= k,
            dec_rep(m0 as int).len() == 1 + k,
            dec_rep(m0 as int) =~= seq![dec_rep(m0 as int)[0]] + rev@.reverse(),
            out@ == base + dec_rep(m0 as int).take(1 + j as int),
        decreases k - j,
    {
        proof {
            assert(dec_rep(m0 as int)[1 + j as int] == rev@.reverse()[j as int]);
            assert(rev@.reverse()[j as int] == rev@[k - 1 - j as int]);
            assert(dec_rep(m0 as int).take(1 + j as int).push(rev@[k - 1 - j as int])
                =~= dec_rep(m0 as int).take(1 + j as int + 1));
        }
        out.push(rev[k - 1 - j]);
        j = j + 1;
    }
    proof {
        assert(dec_rep(m0 as int).take(1 + k as int) =~= dec_rep(m0 as int));
    }
}

pub fn hex_val_exec(c: char) -> (r: Option<u8>)
    ensures
        match r {
            Some(n) => hex_val(c) == Some(n as int) && n < 16,
            None => hex_val(c) is None,
        },
{
    let u = c as u32;
    if 48 <= u && u <= 57 {
        Some((u - 48) as u8)
    } else if 97 <= u && u <= 102 {
        Some((u - 87) as u8)
    } else if 65 <= u && u <= 70 {
        Some((u - 55) as u8)
    } else {
        None
    }
}

/// Parses a JSON string starting at position `i`; on success returns the
/// decoded content and the position just past the closing quote.
pub fn parse_string_at(v: &Vec<char>, i: usize) -> (r: Option<(String, usize)>)
    requires
        i <= v@.len(),
    ensures
        match r {
            Some(p) => {
                &&& i < p.1 <= v@.len()
                &&& parse_string(v@.skip(i as int)) == Some((p.0@, v@.skip(p.1 as int)))
            },
            None => parse_string(v@.skip(i as int)) is None,
        },
{
    if i >= v.len() || v[i] != '"' {
        return None;
    }
    let ghost s1 = v@.skip(i as int + 1);
    proof {
        assert(v@.skip(i as int).drop_first() =~= s1);
    }
    let mut p: usize = i + 1;
    let mut acc = String::new();
    loop
        invariant
            i + 1 <= p <= v@.len(),
            s1 == v@.skip(i as int + 1),
            v@.skip(i as int).len() > 0 && v@.skip(i as int)[0] == '"',
            v@.skip(i as int).drop_first() == s1,
            parse_chars(v@.skip(p as int)) matches Some(tr)
                ==> parse_chars(s1) == Some((acc@ + tr.0, tr.1)),
            parse_chars(v@.skip(p as int)) is None ==> parse_chars(s1) is None,
        decreases v@.len() - p,
    {
        let ghost sp = v@.skip(p as int);
        if p >= v.len() {
            proof {
                assert(sp.len() == 0);
            }
            return None;
        }
        let c = v[p];
        proof {
            assert(sp[0] == c);
        }
        if c == '"' {
            proof {
                assert(sp.drop_first() =~= v@.skip(p as int + 1));
                assert(parse_chars(sp) == Some((Seq::<char>::empty(), v@.skip(p as int + 1))));
                assert(acc@ + Seq::<char>::empty() =~= acc@);
            }
            return Some((acc, p + 1));
        } else if c == '\\' {
            if v.len() - p < 2 {
                proof {
                    assert(sp.len() < 2);
                }
                return None;
            }
            let e = v[p + 1];
            proof {
                assert(sp.len() >= 2 && sp[1] == e);
            }
            if e == 'u' {
                if v.len() - p < 6 {
                    proof {
                        assert(sp.len() < 6);
                    }
                    return None;
                }
                proof {
                    assert(sp.len() >= 6);
                    assert(sp[2] == v@[p + 2] && sp[3] == v@[p + 3] && sp[4] == v@[p + 4]
                        && sp[5] == v@[p + 5]);
                }
                let h1 = hex_val_exec(v[p + 2]);
                let h2 = hex_val_exec(v[p + 3]);
                let h3 = hex_val_exec(v[p + 4]);
                let h4 = hex_val_exec(v[p + 5]);
                match (h1, h2, h3, h4) {
                    (Some(a), Some(b), Some(cc), Some(d)) => {
                        let val: u32 = ((a as u32 * 16 + b as u32) * 16 + cc as u32) * 16
                            + d as u32;
                        if val >= 128 {
                            return None;
                        }
                        let dc = (val as u8) as char;
                        proof {
                            assert(dc as u32 == val);
                            vstd::utf8::char_u32_cast(dc, val);
                            assert((val as u32) as char == dc);
                            assert(sp.skip(6) =~= v@.skip(p as int + 6));
                        }
                        let ghost old_acc = acc@;
                        acc.push(dc);
                        proof {
                            if let Some((t, r)) = parse_chars(v@.skip(p as int + 6)) {
                                assert(parse_chars(sp) == Some((seq![dc] + t, r)));
                                assert(old_acc + (seq![dc] + t) =~= acc@ + t);
                            }
                        }
                        p = p + 6;
                    },
                    _ => {
                        return None;
                    },
                }
            } else {
                let dc: char;
                if e == '"' { dc = '"'; }
                else if e == '\\' { dc = '\\'; }
                else if e == '/' { dc = '/'; }
                else if e == 'n' { dc = '\n'; }
                else if e == 'r' { dc = '\r'; }
                else if e == 't' { dc = '\t'; }
                else {
                    return None;
                }
                proof {
                    assert(sp.skip(2) =~= v@.skip(p as int + 2));
                }
                let ghost old_acc = acc@;
                acc.push(dc);
                proof {
                    if let Some((t, r)) = parse_chars(v@.skip(p as int + 2)) {
                        assert(parse_chars(sp) == Some((seq![dc] + t, r)));
                        assert(old_acc + (seq![dc] + t) =~= acc@ + t);
                    }
                }
                p = p + 2;
            }
        } else if (c as u32) < 32 {
            return None;
        } else {
            proof {
                assert(sp.drop_first() =~= v@.skip(p as int + 1));
            }
            let ghost old_acc = acc@;
            acc.push(c);
            proof {
                if let Some((t, r)) = parse_chars(v@.skip(p as int + 1)) {
                    assert(parse_chars(sp) == Some((seq![c] + t, r)));
                    assert(old_acc + (seq![c] + t) =~= acc@ + t);
                }
            }
            p = p + 1;
        }
    }
}

/// Parses a JSON integer in the `i32` range starting at position `i`.
pub fn parse_int_at(v: &Vec<char>, i: usize) -> (r: Option<(i32, usize)>)
    requires
        i <= v@.len(),
    ensures
        match r {
            Some(p) => {
                &&& i < p.1 <= v@.len()
                &&& parse_int(v@.skip(i as int)) == Some((p.0 as int, v@.skip(p.1 as int)))
            },
            None => parse_int(v@.skip(i as int)) is None,
        },
{
    let ghost s0 = v@.skip(i as int);
    let neg: bool;
    let mut p: usize;
    if i < v.len() && v[i] == '-' {
        neg = true;
        p = i + 1;
        proof {
            assert(s0[0] == '-');
            assert(s0.drop_first() =~= v@.skip(i as int + 1));
        }
    } else {
        neg = false;
        p = i;
    }
    let ghost sd = v@.skip(p as int);
    if p >= v.len() {
        return None;
    }
    let c0 = v[p];
    let u0 = c0 as u32;
    if !(48 <= u0 && u0 <= 57) {
        proof {
            assert(sd[0] == c0 && !is_digit(c0));
            if !neg {
                assert(s0.len() == 0 || s0[0] != '-');
            }
        }
        return None;
    }
    proof {
        assert(sd[0] == c0 && is_digit(c0));
    }
    let start = p;
    let mut acc: i64 = (u0 - 48) as i64;
    p = p + 1;
    proof {
        assert(sd.drop_first() =~= v@.skip(start as int + 1));
        assert(parse_digits(sd, 0, parse_int_bound()) == parse_digits(
            v@.skip(p as int),
            acc as int,
            parse_int_bound(),
        ));
    }
    loop
        invariant
            start < p <= v@.len(),
            i <= start,
            sd == v@.skip(start as int),
            s0 == v@.skip(i as int),
            sd.len() > 0 && is_digit(sd[0]),
            neg ==> s0.len() > 0 && s0[0] == '-' && s0.drop_first() == sd,
            !neg ==> s0 == sd,
            0 <= acc <= 0x8000_0000,
            parse_digits(sd, 0, parse_int_bound()) == parse_digits(
                v@.skip(p as int),
                acc as int,
                parse_int_bound(),
            ),
        ensures
            start < p <= v@.len(),
            0 <= acc <= 0x8000_0000,
            parse_digits(sd, 0, parse_int_bound()) == Some((acc as int, v@.skip(p as int))),
        decreases v@.len() - p,
    {
        let ghost sp = v@.skip(p as int);
        if p >= v.len() {
            proof {
                assert(sp.len() == 0);
                assert(parse_digits(sp, acc as int, parse_int_bound()) == Some((acc as int, sp)));
            }
            break;
        }
        let c = v[p];
        let u = c as u32;
        proof {
            assert(sp[0] == c);
        }
        if !(48 <= u && u <= 57) {
            proof {
                assert(!is_digit(c));
                assert(parse_digits(sp, acc as int, parse_int_bound()) == Some((acc as int, sp)));
            }
            break;
        }
        let a2: i64 = acc * 10 + (u - 48) as i64;
        proof {
            assert(digit_val(c) == u - 48);
        }
        if a2 > 0x8000_0000 {
            proof {
                assert(parse_digits(sp, acc as int, parse_int_bound()) is None);
                assert(parse_int(s0) is None);
            }
            return None;
        }
        proof {
            assert(sp.drop_first() =~= v@.skip(p as int + 1));
        }
        acc = a2;
        p = p + 1;
    }
    proof {
        assert(parse_digits(sd, 0, parse_int_bound()) == Some((acc as int, v@.skip(p as int))));
    }
    if neg {
        if acc > 0x8000_0000 {
            return None;
        }
        let n: i64 = -acc;
        proof {
            assert(parse_int(s0) == Some((n as int, v@.skip(p as int))));
        }
        Some((n as i32, p))
    } else {
        if acc > 0x7fff_ffff {
            return None;
        }
        proof {
            assert(s0 == sd);
            assert(parse_int(s0) == Some((acc as int, v@.skip(p as int))));
        }
        Some((acc as i32, p))
    }
}

/// Parses a JSON integer in the `i64` range starting at position `i`.
pub fn parse_int_wide_at(v: &Vec<char>, i: usize) -> (r: Option<(i64, usize)>)
    requires
        i <= v@.len(),
    ensures
        match r {
            Some(p) => {
                &&& i < p.1 <= v@.len()
                &&& parse_int_wide(v@.skip(i as int)) == Some((p.0 as int, v@.skip(p.1 as int)))
            },
            None => parse_int_wide(v@.skip(i as int)) is None,
        },
{
    let ghost s0 = v@.skip(i as int);
    let neg: bool;
    let mut p: usize;
    if i < v.len() && v[i] == '-' {
        neg = true;
        p = i + 1;
        proof {
            assert(s0[0] == '-');
            assert(s0.drop_first() =~= v@.skip(i as int + 1));
        }
    } else {
        neg = false;
        p = i;
    }
    let ghost sd = v@.skip(p as int);
    if p >= v.len() {
        return None;
    }
    let c0 = v[p];
    let u0 = c0 as u32;
    if !(48 <= u0 && u0 <= 57) {
        proof {
            assert(sd[0] == c0 && !is_digit(c0));
            if !neg {
                assert(s0.len() == 0 || s0[0] != '-');
            }
        }
        return None;
    }
    proof {
        assert(sd[0] == c0 && is_digit(c0));
    }
    let start = p;
    let mut acc: i128 = (u0 - 48) as i128;
    p = p + 1;
    proof {
        assert(sd.drop_first() =~= v@.skip(start as int + 1));
        assert(parse_digits(sd, 0, parse_int_wide_bound()) == parse_digits(
            v@.skip(p as int),
            acc as int,
            parse_int_wide_bound(),
        ));
    }
    loop
        invariant
            start < p <= v@.len(),
            i <= start,
            sd == v@.skip(start as int),
            s0 == v@.skip(i as int),
            sd.len() > 0 && is_digit(sd[0]),
            neg ==> s0.len() > 0 && s0[0] == '-' && s0.drop_first() == sd,
            !neg ==> s0 == sd,
            0 <= acc <= 0x8000_0000_0000_0000,
            parse_digits(sd, 0, parse_int_wide_bound()) == parse_digits(
                v@.skip(p as int),
                acc as int,
                parse_int_wide_bound(),
            ),
        ensures
            start < p <= v@.len(),
            0 <= acc <= 0x8000_0000_0000_0000,
            parse_digits(sd, 0, parse_int_wide_bound()) == Some((acc as int, v@.skip(p as int))),
        decreases v@.len() - p,
    {
        let ghost sp = v@.skip(p as int);
        if p >= v.len() {
            proof {
                assert(sp.len() == 0);
                assert(parse_digits(sp, acc as int, parse_int_wide_bound()) == Some(
                    (acc as int, sp),
                ));
            }
            break;
        }
        let c = v[p];
        let u = c as u32;
        proof {
            assert(sp[0] == c);
        }
        if !(48 <= u && u <= 57) {
            proof {
                assert(!is_digit(c));
                assert(parse_digits(sp, acc as int, parse_int_wide_bound()) == Some(
                    (acc as int, sp),
                ));
            }
            break;
        }
        let a2: i128 = acc * 10 + (u - 48) as i128;
        proof {
            assert(digit_val(c) == u - 48);
        }
        if a2 > 0x8000_0000_0000_0000 {
            proof {
                assert(parse_digits(sp, acc as int, parse_int_wide_bound()) is None);
                assert(parse_int_wide(s0) is None);
            }
            return None;
        }
        proof {
            assert(sp.drop_first() =~= v@.skip(p as int + 1));
        }
        acc = a2;
        p = p + 1;
    }
    proof {
        assert(parse_digits(sd, 0, parse_int_wide_bound()) == Some(
            (acc as int, v@.skip(p as int)),
        ));
    }
    if neg {
        if acc > 0x8000_0000_0000_0000 {
            return None;
        }
        let n: i128 = -acc;
        proof {
            assert(parse_int_wide(s0) == Some((n as int, v@.skip(p as int))));
        }
        Some((n as i64, p))
    } else {
        if acc > 0x7fff_ffff_ffff_ffff {
            return None;
        }
        proof {
            assert(s0 == sd);
            assert(parse_int_wide(s0) == Some((acc as int, v@.skip(p as int))));
        }
        Some((acc as i64, p))
    }
}

/// Appends the decimal form of a non-negative `i64`.
pub fn push_json_i64(out: &mut String, n: i64)
    requires
        n >= 0,
    ensures
        final (out)@ == old(out)@ + enc_int(n as int),
{
    let ghost base = out@;
    let mut m: u64 = n as u64;
    let ghost m0 = m;
    let mut rev: Vec<char> = Vec::new();
    while m >= 10
        invariant
            dec_rep(m0 as int) =~= dec_rep(m as int) + rev@.reverse(),
        decreases m,
    {
        let d = hex_char((m % 10) as u8);
        proof {
            assert(dec_rep(m as int) == dec_rep(m as int / 10).push(digit_char(m as int % 10)));
            assert(rev@.push(d).reverse() =~= seq![d] + rev@.reverse());
            assert(dec_rep(m as int / 10) + rev@.push(d).reverse() =~= dec_rep(m as int)
                + rev@.reverse());
        }
        rev.push(d);
        m = m / 10;
    }
    out.push(hex_char((m % 10) as u8));
    proof {
        assert(digit_char(m as int) == digit_char(m as int % 10));
        assert(dec_rep(m as int) =~= seq![digit_char(m as int % 10)]);
    }
    let k = rev.len();
    let mut j: usize = 0;
    while j < k
        invariant
            k == rev.len(),
            j <= k,
            dec_rep(m0 as int).len() == 1 + k,
            dec_rep(m0 as int) =~= seq![dec_rep(m0 as int)[0]] + rev@.reverse(),
            out@ == base + dec_rep(m0 as int).take(1 + j as int),
        decreases k - j,
    {
        proof {
            assert(dec_rep(m0 as int)[1 + j as int] == rev@.reverse()[j as int]);
            assert(rev@.reverse()[j as int] == rev@[k - 1 - j as int]);
            assert(dec_rep(m0 as int).take(1 + j as int).push(rev@[k - 1 - j as int])
                =~= dec_rep(m0 as int).take(1 + j as int + 1));
        }
        out.push(rev[k - 1 - j]);
        j = j + 1;
    }
    proof {
        assert(dec_rep(m0 as int).take(1 + k as int) =~= dec_rep(m0 as int));
        assert(out@ =~= base + enc_int(n as int));
    }
}

/// Consumes the exact text `lit` at position `i`.
pub fn expect_at(v: &Vec<char>, i: usize, lit: &str) -> (r: Option<usize>)
    requires
        i <= v@.len(),
    ensures
        match r {
            Some(j) => {
                &&& i <= j <= v@.len()
                &&& j - i == lit@.len()
                &&& parse_exact(v@.skip(i as int), lit@) == Some(v@.skip(j as int))
            },
            None => parse_exact(v@.skip(i as int), lit@) is None,
        },
{
    let ghost s = v@.skip(i as int);
    let lc = chars_of(lit);
    let n = lc.len();
    if n > v.len() - i {
        proof {
            assert(lit@.len() > s.len());
        }
        return None;
    }
    let vn = v.len();
    let mut k: usize = 0;
    while k < n
        invariant
            k <= n,
            n == lc.len(),
            lc@ == lit@,
            vn == v@.len(),
            i + n <= vn,
            s == v@.skip(i as int),
            forall|q: int| 0 <= q < k ==> s[q] == lit@[q],
        decreases n - k,
    {
        if v[i + k] != lc[k] {
            proof {
                assert(s[k as int] != lit@[k as int]);
                if s.take(lit@.len() as int) == lit@ {
                    assert(s.take(lit@.len() as int)[k as int] == lit@[k as int]);
                }
            }
            return None;
        }
        proof {
            assert(s[k as int] == v@[i + k]);
        }
        k = k + 1;
    }
    proof {
        assert(s.take(lit@.len() as int) =~= lit@);
    }
    Some(i + n)
}

/// A two-field record of strings: `l1` and `l2` are the exact key texts, the
/// first including the opening brace (`{"name":`), the second the separating
/// comma (`,"level":`).
pub open spec fn enc_obj2(
    l1: Seq<char>, v1: Seq<char>,
    l2: Seq<char>, v2: Seq<char>,
) -> Seq<char> {
    l1 + enc_string(v1) + l2 + enc_string(v2) + seq!['}']
}

pub open spec fn parse_obj2(s: Seq<char>, l1: Seq<char>, l2: Seq<char>) -> Option<
    ((Seq<char>, Seq<char>), Seq<char>),
> {
    match parse_exact(s, l1) {
        None => None,
        Some(r1) => match parse_string(r1) {
            None => None,
            Some((v1, r2)) => match parse_exact(r2, l2) {
                None => None,
                Some(r3) => match parse_string(r3) {
                    None => None,
                    Some((v2, r4)) => match parse_exact(r4, seq!['}']) {
                        None => None,
                        Some(r5) => Some(((v1, v2), r5)),
                    },
                },
            },
        },
    }
}

/// A three-field record of strings, keys given as in [`enc_obj2`].
pub open spec fn enc_obj3(
    l1: Seq<char>, v1: Seq<char>,
    l2: Seq<char>, v2: Seq<char>,
    l3: Seq<char>, v3: Seq<char>,
) -> Seq<char> {
    l1 + enc_string(v1) + l2 + enc_string(v2) + l3 + enc_string(v3) + seq!['}']
}

pub open spec fn parse_obj3(s: Seq<char>, l1: Seq<char>, l2: Seq<char>, l3: Seq<char>) -> Option<
    ((Seq<char>, Seq<char>, Seq<char>), Seq<char>),
> {
    match parse_exact(s, l1) {
        None => None,
        Some(r1) => match parse_string(r1) {
            None => None,
            Some((v1, r2)) => match parse_exact(r2, l2) {
                None => None,
                Some(r3) => match parse_string(r3) {
                    None => None,
                    Some((v2, r4)) => match parse_exact(r4, l3) {
                        None => None,
                        Some(r5) => match parse_string(r5) {
                            None => None,
                            Some((v3, r6)) => match parse_exact(r6, seq!['}']) {
                                None => None,
                                Some(r7) => Some(((v1, v2, v3), r7)),
                            },
                        },
                    },
                },
            },
        },
    }
}

/// A record of one string field and one integer field, keys given as in
/// [`enc_obj2`].
pub open spec fn enc_obj_str_int(
    l1: Seq<char>, v1: Seq<char>,
    l2: Seq<char>, n: int,
) -> Seq<char> {
    l1 + enc_string(v1) + l2 + enc_int(n) + seq!['}']
}

pub open spec fn parse_obj_str_int(s: Seq<char>, l1: Seq<char>, l2: Seq<char>) -> Option<
    ((Seq<char>, int), Seq<char>),
> {
    match parse_exact(s, l1) {
        None => None,
        Some(r1) => match parse_string(r1) {
            None => None,
            Some((v1, r2)) => match parse_exact(r2, l2) {
                None => None,
                Some(r3) => match parse_int(r3) {
                    None => None,
                    Some((n, r4)) => match parse_exact(r4, seq!['}']) {
                        None => None,
                        Some(r5) => Some(((v1, n), r5)),
                    },
                },
            },
        },
    }
}

pub proof fn lemma_parse_obj2_inverts(
    l1: Seq<char>, v1: Seq<char>, l2: Seq<char>, v2: Seq<char>, rest: Seq<char>,
)
    ensures
        parse_obj2(enc_obj2(l1, v1, l2, v2) + rest, l1, l2) == Some(((v1, v2), rest)),
{
    let s = enc_obj2(l1, v1, l2, v2) + rest;
    let t1 = enc_string(v1) + l2 + enc_string(v2) + seq!['}'] + rest;
    assert(s =~= l1 + t1);
    lemma_parse_exact_inverts(l1, t1);
    let t2 = l2 + enc_string(v2) + seq!['}'] + rest;
    assert(t1 =~= enc_string(v1) + t2);
    lemma_parse_string_inverts(v1, t2);
    let t3 = enc_string(v2) + seq!['}'] + rest;
    assert(t2 =~= l2 + t3);
    lemma_parse_exact_inverts(l2, t3);
    let t4 = seq!['}'] + rest;
    assert(t3 =~= enc_string(v2) + t4);
    lemma_parse_string_inverts(v2, t4);
    lemma_parse_exact_inverts(seq!['}'], rest);
    assert(t4 =~= seq!['}'] + rest);
}

#[verifier::rlimit(60)]
pub proof fn lemma_parse_obj3_inverts(
    l1: Seq<char>, v1: Seq<char>, l2: Seq<char>, v2: Seq<char>, l3: Seq<char>, v3: Seq<char>,
    rest: Seq<char>,
)
    ensures
        parse_obj3(enc_obj3(l1, v1, l2, v2, l3, v3) + rest, l1, l2, l3) == Some(
            ((v1, v2, v3), rest),
        ),
{
    let s = enc_obj3(l1, v1, l2, v2, l3, v3) + rest;
    let t1 = enc_string(v1) + l2 + enc_string(v2) + l3 + enc_string(v3) + seq!['}'] + rest;
    assert(s =~= l1 + t1);
    lemma_parse_exact_inverts(l1, t1);
    let t2 = l2 + enc_string(v2) + l3 + enc_string(v3) + seq!['}'] + rest;
    assert(t1 =~= enc_string(v1) + t2);
    lemma_parse_string_inverts(v1, t2);
    let t3 = enc_string(v2) + l3 + enc_string(v3) + seq!['}'] + rest;
    assert(t2 =~= l2 + t3);
    lemma_parse_exact_inverts(l2, t3);
    let t4 = l3 + enc_string(v3) + seq!['}'] + rest;
    assert(t3 =~= enc_string(v2) + t4);
    lemma_parse_string_inverts(v2, t4);
    let t5 = enc_string(v3) + seq!['}'] + rest;
    assert(t4 =~= l3 + t5);
    lemma_parse_exact_inverts(l3, t5);
    let t6 = seq!['}'] + rest;
    assert(t5 =~= enc_string(v3) + t6);
    lemma_parse_string_inverts(v3, t6);
    lemma_parse_exact_inverts(seq!['}'], rest);
    assert(t6 =~= seq!['}'] + rest);
}

#[verifier::rlimit(60)]
pub proof fn lemma_parse_obj_str_int_inverts(
    l1: Seq<char>, v1: Seq<char>, l2: Seq<char>, n: int, rest: Seq<char>,
)
    requires
        -0x8000_0000 <= n <= 0x7fff_ffff,
    ensures
        parse_obj_str_int(enc_obj_str_int(l1, v1, l2, n) + rest, l1, l2) == Some(((v1, n), rest)),
{
    let s = enc_obj_str_int(l1, v1, l2, n) + rest;
    let t1 = enc_string(v1) + l2 + enc_int(n) + seq!['}'] + rest;
    assert(s =~= l1 + t1);
    lemma_parse_exact_inverts(l1, t1);
    let t2 = l2 + enc_int(n) + seq!['}'] + rest;
    assert(t1 =~= enc_string(v1) + t2);
    lemma_parse_string_inverts(v1, t2);
    let t3 = enc_int(n) + seq!['}'] + rest;
    assert(t2 =~= l2 + t3);
    lemma_parse_exact_inverts(l2, t3);
    let t4 = seq!['}'] + rest;
    assert(t3 =~= enc_int(n) + t4);
    assert(t4.len() > 0 && !is_digit(t4[0]));
    lemma_parse_int_inverts(n, t4);
    lemma_parse_exact_inverts(seq!['}'], rest);
    assert(t4 =~= seq!['}'] + rest);
}

/// A successful record parse consumes at least one character.
pub proof fn lemma_parse_obj2_shrinks(s: Seq<char>, l1: Seq<char>, l2: Seq<char>)
    ensures
        parse_obj2(s, l1, l2) matches Some(p) ==> p.1.len() < s.len(),
{
    if let Some(r1) = parse_exact(s, l1) {
        lemma_parse_string_shrinks(r1);
        if let Some((v1, r2)) = parse_string(r1) {
            if let Some(r3) = parse_exact(r2, l2) {
                lemma_parse_string_shrinks(r3);
            }
        }
    }
}

pub proof fn lemma_parse_obj3_shrinks(s: Seq<char>, l1: Seq<char>, l2: Seq<char>, l3: Seq<char>)
    ensures
        parse_obj3(s, l1, l2, l3) matches Some(p) ==> p.1.len() < s.len(),
{
    if let Some(r1) = parse_exact(s, l1) {
        lemma_parse_string_shrinks(r1);
        if let Some((v1, r2)) = parse_string(r1) {
            if let Some(r3) = parse_exact(r2, l2) {
                lemma_parse_string_shrinks(r3);
                if let Some((v2, r4)) = parse_string(r3) {
                    if let Some(r5) = parse_exact(r4, l3) {
                        lemma_parse_string_shrinks(r5);
                    }
                }
            }
        }
    }
}

pub proof fn lemma_parse_digits_len(s: Seq<char>, acc: int, bound: int)
    ensures
        parse_digits(s, acc, bound) matches Some(p) ==> p.1.len() <= s.len(),
    decreases s.len(),
{
    if s.len() > 0 && is_digit(s[0]) {
        let a2 = acc * 10 + digit_val(s[0]);
        if a2 <= bound {
            lemma_parse_digits_len(s.drop_first(), a2, bound);
        }
    }
}

pub proof fn lemma_parse_int_len(s: Seq<char>)
    ensures
        parse_int(s) matches Some(p) ==> p.1.len() <= s.len(),
{
    if s.len() > 0 && s[0] == '-' {
        lemma_parse_digits_len(s.drop_first(), 0, parse_int_bound());
    } else if s.len() > 0 && is_digit(s[0]) {
        lemma_parse_digits_len(s, 0, parse_int_bound());
    }
}

pub proof fn lemma_parse_obj_str_int_shrinks(s: Seq<char>, l1: Seq<char>, l2: Seq<char>)
    ensures
        parse_obj_str_int(s, l1, l2) matches Some(p) ==> p.1.len() < s.len(),
{
    if let Some(r1) = parse_exact(s, l1) {
        lemma_parse_string_shrinks(r1);
        if let Some((v1, r2)) = parse_string(r1) {
            if let Some(r3) = parse_exact(r2, l2) {
                lemma_parse_int_len(r3);
            }
        }
    }
}

/// Parses a two-string-field record at position `i`.
pub fn parse_obj2_at(v: &Vec<char>, i: usize, l1: &str, l2: &str) -> (r: Option<
    ((String, String), usize),
>)
    requires
        i <= v@.len(),
    ensures
        match r {
            Some(p) => {
                &&& i <= p.1 <= v@.len()
                &&& parse_obj2(v@.skip(i as int), l1@, l2@) == Some(
                    (((p.0).0@, (p.0).1@), v@.skip(p.1 as int)),
                )
            },
            None => parse_obj2(v@.skip(i as int), l1@, l2@) is None,
        },
{
    let j1 = match expect_at(v, i, l1) {
        Some(j) => j,
        None => { return None; },
    };
    let (s1, j2) = match parse_string_at(v, j1) {
        Some(p) => p,
        None => { return None; },
    };
    let j3 = match expect_at(v, j2, l2) {
        Some(j) => j,
        None => { return None; },
    };
    let (s2, j4) = match parse_string_at(v, j3) {
        Some(p) => p,
        None => { return None; },
    };
    proof {
        reveal_strlit("}");
        assert("}"@ =~= seq!['}']);
    }
    let j5 = match expect_at(v, j4, "}") {
        Some(j) => j,
        None => { return None; },
    };
    Some(((s1, s2), j5))
}

/// Parses a three-string-field record at position `i`.
pub fn parse_obj3_at(v: &Vec<char>, i: usize, l1: &str, l2: &str, l3: &str) -> (r: Option<
    ((String, String, String), usize),
>)
    requires
        i <= v@.len(),
    ensures
        match r {
            Some(p) => {
                &&& i <= p.1 <= v@.len()
                &&& parse_obj3(v@.skip(i as int), l1@, l2@, l3@) == Some(
                    (((p.0).0@, (p.0).1@, (p.0).2@), v@.skip(p.1 as int)),
                )
            },
            None => parse_obj3(v@.skip(i as int), l1@, l2@, l3@) is None,
        },
{
    let j1 = match expect_at(v, i, l1) {
        Some(j) => j,
        None => { return None; },
    };
    let (s1, j2) = match parse_string_at(v, j1) {
        Some(p) => p,
        None => { return None; },
    };
    let j3 = match expect_at(v, j2, l2) {
        Some(j) => j,
        None => { return None; },
    };
    let (s2, j4) = match parse_string_at(v, j3) {
        Some(p) => p,
        None => { return None; },
    };
    let j5 = match expect_at(v, j4, l3) {
        Some(j) => j,
        None => { return None; },
    };
    let (s3, j6) = match parse_string_at(v, j5) {
        Some(p) => p,
        None => { return None; },
    };
    proof {
        reveal_strlit("}");
        assert("}"@ =~= seq!['}']);
    }
    let j7 = match expect_at(v, j6, "}") {
        Some(j) => j,
        None => { return None; },
    };
    Some(((s1, s2, s3), j7))
}

/// Parses a string-and-integer record at position `i`.
pub fn parse_obj_str_int_at(v: &Vec<char>, i: usize, l1: &str, l2: &str) -> (r: Option<
    ((String, i32), usize),
>)
    requires
        i <= v@.len(),
    ensures
        match r {
            Some(p) => {
                &&& i <= p.1 <= v@.len()
                &&& parse_obj_str_int(v@.skip(i as int), l1@, l2@) == Some(
                    (((p.0).0@, (p.0).1 as int), v@.skip(p.1 as int)),
                )
            },
            None => parse_obj_str_int(v@.skip(i as int), l1@, l2@) is None,
        },
{
    let j1 = match expect_at(v, i, l1) {
        Some(j) => j,
        None => { return None; },
    };
    let (s1, j2) = match parse_string_at(v, j1) {
        Some(p) => p,
        None => { return None; },
    };
    let j3 = match expect_at(v, j2, l2) {
        Some(j) => j,
        None => { return None; },
    };
    let (n, j4) = match parse_int_at(v, j3) {
        Some(p) => p,
        None => { return None; },
    };
    proof {
        reveal_strlit("}");
        assert("}"@ =~= seq!['}']);
    }
    let j5 = match expect_at(v, j4, "}") {
        Some(j) => j,
        None => { return None; },
    };
    Some(((s1, n), j5))
}

} // verus!
