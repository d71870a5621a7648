//! Number text: the syntax `str::parse` accepts for `u64` and for `f64`,
//! and byte counts written with thousands separators.
//!
//! The grammars are the ones the standard library documents: an unsigned
//! integer is an optional `+` followed by decimal digits whose value fits;
//! a float is, once lowercased,
//! `Sign? ( 'inf' | 'infinity' | 'nan' | Number )` with
//! `Number ::= ( Digit+ | Digit+ '.' Digit* | Digit* '.' Digit+ ) Exp?` and
//! `Exp ::= 'e' Sign? Digit+`.

use vstd::prelude::*;
use crate::paths::{eq_ignore_ascii_case, eq_ignore_ascii_case_chars};
use crate::text::{chars_of, sub_chars};

verus! {

/// Whether `c` is a decimal digit.
pub open spec fn is_digit(c: char) -> bool {
    '0' <= c && c <= '9'
}

/// Whether every character of `s` is a decimal digit.
pub open spec fn all_digits(s: Seq<char>) -> bool {
    forall|i: int| 0 <= i < s.len() ==> is_digit(#[trigger] s[i])
}

/// The value of a decimal digit character.
pub open spec fn digit_value(c: char) -> nat {
    (c as int - '0' as int) as nat
}

/// The value of a string of decimal digits.
pub open spec fn digits_value(s: Seq<char>) -> nat
    decreases s.len(),
{
    if s.len() == 0 {
        0
    } else {
        digits_value(s.drop_last()) * 10 + digit_value(s.last())
    }
}

/// What `str::parse::<u64>` returns for `s`: the value of an optional `+`
/// followed by one or more decimal digits, when it fits in a `u64`.
pub open spec fn u64_of(s: Seq<char>) -> Option<u64> {
    let body = if s.len() > 0 && s[0] == '+' { s.drop_first() } else { s };
    if body.len() > 0 && all_digits(body) && digits_value(body) <= u64::MAX {
        Some(digits_value(body) as u64)
    } else {
        None
    }
}

/// `s` with every `,` removed.
pub open spec fn strip_commas(s: Seq<char>) -> Seq<char>
    decreases s.len(),
{
    if s.len() == 0 {
        Seq::empty()
    } else if s.last() == ',' {
        strip_commas(s.drop_last())
    } else {
        strip_commas(s.drop_last()).push(s.last())
    }
}

/// The byte count written in `s`, which may hold thousands separators.
pub open spec fn bytes_of_text(s: Seq<char>) -> Option<u64> {
    u64_of(strip_commas(s))
}

/// The value of the digits of a prefix never exceeds that of the whole.
proof fn lemma_digits_prefix(s: Seq<char>, k: int)
    requires
        0 <= k <= s.len(),
    ensures
        digits_value(s.take(k)) <= digits_value(s),
    decreases s.len() - k,
{
    if k < s.len() {
        lemma_digits_prefix(s.drop_last(), k);
        assert(s.drop_last().take(k) =~= s.take(k));
    } else {
        assert(s.take(k) =~= s);
    }
}

/// What `str::parse::<u64>` returns, computed over the characters.
pub fn parse_u64(s: &[char]) -> (r: Option<u64>)
    ensures
        r == u64_of(s@),
{
    let start: usize = if s.len() > 0 && s[0] == '+' { 1 } else { 0 };
    let ghost body = if s@.len() > 0 && s@[0] == '+' { s@.drop_first() } else { s@ };
    assert(body =~= s@.skip(start as int));
    if start >= s.len() {
        return None;
    }
    let mut v: u64 = 0;
    let mut i: usize = start;
    while i < s.len()
        invariant
            start <= i <= s.len(),
            start < s.len(),
            body == s@.skip(start as int),
            body == (if s@.len() > 0 && s@[0] == '+' { s@.drop_first() } else { s@ }),
            all_digits(s@.subrange(start as int, i as int)),
            v == digits_value(s@.subrange(start as int, i as int)),
        decreases s.len() - i,
    {
        let c = s[i];
        let ghost pre = s@.subrange(start as int, i as int);
        let ghost next = s@.subrange(start as int, i as int + 1);
        assert(next.drop_last() =~= pre);
        assert(body[i - start] == c);
        if !('0' <= c && c <= '9') {
            assert(!is_digit(body[i - start]));
            assert(!all_digits(body));
            return None;
        }
        assert(next.last() == c);
        let d: u64 = (c as u32 - '0' as u32) as u64;
        assert(d == digit_value(c));
        if v > (u64::MAX - d) / 10 {
            proof {
                assert(v * 10 + d > u64::MAX) by (nonlinear_arith)
                    requires
                        v > (u64::MAX - d) / 10,
                        d <= 9,
                ;
                assert(next =~= body.take(i - start + 1));
                assert(digits_value(next) == v * 10 + d);
                lemma_digits_prefix(body, i - start + 1);
            }
            return None;
        }
        assert(v * 10 + d <= u64::MAX) by (nonlinear_arith)
            requires
                v <= (u64::MAX - d) / 10,
                d <= 9,
        ;
        v = v * 10 + d;
        i += 1;
        assert(all_digits(s@.subrange(start as int, i as int))) by {
            assert forall|j: int| 0 <= j < next.len() implies is_digit(#[trigger] next[j]) by {
                if j < pre.len() {
                    assert(next[j] == pre[j]);
                }
            }
        }
    }
    assert(s@.subrange(start as int, s.len() as int) =~= body);
    Some(v)
}

/// `s` with every `,` removed, computed over the characters.
pub fn strip_commas_chars(s: &[char]) -> (r: Vec<char>)
    ensures
        r@ == strip_commas(s@),
{
    let mut r: Vec<char> = Vec::new();
    let mut i: usize = 0;
    while i < s.len()
        invariant
            i <= s.len(),
            r@ == strip_commas(s@.take(i as int)),
        decreases s.len() - i,
    {
        assert(s@.take(i as int + 1).drop_last() =~= s@.take(i as int));
        if s[i] != ',' {
            r.push(s[i]);
        }
        i += 1;
    }
    assert(s@.take(s.len() as int) =~= s@);
    r
}

/// Parses a byte count that may include thousands separators, such as
/// `7,423,077,535`.
pub fn parse_bytes(raw: &[char]) -> (r: Option<u64>)
    ensures
        r == bytes_of_text(raw@),
{
    let plain = strip_commas_chars(raw);
    parse_u64(&plain)
}

/// Whether `c` is a sign.
pub open spec fn is_sign(c: char) -> bool {
    c == '+' || c == '-'
}

/// `s` without one leading sign.
pub open spec fn unsigned_part(s: Seq<char>) -> Seq<char> {
    if s.len() > 0 && is_sign(s[0]) { s.drop_first() } else { s }
}

/// The mantissa of a float: digits with at most one `.`, and at least one
/// digit.
pub open spec fn mantissa_syntax(t: Seq<char>) -> bool {
    ||| t.len() > 0 && all_digits(t)
    ||| exists|d: int|
        0 <= d < t.len() && t[d] == '.' && all_digits(t.take(d)) && all_digits(t.skip(d + 1))
            && t.len() >= 2
}

/// Whether `c` marks an exponent.
pub open spec fn is_exp_marker(c: char) -> bool {
    c == 'e' || c == 'E'
}

/// The exponent of a float: a marker, an optional sign, and digits.
pub open spec fn exponent_syntax(e: Seq<char>) -> bool {
    &&& e.len() > 0
    &&& is_exp_marker(e[0])
    &&& unsigned_part(e.drop_first()).len() > 0
    &&& all_digits(unsigned_part(e.drop_first()))
}

/// An unsigned finite float: a mantissa and an optional exponent.
pub open spec fn number_syntax(b: Seq<char>) -> bool {
    exists|k: int|
        0 <= k <= b.len() && mantissa_syntax(b.take(k)) && (k == b.len() || exponent_syntax(b.skip(k)))
}

/// Whether `str::parse::<f64>` accepts `s`.
pub open spec fn float_syntax(s: Seq<char>) -> bool {
    let b = unsigned_part(s);
    ||| eq_ignore_ascii_case(b, "inf"@)
    ||| eq_ignore_ascii_case(b, "infinity"@)
    ||| eq_ignore_ascii_case(b, "nan"@)
    ||| number_syntax(b)
}

/// Whether every character of `s[start..end]` is a digit.
fn digits_in(s: &[char], start: usize, end: usize) -> (r: bool)
    requires
        start <= end <= s.len(),
    ensures
        r == all_digits(s@.subrange(start as int, end as int)),
{
    let mut i = start;
    while i < end
        invariant
            start <= i <= end <= s.len(),
            all_digits(s@.subrange(start as int, i as int)),
        decreases end - i,
    {
        if !('0' <= s[i] && s[i] <= '9') {
            assert(s@.subrange(start as int, end as int)[i - start] == s@[i as int]);
            return false;
        }
        i += 1;
        assert(all_digits(s@.subrange(start as int, i as int))) by {
            let sub = s@.subrange(start as int, i as int);
            assert forall|j: int| 0 <= j < sub.len() implies is_digit(#[trigger] sub[j]) by {
                assert(sub[j] == s@[start + j]);
                if j < sub.len() - 1 {
                    assert(s@.subrange(start as int, i - 1)[j] == s@[start + j]);
                }
            }
        }
    }
    true
}

/// Whether `t` is the mantissa of a float.
fn mantissa_ok(t: &[char]) -> (r: bool)
    ensures
        r == mantissa_syntax(t@),
{
    let mut d: usize = 0;
    while d < t.len() && t[d] != '.'
        invariant
            d <= t.len(),
            forall|j: int| 0 <= j < d ==> t@[j] != '.',
        decreases t.len() - d,
    {
        d += 1;
    }
    if d == t.len() {
        assert(t@.subrange(0, t.len() as int) =~= t@);
        let all = digits_in(t, 0, t.len());
        proof {
            assert forall|e: int| 0 <= e < t@.len() implies t@[e] != '.' by {}
        }
        t.len() > 0 && all
    } else {
        assert(t@[d as int] == '.');
        assert(!is_digit(t@[d as int]));
        let a = digits_in(t, 0, d);
        let b = digits_in(t, d + 1, t.len());
        assert(t@.subrange(0, d as int) =~= t@.take(d as int));
        assert(t@.subrange(d as int + 1, t.len() as int) =~= t@.skip(d as int + 1));
        proof {
            if exists|e: int|
                0 <= e < t@.len() && t@[e] == '.' && all_digits(t@.take(e)) && all_digits(t@.skip(e + 1))
                    && t@.len() >= 2
            {
                let e = choose|e: int|
                    0 <= e < t@.len() && t@[e] == '.' && all_digits(t@.take(e)) && all_digits(t@.skip(e + 1))
                        && t@.len() >= 2;
                if e > d {
                    assert(t@.take(e)[d as int] == t@[d as int]);
                }
                assert(e == d);
            }
        }
        a && b && t.len() >= 2
    }
}

/// Whether `e` is the exponent of a float.
fn exponent_ok(e: &[char]) -> (r: bool)
    ensures
        r == exponent_syntax(e@),
{
    if e.len() == 0 || !(e[0] == 'e' || e[0] == 'E') {
        return false;
    }
    let start: usize = if e.len() > 1 && (e[1] == '+' || e[1] == '-') { 2 } else { 1 };
    assert(unsigned_part(e@.drop_first()) =~= e@.subrange(start as int, e.len() as int));
    start < e.len() && digits_in(e, start, e.len())
}

/// Whether `b` is an unsigned finite float.
fn number_ok(b: &[char]) -> (r: bool)
    ensures
        r == number_syntax(b@),
{
    let mut k: usize = 0;
    while k < b.len() && !(b[k] == 'e' || b[k] == 'E')
        invariant
            k <= b.len(),
            forall|j: int| 0 <= j < k ==> !is_exp_marker(b@[j]),
        decreases b.len() - k,
    {
        k += 1;
    }
    let head = sub_chars(b, 0, k);
    let tail = sub_chars(b, k, b.len());
    assert(head@ =~= b@.take(k as int));
    assert(tail@ =~= b@.skip(k as int));
    let m = mantissa_ok(&head);
    let x = k == b.len() || exponent_ok(&tail);
    proof {
        if number_syntax(b@) {
            let w = choose|w: int|
                0 <= w <= b@.len() && mantissa_syntax(b@.take(w)) && (w == b@.len() || exponent_syntax(b@.skip(w)));
            if w < k {
                assert(b@.skip(w)[0] == b@[w]);
            } else if w > k {
                let t = b@.take(w);
                assert(t[k as int] == b@[k as int]);
                assert(is_exp_marker(t[k as int]));
                if t.len() > 0 && all_digits(t) {
                    assert(is_digit(t[k as int]));
                } else {
                    let d = choose|d: int|
                        0 <= d < t.len() && t[d] == '.' && all_digits(t.take(d)) && all_digits(t.skip(d + 1))
                            && t.len() >= 2;
                    if k < d {
                        assert(t.take(d)[k as int] == t[k as int]);
                    } else if k > d {
                        assert(t.skip(d + 1)[k - d - 1] == t[k as int]);
                    }
                }
            }
            assert(w == k);
        }
    }
    m && x
}

/// Whether `str::parse::<f64>` accepts the characters `s`.
pub fn is_float_text(s: &[char]) -> (r: bool)
    ensures
        r == float_syntax(s@),
{
    let start: usize = if s.len() > 0 && (s[0] == '+' || s[0] == '-') { 1 } else { 0 };
    let b = sub_chars(s, start, s.len());
    assert(b@ =~= unsigned_part(s@));
    let inf = chars_of("inf");
    let infinity = chars_of("infinity");
    let nan = chars_of("nan");
    eq_ignore_ascii_case_chars(&b, &inf) || eq_ignore_ascii_case_chars(&b, &infinity)
        || eq_ignore_ascii_case_chars(&b, &nan) || number_ok(&b)
}

/// Dropping the commas of a concatenation drops them from each part.
proof fn lemma_strip_commas_concat(a: Seq<char>, b: Seq<char>)
    ensures
        strip_commas(a + b) == strip_commas(a) + strip_commas(b),
    decreases b.len(),
{
    if b.len() == 0 {
        assert(a + b =~= a);
        assert(strip_commas(a) + Seq::<char>::empty() =~= strip_commas(a));
    } else {
        lemma_strip_commas_concat(a, b.drop_last());
        assert((a + b).drop_last() =~= a + b.drop_last());
        assert((a + b).last() == b.last());
        if b.last() != ',' {
            assert(strip_commas(a) + strip_commas(b.drop_last()).push(b.last())
                =~= (strip_commas(a) + strip_commas(b.drop_last())).push(b.last()));
        }
    }
}

/// Thousands separators do not change a byte count: a `,` anywhere in the
/// text is ignored, so `1,234` reads as `1234`.
pub proof fn lemma_commas_ignored(a: Seq<char>, b: Seq<char>)
    ensures
        bytes_of_text(a + seq![','] + b) == bytes_of_text(a + b),
{
    lemma_strip_commas_concat(a + seq![','], b);
    lemma_strip_commas_concat(a, seq![',']);
    lemma_strip_commas_concat(a, b);
    let comma: Seq<char> = seq![','];
    assert(comma.len() == 1 && comma.last() == ',');
    assert(comma.drop_last() =~= Seq::<char>::empty());
    assert(strip_commas(Seq::<char>::empty()) =~= Seq::<char>::empty());
    assert(strip_commas(comma) == strip_commas(comma.drop_last()));
    assert(strip_commas(comma) =~= Seq::<char>::empty());
    assert(strip_commas(a) + Seq::<char>::empty() =~= strip_commas(a));
}

/// One more digit multiplies a digit string's value by ten and adds the
/// digit's value.
pub proof fn lemma_digit_appended(s: Seq<char>, c: char)
    requires
        is_digit(c),
    ensures
        digits_value(s.push(c)) == 10 * digits_value(s) + (c as int - '0' as int),
        0 <= c as int - '0' as int <= 9,
{
    assert(s.push(c).drop_last() =~= s);
}

} // verus!
