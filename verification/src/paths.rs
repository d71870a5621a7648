//! Path text helpers: joining, trailing slashes, and file extensions.
//!
//! Paths are handled as the characters of their text. The rules follow
//! `std::path` on Unix for the shapes this library builds: joining a relative
//! component adds one `/` unless the base is empty or already ends in `/`,
//! and an absolute component replaces the base.

use vstd::prelude::*;
use crate::text::{chars_of, extend_chars, string_of, sub_chars};

verus! {

/// `base` joined with `comp`, as `PathBuf::push` does it on Unix.
pub open spec fn join(base: Seq<char>, comp: Seq<char>) -> Seq<char> {
    if comp.len() > 0 && comp[0] == '/' {
        comp
    } else if base.len() == 0 {
        comp
    } else if base.last() == '/' {
        base + comp
    } else {
        base + seq!['/'] + comp
    }
}

/// Executable [`join`].
pub fn join_chars(base: &[char], comp: &[char]) -> (r: Vec<char>)
    ensures
        r@ == join(base@, comp@),
{
    let mut r: Vec<char> = Vec::new();
    if comp.len() > 0 && comp[0] == '/' {
        extend_chars(&mut r, comp);
    } else if base.len() == 0 {
        extend_chars(&mut r, comp);
    } else if base[base.len() - 1] == '/' {
        extend_chars(&mut r, base);
        extend_chars(&mut r, comp);
    } else {
        extend_chars(&mut r, base);
        r.push('/');
        extend_chars(&mut r, comp);
    }
    r
}

/// `base` joined with `comp`, as strings.
pub fn join_str(base: &str, comp: &str) -> (r: String)
    ensures
        r@ == join(base@, comp@),
{
    let b = chars_of(base);
    let c = chars_of(comp);
    let j = join_chars(&b, &c);
    string_of(&j)
}

/// Whether `s` contains the character `c`.
pub open spec fn has_char(s: Seq<char>, c: char) -> bool {
    exists|i: int| 0 <= i < s.len() && s[i] == c
}

/// The index of the last `.` in `s`, if any.
pub open spec fn last_dot(s: Seq<char>) -> Option<int> {
    if has_char(s, '.') {
        Some(choose|i: int| 0 <= i < s.len() && s[i] == '.' && forall|j: int| i < j < s.len() ==> s[j] != '.')
    } else {
        None
    }
}

/// The extension of a file name, as `Path::extension` reports it: the text
/// after the last dot, unless there is no dot, the only dot leads the name,
/// or the name is `..`.
pub open spec fn extension(name: Seq<char>) -> Option<Seq<char>> {
    if name == seq!['.', '.'] {
        None
    } else {
        match last_dot(name) {
            Some(k) => if k == 0 { None } else { Some(name.skip(k + 1)) },
            None => None,
        }
    }
}

/// Executable [`extension`].
pub fn extension_chars(name: &[char]) -> (r: Option<Vec<char>>)
    ensures
        r matches Some(e) ==> extension(name@) == Some(e@),
        r is None ==> extension(name@) is None,
{
    if name.len() == 2 && name[0] == '.' && name[1] == '.' {
        assert(name@ == seq!['.', '.']);
        return None;
    }
    let mut i: usize = name.len();
    while i > 0 && name[i - 1] != '.'
        invariant
            i <= name.len(),
            forall|j: int| i <= j < name.len() ==> name@[j] != '.',
        decreases i,
    {
        i -= 1;
    }
    if i == 0 {
        assert(!has_char(name@, '.'));
        None
    } else {
        let k = i - 1;
        proof {
            assert(has_char(name@, '.')) by {
                assert(name@[k as int] == '.');
            }
            let w = choose|m: int| 0 <= m < name@.len() && name@[m] == '.' && forall|j: int| m < j < name@.len() ==> name@[j] != '.';
            if w < k {
                assert(name@[k as int] == '.');
            }
            if w > k {
                assert(name@[w] == '.');
            }
            assert(w == k);
        }
        if k == 0 {
            None
        } else {
            Some(sub_chars(name, k + 1, name.len()))
        }
    }
}

/// `c` in lower case when it is an ASCII upper-case letter.
pub open spec fn ascii_lower(c: char) -> char {
    if 'A' <= c && c <= 'Z' {
        ((c as u32) + 32) as char
    } else {
        c
    }
}

/// Whether two texts are equal when ASCII letters are compared without
/// regard to case (`str::eq_ignore_ascii_case`).
pub open spec fn eq_ignore_ascii_case(a: Seq<char>, b: Seq<char>) -> bool {
    a.len() == b.len() && forall|i: int| 0 <= i < a.len() ==> ascii_lower(a[i]) == ascii_lower(b[i])
}

fn char_lower(c: char) -> (r: u32)
    ensures
        r == ascii_lower(c) as u32,
{
    if 'A' <= c && c <= 'Z' {
        (c as u32) + 32
    } else {
        c as u32
    }
}

/// Executable [`eq_ignore_ascii_case`].
pub fn eq_ignore_ascii_case_chars(a: &[char], b: &[char]) -> (r: bool)
    ensures
        r == eq_ignore_ascii_case(a@, b@),
{
    if a.len() != b.len() {
        return false;
    }
    let mut i: usize = 0;
    while i < a.len()
        invariant
            a.len() == b.len(),
            i <= a.len(),
            forall|k: int| 0 <= k < i ==> ascii_lower(a@[k]) == ascii_lower(b@[k]),
        decreases a.len() - i,
    {
        if char_lower(a[i]) != char_lower(b[i]) {
            return false;
        }
        i += 1;
    }
    true
}

/// `path` without one trailing `/`, if it has one.
pub open spec fn strip_trailing_slash(path: Seq<char>) -> Seq<char> {
    if path.len() > 0 && path.last() == '/' {
        path.drop_last()
    } else {
        path
    }
}

/// `path` with a trailing `/`, added only when it does not end in one.
pub open spec fn with_trailing_slash(path: Seq<char>) -> Seq<char> {
    if path.len() > 0 && path.last() == '/' {
        path
    } else {
        path.push('/')
    }
}

} // verus!

verus! {

/// The pieces of a path between `/` separators, without empty ones.
pub open spec fn segments(p: Seq<char>) -> Seq<Seq<char>>
    decreases p.len(),
{
    if p.len() == 0 {
        Seq::empty()
    } else {
        let w = segments(p.drop_last());
        let c = p.last();
        if c == '/' {
            w
        } else if p.len() >= 2 && p[p.len() - 2] != '/' && w.len() > 0 {
            w.drop_last().push(w.last().push(c))
        } else {
            w.push(seq![c])
        }
    }
}

/// The last of the pieces that is not `.`, if any.
pub open spec fn last_named(ss: Seq<Seq<char>>) -> Option<Seq<char>>
    decreases ss.len(),
{
    if ss.len() == 0 {
        None
    } else if ss.last() == seq!['.'] {
        last_named(ss.drop_last())
    } else {
        Some(ss.last())
    }
}

/// The final component of a path when it is a name, as `Path::file_name`
/// reports it: `None` for a path that ends in `..`, is a root, or is empty.
pub open spec fn file_name(p: Seq<char>) -> Option<Seq<char>> {
    match last_named(segments(p)) {
        Some(s) => if s == seq!['.', '.'] { None } else { Some(s) },
        None => None,
    }
}

fn split_segments(p: &[char]) -> (r: Vec<Vec<char>>)
    ensures
        r@.map_values(|w: Vec<char>| w@) == segments(p@),
{
    let mut r: Vec<Vec<char>> = Vec::new();
    let mut i: usize = 0;
    while i < p.len()
        invariant
            i <= p.len(),
            r@.map_values(|w: Vec<char>| w@) == segments(p@.take(i as int)),
        decreases p.len() - i,
    {
        let c = p[i];
        let ghost pre = p@.take(i as int);
        let ghost cur = p@.take(i as int + 1);
        assert(cur.drop_last() =~= pre);
        assert(cur.last() == c);
        let ghost before = r@;
        if c == '/' {
        } else if i > 0 && p[i - 1] != '/' && r.len() > 0 {
            assert(cur[cur.len() - 2] == p@[i - 1]);
            let mut last = r.pop().unwrap();
            last.push(c);
            r.push(last);
            assert(r@.map_values(|w: Vec<char>| w@) =~= before.map_values(|w: Vec<char>| w@).drop_last().push(
                before.map_values(|w: Vec<char>| w@).last().push(c),
            ));
        } else {
            proof {
                if i > 0 {
                    assert(cur[cur.len() - 2] == p@[i - 1]);
                }
            }
            let mut w: Vec<char> = Vec::new();
            w.push(c);
            r.push(w);
            assert(r@.map_values(|w: Vec<char>| w@) =~= before.map_values(|w: Vec<char>| w@).push(seq![c]));
        }
        i += 1;
    }
    assert(p@.take(p.len() as int) =~= p@);
    r
}

/// Executable [`file_name`].
pub fn file_name_chars(p: &[char]) -> (r: Option<Vec<char>>)
    ensures
        match r {
            Some(v) => file_name(p@) == Some(v@),
            None => file_name(p@) is None,
        },
{
    let segs = split_segments(p);
    let ghost sv = segs@.map_values(|w: Vec<char>| w@);
    let mut n = segs.len();
    assert(sv.take(n as int) =~= sv);
    while n > 0 && segs[n - 1].len() == 1 && segs[n - 1][0] == '.'
        invariant
            n <= segs@.len(),
            sv == segs@.map_values(|w: Vec<char>| w@),
            last_named(sv) == last_named(sv.take(n as int)),
        decreases n,
    {
        let ghost t = sv.take(n as int);
        assert(t.last() == segs@[n - 1]@);
        assert(segs@[n - 1]@ =~= seq!['.']);
        assert(t.drop_last() =~= sv.take(n - 1));
        n -= 1;
    }
    let ghost t = sv.take(n as int);
    if n == 0 {
        return None;
    }
    assert(t.last() == segs@[n - 1]@);
    assert(segs@[n - 1]@ != seq!['.']) by {
        if segs@[n - 1]@ == seq!['.'] {
            assert(segs@[n - 1]@.len() == 1 && segs@[n - 1]@[0] == '.');
        }
    }
    let last = &segs[n - 1];
    if last.len() == 2 && last[0] == '.' && last[1] == '.' {
        assert(last@ =~= seq!['.', '.']);
        None
    } else {
        assert(last@ != seq!['.', '.']) by {
            if last@ == seq!['.', '.'] {
                assert(last@.len() == 2 && last@[0] == '.' && last@[1] == '.');
            }
        }
        Some(sub_chars(last.as_slice(), 0, last.len()))
    }
}

} // verus!
