//! Splitting text into words and lines, and joining it back.
//!
//! Words are what `str::split_whitespace` yields: the maximal runs of
//! characters that are not whitespace. Lines are what `str::lines` yields:
//! the text split at each `\n`, a `\r` right before a `\n` dropped, and no
//! empty line after a final `\n`.

use vstd::prelude::*;
use crate::text::{char_is_ws, extend_chars, is_ws};

verus! {

/// The views of a sequence of character vectors.
pub open spec fn char_views(v: Seq<Vec<char>>) -> Seq<Seq<char>> {
    v.map_values(|w: Vec<char>| w@)
}

/// The words of `s`, in order.
pub open spec fn words(s: Seq<char>) -> Seq<Seq<char>>
    decreases s.len(),
{
    if s.len() == 0 {
        Seq::empty()
    } else {
        let w = words(s.drop_last());
        let c = s.last();
        if is_ws(c) {
            w
        } else if s.len() >= 2 && !is_ws(s[s.len() - 2]) && w.len() > 0 {
            w.drop_last().push(w.last().push(c))
        } else {
            w.push(seq![c])
        }
    }
}

/// The words of `s`, computed over the characters.
pub fn split_words(s: &[char]) -> (r: Vec<Vec<char>>)
    ensures
        char_views(r@) == words(s@),
{
    let mut r: Vec<Vec<char>> = Vec::new();
    let mut i: usize = 0;
    while i < s.len()
        invariant
            i <= s.len(),
            char_views(r@) == words(s@.take(i as int)),
        decreases s.len() - i,
    {
        let c = s[i];
        let ghost pre = s@.take(i as int);
        let ghost cur = s@.take(i as int + 1);
        assert(cur.drop_last() =~= pre);
        assert(cur.last() == c);
        let ghost before = r@;
        if char_is_ws(c) {
        } else if i > 0 && !char_is_ws(s[i - 1]) && r.len() > 0 {
            assert(cur[cur.len() - 2] == s@[i - 1]);
            let mut last = r.pop().unwrap();
            last.push(c);
            r.push(last);
            assert(char_views(r@) =~= char_views(before).drop_last().push(char_views(before).last().push(c)));
        } else {
            proof {
                if i > 0 {
                    assert(cur[cur.len() - 2] == s@[i - 1]);
                }
            }
            let mut w: Vec<char> = Vec::new();
            w.push(c);
            r.push(w);
            assert(char_views(r@) =~= char_views(before).push(seq![c]));
        }
        i += 1;
    }
    assert(s@.take(s.len() as int) =~= s@);
    r
}

/// The pieces of `s` joined with `sep` between them.
pub open spec fn joined(ws: Seq<Seq<char>>, sep: Seq<char>) -> Seq<char>
    decreases ws.len(),
{
    if ws.len() == 0 {
        Seq::empty()
    } else if ws.len() == 1 {
        ws[0]
    } else {
        joined(ws.drop_last(), sep) + sep + ws.last()
    }
}

/// The pieces `ws[from..]` joined with `sep` between them.
pub fn join_from(ws: &Vec<Vec<char>>, from: usize, sep: &[char]) -> (r: Vec<char>)
    requires
        from <= ws@.len(),
    ensures
        r@ == joined(char_views(ws@).skip(from as int), sep@),
{
    let ghost all = char_views(ws@).skip(from as int);
    let mut r: Vec<char> = Vec::new();
    let mut i: usize = from;
    while i < ws.len()
        invariant
            from <= i <= ws@.len(),
            all == char_views(ws@).skip(from as int),
            r@ == joined(all.take(i - from), sep@),
        decreases ws@.len() - i,
    {
        let ghost k = i - from;
        assert(all.take(k + 1).drop_last() =~= all.take(k));
        assert(all.take(k + 1).last() == ws@[i as int]@);
        if i > from {
            extend_chars(&mut r, sep);
        } else {
            assert(all.take(k) =~= Seq::<Seq<char>>::empty());
        }
        extend_chars(&mut r, ws[i].as_slice());
        i += 1;
    }
    assert(all.take(ws@.len() - from) =~= all);
    r
}

/// The pieces of `s` between `\n` characters (one more than there are
/// `\n` characters).
pub open spec fn newline_pieces(s: Seq<char>) -> Seq<Seq<char>>
    decreases s.len(),
{
    if s.len() == 0 {
        seq![Seq::empty()]
    } else {
        let p = newline_pieces(s.drop_last());
        if s.last() == '\n' {
            p.push(Seq::empty())
        } else {
            p.drop_last().push(p.last().push(s.last()))
        }
    }
}

/// `l` without one trailing `\r`.
pub open spec fn strip_cr(l: Seq<char>) -> Seq<char> {
    if l.len() > 0 && l.last() == '\r' { l.drop_last() } else { l }
}

/// The lines of `s`, in order.
pub open spec fn lines(s: Seq<char>) -> Seq<Seq<char>> {
    let p = newline_pieces(s);
    let ended = p.take(p.len() - 1).map_values(|l: Seq<char>| strip_cr(l));
    if s.len() == 0 {
        Seq::empty()
    } else if s.last() == '\n' {
        ended
    } else {
        ended.push(p.last())
    }
}

pub proof fn lemma_pieces_nonempty(s: Seq<char>)
    ensures
        newline_pieces(s).len() >= 1,
    decreases s.len(),
{
    if s.len() > 0 {
        lemma_pieces_nonempty(s.drop_last());
    }
}

/// The lines of `s`, computed over the characters.
pub fn split_lines(s: &[char]) -> (r: Vec<Vec<char>>)
    ensures
        char_views(r@) == lines(s@),
{
    let mut done: Vec<Vec<char>> = Vec::new();
    let mut cur: Vec<char> = Vec::new();
    let mut i: usize = 0;
    while i < s.len()
        invariant
            i <= s.len(),
            newline_pieces(s@.take(i as int)).len() == done@.len() + 1,
            forall|k: int| 0 <= k < done@.len() ==> done@[k]@ == strip_cr(#[trigger] newline_pieces(s@.take(i as int))[k]),
            cur@ == newline_pieces(s@.take(i as int)).last(),
        decreases s.len() - i,
    {
        let ghost pre = s@.take(i as int);
        let ghost next = s@.take(i as int + 1);
        assert(next.drop_last() =~= pre);
        assert(next.last() == s@[i as int]);
        proof {
            lemma_pieces_nonempty(pre);
        }
        if s[i] == '\n' {
            let mut line = cur;
            if line.len() > 0 && line[line.len() - 1] == '\r' {
                line.pop();
            }
            assert(line@ == strip_cr(newline_pieces(pre).last()));
            done.push(line);
            cur = Vec::new();
            proof {
                let p = newline_pieces(pre);
                assert forall|k: int| 0 <= k < done@.len() implies done@[k]@ == strip_cr(#[trigger] newline_pieces(next)[k]) by {
                    assert(newline_pieces(next) == p.push(Seq::<char>::empty()));
                    if k < done@.len() - 1 {
                        assert(newline_pieces(next)[k] == p[k]);
                    }
                }
            }
        } else {
            cur.push(s[i]);
            proof {
                let p = newline_pieces(pre);
                assert forall|k: int| 0 <= k < done@.len() implies done@[k]@ == strip_cr(#[trigger] newline_pieces(next)[k]) by {
                    assert(newline_pieces(next)[k] == p[k]);
                }
            }
        }
        i += 1;
    }
    assert(s@.take(s.len() as int) =~= s@);
    let ghost p = newline_pieces(s@);
    let ghost ended = p.take(p.len() - 1).map_values(|l: Seq<char>| strip_cr(l));
    assert(char_views(done@) =~= ended);
    if s.len() > 0 && s[s.len() - 1] != '\n' {
        done.push(cur);
        assert(char_views(done@) =~= ended.push(p.last()));
    }
    done
}

} // verus!

verus! {

/// Text without a `\n` is a single piece.
pub proof fn lemma_pieces_single(x: Seq<char>)
    requires
        !x.contains('\n'),
    ensures
        newline_pieces(x) == seq![x],
    decreases x.len(),
{
    if x.len() > 0 {
        assert(!x.drop_last().contains('\n')) by {
            if x.drop_last().contains('\n') {
                let k = choose|k: int| 0 <= k < x.drop_last().len() && x.drop_last()[k] == '\n';
                assert(x[k] == '\n');
            }
        }
        lemma_pieces_single(x.drop_last());
        assert(x.last() != '\n') by {
            assert(x[x.len() - 1] == x.last());
        }
        assert(x.drop_last().push(x.last()) =~= x);
    } else {
        assert(x =~= Seq::<char>::empty());
    }
}

/// A `\n` splits the pieces of a text in two.
pub proof fn lemma_pieces_split(x: Seq<char>, y: Seq<char>)
    ensures
        newline_pieces(x + seq!['\n'] + y) == newline_pieces(x) + newline_pieces(y),
    decreases y.len(),
{
    lemma_pieces_nonempty(x);
    lemma_pieces_nonempty(y);
    let s = x + seq!['\n'] + y;
    if y.len() == 0 {
        assert(s.drop_last() =~= x);
        assert(s.last() == '\n');
        assert(newline_pieces(x).push(Seq::empty()) =~= newline_pieces(x) + seq![Seq::<char>::empty()]);
    } else {
        let y0 = y.drop_last();
        lemma_pieces_split(x, y0);
        lemma_pieces_nonempty(y0);
        assert(s.drop_last() =~= x + seq!['\n'] + y0);
        assert(s.last() == y.last());
        let a = newline_pieces(x);
        let b = newline_pieces(y0);
        if y.last() == '\n' {
            assert((a + b).push(Seq::empty()) =~= a + b.push(Seq::empty()));
        } else {
            assert((a + b).drop_last() =~= a + b.drop_last());
            assert((a + b).last() == b.last());
            assert((a + b).drop_last().push((a + b).last().push(y.last())) =~= a + b.drop_last().push(b.last().push(y.last())));
        }
    }
}

} // verus!
