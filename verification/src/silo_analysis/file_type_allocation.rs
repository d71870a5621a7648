//! File type allocation: group files by extension and compute each group's
//! share of the total silo size.
//!
//! Each group reports how many files it contains, their combined byte size,
//! and what percentage of the total silo size that group holds, in
//! hundredths of a percent. Groups are ordered by total bytes descending,
//! ties by extension name.

use vstd::prelude::*;
use crate::paths::{extension, extension_chars};
use crate::text::{chars_of, string_of};

verus! {

/// The reserved extension name for files that have no extension.
pub const NO_EXTENSION: &'static str = "no-extension";

/// The reserved extension name for files that have no extension, as text.
pub open spec fn no_extension_name() -> Seq<char> {
    seq!['n', 'o', '-', 'e', 'x', 't', 'e', 'n', 's', 'i', 'o', 'n']
}

/// The extension a file is grouped under: its extension without the dot,
/// or `no-extension` when it has none or an empty one.
pub open spec fn extension_group(name: Seq<char>) -> Seq<char> {
    match extension(name) {
        Some(e) => if e.len() > 0 { e } else { no_extension_name() },
        None => no_extension_name(),
    }
}

/// The extension of `path` without the dot, or the reserved `no-extension`
/// name when the path has no extension.
pub fn extension_of(path: &str) -> (r: String)
    ensures
        r@ == extension_group(path@),
{
    let p = chars_of(path);
    match extension_chars(&p) {
        Some(e) => {
            if e.len() > 0 {
                return string_of(&e);
            }
        },
        None => {},
    }
    let mut v: Vec<char> = Vec::new();
    v.push('n'); v.push('o'); v.push('-'); v.push('e'); v.push('x'); v.push('t');
    v.push('e'); v.push('n'); v.push('s'); v.push('i'); v.push('o'); v.push('n');
    string_of(&v)
}

/// `part / whole` as a percentage in hundredths, rounded half up; zero when
/// `whole` is zero (an empty silo).
pub open spec fn percent_hundredths(part: nat, whole: nat) -> nat {
    if whole == 0 {
        0
    } else {
        (part * 20000 + whole) / (2 * whole)
    }
}

/// The percentage of `part` within `whole`, in hundredths of a percent and
/// rounded to the nearest hundredth (halves up), so `4257` means 42.57%.
/// A `part` larger than `whole` gives a share above 100%.
///
/// When `whole` is zero (an empty silo), this returns 0.
pub fn percentage(part: u64, whole: u64) -> (r: u128)
    ensures
        r == percent_hundredths(part as nat, whole as nat),
{
    if whole == 0 {
        return 0;
    }
    let n: u128 = (part as u128) * 20000 + (whole as u128);
    let d: u128 = 2 * (whole as u128);
    n / d
}

/// Lexicographic order on texts by character code, as `String` orders
/// them: a proper prefix comes first.
pub open spec fn lex_lt(a: Seq<char>, b: Seq<char>) -> bool
    decreases a.len(),
{
    if a.len() == 0 {
        b.len() > 0
    } else if b.len() == 0 {
        false
    } else if a[0] != b[0] {
        a[0] < b[0]
    } else {
        lex_lt(a.drop_first(), b.drop_first())
    }
}

/// No text comes before itself.
pub proof fn lemma_lex_irreflexive(a: Seq<char>)
    ensures
        !lex_lt(a, a),
    decreases a.len(),
{
    if a.len() > 0 {
        lemma_lex_irreflexive(a.drop_first());
    }
}

/// Of two different texts, one comes before the other.
pub proof fn lemma_lex_total(a: Seq<char>, b: Seq<char>)
    requires
        a != b,
    ensures
        lex_lt(a, b) || lex_lt(b, a),
    decreases a.len(),
{
    if a.len() == 0 {
        assert(b.len() > 0) by {
            if b.len() == 0 {
                assert(a =~= b);
            }
        }
    } else if b.len() == 0 {
    } else if a[0] != b[0] {
    } else {
        assert(a.drop_first() != b.drop_first()) by {
            if a.drop_first() == b.drop_first() {
                assert(a =~= seq![a[0]] + a.drop_first());
                assert(b =~= seq![b[0]] + b.drop_first());
            }
        }
        lemma_lex_total(a.drop_first(), b.drop_first());
    }
}

/// The order is transitive.
pub proof fn lemma_lex_transitive(a: Seq<char>, b: Seq<char>, c: Seq<char>)
    requires
        lex_lt(a, b),
        lex_lt(b, c),
    ensures
        lex_lt(a, c),
    decreases a.len(),
{
    if a.len() > 0 && b.len() > 0 && c.len() > 0 {
        if a[0] == b[0] && b[0] == c[0] {
            lemma_lex_transitive(a.drop_first(), b.drop_first(), c.drop_first());
        }
    }
}

/// The order is asymmetric.
pub proof fn lemma_lex_asymmetric(a: Seq<char>, b: Seq<char>)
    requires
        lex_lt(a, b),
    ensures
        !lex_lt(b, a),
{
    if lex_lt(b, a) {
        lemma_lex_transitive(a, b, a);
        lemma_lex_irreflexive(a);
    }
}

/// Executable [`lex_lt`].
pub fn lex_less(a: &[char], b: &[char]) -> (r: bool)
    ensures
        r == lex_lt(a@, b@),
{
    let mut i: usize = 0;
    assert(a@.skip(0) =~= a@);
    assert(b@.skip(0) =~= b@);
    while i < a.len() && i < b.len() && a[i] == b[i]
        invariant
            i <= a.len(),
            i <= b.len(),
            lex_lt(a@, b@) == lex_lt(a@.skip(i as int), b@.skip(i as int)),
        decreases a.len() - i,
    {
        proof {
            let sa = a@.skip(i as int);
            let sb = b@.skip(i as int);
            assert(sa.drop_first() =~= a@.skip(i as int + 1));
            assert(sb.drop_first() =~= b@.skip(i as int + 1));
        }
        i += 1;
    }
    let ghost sa = a@.skip(i as int);
    let ghost sb = b@.skip(i as int);
    if i == a.len() {
        assert(sa.len() == 0);
        i < b.len()
    } else if i == b.len() {
        false
    } else {
        assert(sa[0] == a@[i as int]);
        assert(sb[0] == b@[i as int]);
        a[i] < b[i]
    }
}

/// Statistics for one file type (grouped by file extension).
#[derive(Debug)]
pub struct FileTypeStat {
    /// The extension without the dot, for example `pdf`. Files without an
    /// extension are grouped under the reserved name `no-extension`.
    pub extension: String,
    /// How many files have this extension.
    pub count: u64,
    /// The total size in bytes of all files with this extension.
    pub total_bytes: u64,
    /// The share of the total silo size in bytes, in hundredths of a
    /// percent. For example `4257` means 42.57%.
    pub percent_hundredths: u128,
}

/// The view of a [`FileTypeStat`].
pub struct FileTypeStatView {
    pub extension: Seq<char>,
    pub count: nat,
    pub total_bytes: nat,
    pub percent_hundredths: nat,
}

impl View for FileTypeStat {
    type V = FileTypeStatView;

    open spec fn view(&self) -> FileTypeStatView {
        FileTypeStatView {
            extension: self.extension@,
            count: self.count as nat,
            total_bytes: self.total_bytes as nat,
            percent_hundredths: self.percent_hundredths as nat,
        }
    }
}

/// The views of the input files: each file's extension and size.
pub open spec fn item_views(items: Seq<(String, u64)>) -> Seq<(Seq<char>, nat)> {
    items.map_values(|it: (String, u64)| (it.0@, it.1 as nat))
}

/// How many of the first `n` items have extension `e`.
pub open spec fn count_of(items: Seq<(Seq<char>, nat)>, e: Seq<char>, n: int) -> nat
    decreases n,
{
    if n <= 0 {
        0
    } else {
        count_of(items, e, n - 1) + if items[n - 1].0 == e { 1nat } else { 0nat }
    }
}

/// The total size of the first `n` items with extension `e`.
pub open spec fn bytes_of(items: Seq<(Seq<char>, nat)>, e: Seq<char>, n: int) -> nat
    decreases n,
{
    if n <= 0 {
        0
    } else {
        bytes_of(items, e, n - 1) + if items[n - 1].0 == e { items[n - 1].1 } else { 0nat }
    }
}

/// The total size of the first `n` items.
pub open spec fn bytes_total(items: Seq<(Seq<char>, nat)>, n: int) -> nat
    decreases n,
{
    if n <= 0 {
        0
    } else {
        bytes_total(items, n - 1) + items[n - 1].1
    }
}

/// Whether group `a` is listed before group `b`: more total bytes first,
/// ties by extension name.
pub open spec fn listed_before(a: FileTypeStatView, b: FileTypeStatView) -> bool {
    a.total_bytes > b.total_bytes || (a.total_bytes == b.total_bytes && lex_lt(a.extension, b.extension))
}

/// The per-extension breakdown of `items`, whose total size is `total`: one
/// group per extension that occurs, with its file count, total bytes and
/// share of `total`, ordered by [`listed_before`].
pub open spec fn is_breakdown(r: Seq<FileTypeStatView>, items: Seq<(Seq<char>, nat)>, total: nat) -> bool {
    let n = items.len() as int;
    &&& forall|k: int| 0 <= k < r.len() ==> {
        &&& (#[trigger] r[k]).count == count_of(items, r[k].extension, n)
        &&& r[k].count > 0
        &&& r[k].total_bytes == bytes_of(items, r[k].extension, n)
        &&& r[k].percent_hundredths == percent_hundredths(r[k].total_bytes, total)
    }
    &&& forall|i: int| 0 <= i < n ==> exists|k: int| 0 <= k < r.len() && #[trigger] r[k].extension == (#[trigger] items[i]).0
    &&& forall|k: int, l: int| 0 <= k < l < r.len() ==> listed_before(#[trigger] r[k], #[trigger] r[l])
}

} // verus!

verus! {

proof fn lemma_count_positive(items: Seq<(Seq<char>, nat)>, e: Seq<char>, n: int)
    requires
        0 <= n <= items.len(),
        count_of(items, e, n) > 0,
    ensures
        exists|j: int| 0 <= j < n && items[j].0 == e,
    decreases n,
{
    if items[n - 1].0 != e {
        lemma_count_positive(items, e, n - 1);
    }
}

proof fn lemma_count_zero_bytes_zero(items: Seq<(Seq<char>, nat)>, e: Seq<char>, n: int)
    requires
        0 <= n <= items.len(),
        count_of(items, e, n) == 0,
    ensures
        bytes_of(items, e, n) == 0,
    decreases n,
{
    if n > 0 {
        lemma_count_zero_bytes_zero(items, e, n - 1);
    }
}

proof fn lemma_count_bound(items: Seq<(Seq<char>, nat)>, e: Seq<char>, n: int)
    requires
        0 <= n <= items.len(),
    ensures
        count_of(items, e, n) <= n,
        bytes_of(items, e, n) <= bytes_total(items, n),
    decreases n,
{
    if n > 0 {
        lemma_count_bound(items, e, n - 1);
    }
}

proof fn lemma_listed_before_transitive(a: FileTypeStatView, b: FileTypeStatView, c: FileTypeStatView)
    requires
        listed_before(a, b),
        listed_before(b, c),
    ensures
        listed_before(a, c),
{
    if a.total_bytes == b.total_bytes && b.total_bytes == c.total_bytes {
        lemma_lex_transitive(a.extension, b.extension, c.extension);
    }
}

proof fn lemma_listed_before_total(a: FileTypeStatView, b: FileTypeStatView)
    requires
        a.extension != b.extension,
    ensures
        listed_before(a, b) || listed_before(b, a),
{
    lemma_lex_total(a.extension, b.extension);
}

/// The groups of the first `n` items, one per extension, in first-seen
/// order, with their counts and byte totals over those items.
spec fn grouped(g: Seq<FileTypeStatView>, items: Seq<(Seq<char>, nat)>, n: int) -> bool {
    &&& forall|k: int| 0 <= k < g.len() ==> {
        &&& (#[trigger] g[k]).count == count_of(items, g[k].extension, n)
        &&& g[k].count > 0
        &&& g[k].total_bytes == bytes_of(items, g[k].extension, n)
    }
    &&& forall|k: int, l: int| 0 <= k < l < g.len() ==> (#[trigger] g[k]).extension != (#[trigger] g[l]).extension
    &&& forall|j: int| 0 <= j < n ==> exists|k: int| 0 <= k < g.len() && #[trigger] g[k].extension == (#[trigger] items[j]).0
}

fn find_group(groups: &Vec<FileTypeStat>, ext: &String) -> (r: Option<usize>)
    ensures
        r matches Some(k) ==> k < groups@.len() && groups@[k as int].extension@ == ext@,
        r is None ==> forall|k: int| 0 <= k < groups@.len() ==> groups@[k].extension@ != ext@,
{
    let mut k: usize = 0;
    while k < groups.len()
        invariant
            k <= groups@.len(),
            forall|j: int| 0 <= j < k ==> groups@[j].extension@ != ext@,
        decreases groups@.len() - k,
    {
        if groups[k].extension == *ext {
            return Some(k);
        }
        k += 1;
    }
    None
}

fn group_items(items: &Vec<(String, u64)>) -> (g: Vec<FileTypeStat>)
    requires
        bytes_total(item_views(items@), items@.len() as int) <= u64::MAX,
    ensures
        grouped(g@.map_values(|s: FileTypeStat| s@), item_views(items@), items@.len() as int),
        forall|k: int| 0 <= k < g@.len() ==> g@[k].percent_hundredths == 0,
{
    let ghost iv = item_views(items@);
    let mut g: Vec<FileTypeStat> = Vec::new();
    let mut i: usize = 0;
    while i < items.len()
        invariant
            i <= items@.len(),
            iv == item_views(items@),
            bytes_total(iv, iv.len() as int) <= u64::MAX,
            grouped(g@.map_values(|s: FileTypeStat| s@), iv, i as int),
            forall|k: int| 0 <= k < g@.len() ==> g@[k].percent_hundredths == 0,
        decreases items@.len() - i,
    {
        let ghost old_g = g@.map_values(|s: FileTypeStat| s@);
        let ghost n = i as int;
        let ext = &items[i].0;
        let size = items[i].1;
        assert(iv[n] == (ext@, size as nat));
        proof {
            lemma_bytes_total_monotone(iv, n + 1, iv.len() as int);
        }
        match find_group(&g, ext) {
            Some(k) => {
                proof {
                    lemma_count_bound(iv, ext@, n);
                    assert(old_g[k as int].extension == ext@);
                }
                let c = g[k].count;
                let b = g[k].total_bytes;
                let e = g[k].extension.clone();
                g.set(k, FileTypeStat { extension: e, count: c + 1, total_bytes: b + size, percent_hundredths: 0 });
                proof {
                    let new_g = g@.map_values(|s: FileTypeStat| s@);
                    assert forall|j: int| 0 <= j < new_g.len() implies {
                        &&& (#[trigger] new_g[j]).count == count_of(iv, new_g[j].extension, n + 1)
                        &&& new_g[j].count > 0
                        &&& new_g[j].total_bytes == bytes_of(iv, new_g[j].extension, n + 1)
                    } by {
                        assert(old_g[j].count == count_of(iv, old_g[j].extension, n));
                        if j != k {
                            assert(old_g[j].extension != ext@);
                        }
                    }
                    assert forall|a: int, b2: int| 0 <= a < b2 < new_g.len() implies (#[trigger] new_g[a]).extension != (#[trigger] new_g[b2]).extension by {
                        assert(old_g[a].extension != old_g[b2].extension);
                    }
                    assert forall|j: int| 0 <= j < n + 1 implies exists|q: int| 0 <= q < new_g.len() && #[trigger] new_g[q].extension == (#[trigger] iv[j]).0 by {
                        if j < n {
                            let q = choose|q: int| 0 <= q < old_g.len() && old_g[q].extension == iv[j].0;
                            assert(new_g[q].extension == iv[j].0);
                        } else {
                            assert(new_g[k as int].extension == iv[j].0);
                        }
                    }
                }
            },
            None => {
                proof {
                    if count_of(iv, ext@, n) > 0 {
                        lemma_count_positive(iv, ext@, n);
                        let j = choose|j: int| 0 <= j < n && iv[j].0 == ext@;
                        let q = choose|q: int| 0 <= q < old_g.len() && old_g[q].extension == iv[j].0;
                        assert(g@[q].extension@ == ext@);
                    }
                    lemma_count_zero_bytes_zero(iv, ext@, n);
                }
                g.push(FileTypeStat { extension: ext.clone(), count: 1, total_bytes: size, percent_hundredths: 0 });
                proof {
                    let new_g = g@.map_values(|s: FileTypeStat| s@);
                    assert(new_g == old_g.push(new_g[old_g.len() as int]));
                    assert forall|j: int| 0 <= j < new_g.len() implies {
                        &&& (#[trigger] new_g[j]).count == count_of(iv, new_g[j].extension, n + 1)
                        &&& new_g[j].count > 0
                        &&& new_g[j].total_bytes == bytes_of(iv, new_g[j].extension, n + 1)
                    } by {
                        if j < old_g.len() {
                            assert(old_g[j].count == count_of(iv, old_g[j].extension, n));
                            assert(old_g[j].extension != ext@);
                        }
                    }
                    assert forall|a: int, b2: int| 0 <= a < b2 < new_g.len() implies (#[trigger] new_g[a]).extension != (#[trigger] new_g[b2]).extension by {
                        if b2 < old_g.len() {
                            assert(old_g[a].extension != old_g[b2].extension);
                        } else {
                            assert(old_g[a].extension != ext@);
                        }
                    }
                    assert forall|j: int| 0 <= j < n + 1 implies exists|q: int| 0 <= q < new_g.len() && #[trigger] new_g[q].extension == (#[trigger] iv[j]).0 by {
                        if j < n {
                            let q = choose|q: int| 0 <= q < old_g.len() && old_g[q].extension == iv[j].0;
                            assert(new_g[q].extension == iv[j].0);
                        } else {
                            assert(new_g[old_g.len() as int].extension == iv[j].0);
                        }
                    }
                }
            },
        }
        i += 1;
    }
    g
}

proof fn lemma_bytes_total_monotone(items: Seq<(Seq<char>, nat)>, a: int, b: int)
    requires
        a <= b,
    ensures
        bytes_total(items, a) <= bytes_total(items, b),
    decreases b - a,
{
    if a < b {
        lemma_bytes_total_monotone(items, a, b - 1);
    }
}

} // verus!

verus! {

/// The views of a vector of statistics.
pub open spec fn stat_views(v: Seq<FileTypeStat>) -> Seq<FileTypeStatView> {
    v.map_values(|s: FileTypeStat| s@)
}

fn insert_position(r: &Vec<FileTypeStat>, s: &FileTypeStat) -> (p: usize)
    requires
        forall|k: int| 0 <= k < r@.len() ==> r@[k].extension@ != s.extension@,
        forall|k: int, l: int| 0 <= k < l < r@.len() ==> listed_before(#[trigger] r@[k]@, #[trigger] r@[l]@),
    ensures
        p <= r@.len(),
        forall|k: int| 0 <= k < p ==> listed_before(r@[k]@, s@),
        forall|k: int| p <= k < r@.len() ==> listed_before(s@, r@[k]@),
{
    let ext = chars_of(s.extension.as_str());
    let mut p: usize = 0;
    while p < r.len()
        invariant
            p <= r@.len(),
            ext@ == s.extension@,
            forall|k: int| 0 <= k < r@.len() ==> r@[k].extension@ != s.extension@,
            forall|k: int, l: int| 0 <= k < l < r@.len() ==> listed_before(#[trigger] r@[k]@, #[trigger] r@[l]@),
            forall|k: int| 0 <= k < p ==> listed_before(r@[k]@, s@),
        decreases r@.len() - p,
    {
        let other = chars_of(r[p].extension.as_str());
        let before = s.total_bytes > r[p].total_bytes
            || (s.total_bytes == r[p].total_bytes && lex_less(&ext, &other));
        if before {
            proof {
                assert(listed_before(s@, r@[p as int]@));
                assert forall|k: int| p <= k < r@.len() implies listed_before(s@, r@[k]@) by {
                    if k > p {
                        assert(listed_before(r@[p as int]@, r@[k]@));
                        lemma_listed_before_transitive(s@, r@[p as int]@, r@[k]@);
                    }
                }
            }
            return p;
        }
        proof {
            lemma_listed_before_total(s@, r@[p as int]@);
        }
        p += 1;
    }
    p
}

proof fn lemma_insert_contains(s: Seq<FileTypeStatView>, i: int, a: FileTypeStatView, x: FileTypeStatView)
    requires
        0 <= i <= s.len(),
    ensures
        s.insert(i, a).contains(x) <==> (s.contains(x) || x == a),
{
    let t = s.insert(i, a);
    if s.contains(x) {
        let k = choose|k: int| 0 <= k < s.len() && s[k] == x;
        if k < i {
            assert(t[k] == x);
        } else {
            assert(t[k + 1] == x);
        }
    }
    if x == a {
        assert(t[i] == x);
    }
    if t.contains(x) {
        let k = choose|k: int| 0 <= k < t.len() && t[k] == x;
        if k < i {
            assert(s[k] == x);
        } else if k > i {
            assert(s[k - 1] == x);
        }
    }
}

proof fn lemma_skip_contains(s: Seq<FileTypeStatView>, m: int, x: FileTypeStatView)
    requires
        0 <= m < s.len(),
    ensures
        s.skip(m).contains(x) <==> (s.skip(m + 1).contains(x) || s[m] == x),
{
    let a = s.skip(m);
    let b = s.skip(m + 1);
    if a.contains(x) {
        let k = choose|k: int| 0 <= k < a.len() && a[k] == x;
        if k > 0 {
            assert(b[k - 1] == x);
        }
    }
    if b.contains(x) {
        let k = choose|k: int| 0 <= k < b.len() && b[k] == x;
        assert(a[k + 1] == x);
    }
    if s[m] == x {
        assert(a[0] == x);
    }
}

#[verifier::rlimit(30)]
fn sort_groups(g: Vec<FileTypeStat>) -> (r: Vec<FileTypeStat>)
    requires
        forall|k: int, l: int| 0 <= k < l < g@.len() ==> (#[trigger] g@[k]).extension@ != (#[trigger] g@[l]).extension@,
    ensures
        r@.len() == g@.len(),
        forall|x: FileTypeStatView| #[trigger] stat_views(r@).contains(x) <==> stat_views(g@).contains(x),
        forall|k: int, l: int| 0 <= k < l < r@.len() ==> listed_before(#[trigger] r@[k]@, #[trigger] r@[l]@),
{
    let ghost orig = stat_views(g@);
    let mut rest = g;
    let mut r: Vec<FileTypeStat> = Vec::new();
    while rest.len() > 0
        invariant
            stat_views(rest@) == orig.take(rest@.len() as int),
            rest@.len() <= orig.len(),
            forall|k: int, l: int| 0 <= k < l < orig.len() ==> (#[trigger] orig[k]).extension != (#[trigger] orig[l]).extension,
            r@.len() + rest@.len() == orig.len(),
            forall|x: FileTypeStatView| #[trigger] stat_views(r@).contains(x) <==> orig.skip(rest@.len() as int).contains(x),
            forall|k: int, l: int| 0 <= k < l < r@.len() ==> listed_before(#[trigger] r@[k]@, #[trigger] r@[l]@),
        decreases rest@.len(),
    {
        let ghost m = rest@.len() - 1;
        let ghost before_rest = stat_views(rest@);
        let s = rest.pop().unwrap();
        proof {
            assert(before_rest[m] == s@);
            assert(orig[m] == s@);
            assert(stat_views(rest@) =~= orig.take(m));
            assert forall|k: int| 0 <= k < r@.len() implies r@[k].extension@ != s.extension@ by {
                assert(stat_views(r@)[k] == r@[k]@);
                assert(stat_views(r@).contains(r@[k]@));
                let tail = orig.skip(m + 1);
                assert(tail.contains(r@[k]@));
                let j = choose|j: int| 0 <= j < tail.len() && tail[j] == r@[k]@;
                assert(orig[m + 1 + j] == r@[k]@);
            }
        }
        let p = insert_position(&r, &s);
        let ghost old_r = r@;
        let ghost sv = s@;
        r.insert(p, s);
        proof {
            assert(stat_views(r@) =~= stat_views(old_r).insert(p as int, sv));
            assert forall|x: FileTypeStatView| #[trigger] stat_views(r@).contains(x) <==> orig.skip(m).contains(x) by {
                lemma_insert_contains(stat_views(old_r), p as int, sv, x);
                lemma_skip_contains(orig, m, x);
            }
            assert forall|k: int, l: int| 0 <= k < l < r@.len() implies listed_before(#[trigger] r@[k]@, #[trigger] r@[l]@) by {
                if l < p {
                    assert(r@[k] == old_r[k] && r@[l] == old_r[l]);
                } else if l == p {
                    assert(r@[k] == old_r[k]);
                } else if k < p {
                    assert(r@[k] == old_r[k] && r@[l] == old_r[l - 1]);
                    lemma_listed_before_transitive(old_r[k]@, sv, old_r[l - 1]@);
                } else if k == p {
                    assert(r@[l] == old_r[l - 1]);
                } else {
                    assert(r@[k] == old_r[k - 1] && r@[l] == old_r[l - 1]);
                }
            }
        }
    }
    assert(orig.skip(0) =~= orig);
    r
}

/// Group files by extension and compute each group's share of the silo size.
///
/// Takes one `(extension, size_bytes)` pair per file, so callers that
/// already know the extension do not compute it twice. Groups are ordered by
/// total bytes descending. Ties keep alphabetical extension order.
pub fn compute_file_types(files: &Vec<(String, u64)>, total_size_bytes: u64) -> (r: Vec<FileTypeStat>)
    requires
        bytes_total(item_views(files@), files@.len() as int) <= u64::MAX,
    ensures
        is_breakdown(stat_views(r@), item_views(files@), total_size_bytes as nat),
{
    let ghost fv = item_views(files@);
    let g = group_items(files);
    let ghost gv = stat_views(g@);
    let mut src = g;
    let ghost n = files@.len() as int;
    // Attach each group's share, keeping the grouping order.
    let mut rev: Vec<FileTypeStat> = Vec::new();
    while src.len() > 0
        invariant
            src@.len() + rev@.len() == gv.len(),
            forall|k: int| 0 <= k < src@.len() ==> src@[k]@ == gv[k],
            forall|k: int| 0 <= k < rev@.len() ==> rev@[k]@ == (FileTypeStatView {
                percent_hundredths: percent_hundredths(gv[gv.len() - 1 - k].total_bytes, total_size_bytes as nat),
                ..gv[gv.len() - 1 - k]
            }),
            grouped(gv, fv, n),
            n == files@.len(),
            fv == item_views(files@),
            fv.len() == n,
            bytes_total(fv, n) <= u64::MAX,
        decreases src@.len(),
    {
        let ghost m = src@.len() - 1;
        let s = src.pop().unwrap();
        assert(s@ == gv[m]);
        proof {
            lemma_count_bound(fv, gv[m].extension, n);
        }
        let pct = percentage(s.total_bytes, total_size_bytes);
        rev.push(FileTypeStat { extension: s.extension, count: s.count, total_bytes: s.total_bytes, percent_hundredths: pct });
    }
    let ghost rv = rev@;
    proof {
        assert forall|k: int, l: int| 0 <= k < l < rev@.len() implies (#[trigger] rev@[k]).extension@ != (#[trigger] rev@[l]).extension@ by {
            assert(gv[gv.len() - 1 - l].extension != gv[gv.len() - 1 - k].extension);
        }
    }
    let r = sort_groups(rev);
    proof {
        let rs = stat_views(r@);
        let rvv = stat_views(rv);
        assert forall|k: int| 0 <= k < rs.len() implies {
            &&& (#[trigger] rs[k]).count == count_of(fv, rs[k].extension, n)
            &&& rs[k].count > 0
            &&& rs[k].total_bytes == bytes_of(fv, rs[k].extension, n)
            &&& rs[k].percent_hundredths == percent_hundredths(rs[k].total_bytes, total_size_bytes as nat)
        } by {
            assert(rs.contains(rs[k]));
            assert(rvv.contains(rs[k]));
            let j = choose|j: int| 0 <= j < rvv.len() && rvv[j] == rs[k];
            assert(rvv[j] == rv[j]@);
            let q = gv.len() - 1 - j;
            assert(gv[q].count == count_of(fv, gv[q].extension, n));
        }
        assert forall|i2: int| 0 <= i2 < n implies exists|k: int| 0 <= k < rs.len() && #[trigger] rs[k].extension == (#[trigger] fv[i2]).0 by {
            let q = choose|q: int| 0 <= q < gv.len() && gv[q].extension == fv[i2].0;
            let j = gv.len() - 1 - q;
            assert(rvv[j] == rv[j]@);
            assert(rvv.contains(rvv[j]));
            assert(rs.contains(rvv[j]));
            let k = choose|k: int| 0 <= k < rs.len() && rs[k] == rvv[j];
            assert(rs[k].extension == fv[i2].0);
        }
        assert forall|k: int, l: int| 0 <= k < l < rs.len() implies listed_before(#[trigger] rs[k], #[trigger] rs[l]) by {
            assert(rs[k] == r@[k]@ && rs[l] == r@[l]@);
        }
    }
    r
}

} // verus!

verus! {

/// The number of files over the first `k` groups.
pub open spec fn grouped_files(r: Seq<FileTypeStatView>, k: int) -> nat
    decreases k,
{
    if k <= 0 { 0 } else { grouped_files(r, k - 1) + r[k - 1].count }
}

/// The number of bytes over the first `k` groups.
pub open spec fn grouped_bytes(r: Seq<FileTypeStatView>, k: int) -> nat
    decreases k,
{
    if k <= 0 { 0 } else { grouped_bytes(r, k - 1) + r[k - 1].total_bytes }
}

/// How many of the first `k` groups have extension `e`.
spec fn hits(r: Seq<FileTypeStatView>, e: Seq<char>, k: int) -> nat
    decreases k,
{
    if k <= 0 { 0 } else { hits(r, e, k - 1) + if r[k - 1].extension == e { 1nat } else { 0nat } }
}

/// The files of the first `m` items, counted group by group over the first
/// `k` groups.
spec fn counted_by_groups(r: Seq<FileTypeStatView>, items: Seq<(Seq<char>, nat)>, m: int, k: int) -> nat
    decreases k,
{
    if k <= 0 { 0 } else { counted_by_groups(r, items, m, k - 1) + count_of(items, r[k - 1].extension, m) }
}

/// The bytes of the first `m` items, summed group by group over the first
/// `k` groups.
spec fn bytes_by_groups(r: Seq<FileTypeStatView>, items: Seq<(Seq<char>, nat)>, m: int, k: int) -> nat
    decreases k,
{
    if k <= 0 { 0 } else { bytes_by_groups(r, items, m, k - 1) + bytes_of(items, r[k - 1].extension, m) }
}

proof fn lemma_groups_step(r: Seq<FileTypeStatView>, items: Seq<(Seq<char>, nat)>, m: int, k: int)
    requires
        0 <= m,
    ensures
        counted_by_groups(r, items, m + 1, k) == counted_by_groups(r, items, m, k) + hits(r, items[m].0, k),
        bytes_by_groups(r, items, m + 1, k) == bytes_by_groups(r, items, m, k) + hits(r, items[m].0, k) * items[m].1,
    decreases k,
{
    if k > 0 {
        lemma_groups_step(r, items, m, k - 1);
        let x = items[m].1;
        let h1 = hits(r, items[m].0, k - 1);
        let b: nat = if r[k - 1].extension == items[m].0 { 1nat } else { 0nat };
        assert(hits(r, items[m].0, k) == h1 + b);
        assert((h1 + b) * x == h1 * x + b * x) by (nonlinear_arith);
        assert(b * x == if r[k - 1].extension == items[m].0 { x } else { 0nat });
    }
}

proof fn lemma_hits_absent(r: Seq<FileTypeStatView>, e: Seq<char>, k: int)
    requires
        forall|j: int| 0 <= j < k ==> r[j].extension != e,
    ensures
        hits(r, e, k) == 0,
    decreases k,
{
    if k > 0 {
        lemma_hits_absent(r, e, k - 1);
    }
}

proof fn lemma_hits_once(r: Seq<FileTypeStatView>, e: Seq<char>, k: int, at: int)
    requires
        0 <= at < k <= r.len(),
        r[at].extension == e,
        forall|a: int, b: int| 0 <= a < b < r.len() ==> r[a].extension != r[b].extension,
    ensures
        hits(r, e, k) == 1,
    decreases k,
{
    if k - 1 == at {
        lemma_hits_absent(r, e, k - 1);
    } else {
        lemma_hits_once(r, e, k - 1, at);
        assert(r[k - 1].extension != e);
    }
}

/// Every item's extension has a group.
spec fn covers(r: Seq<FileTypeStatView>, items: Seq<(Seq<char>, nat)>) -> bool {
    forall|i: int| 0 <= i < items.len() ==> exists|k: int| 0 <= k < r.len() && #[trigger] r[k].extension == (#[trigger] items[i]).0
}

proof fn lemma_groups_total(r: Seq<FileTypeStatView>, items: Seq<(Seq<char>, nat)>, m: int)
    requires
        0 <= m <= items.len(),
        covers(r, items),
        forall|a: int, b: int| 0 <= a < b < r.len() ==> r[a].extension != r[b].extension,
    ensures
        counted_by_groups(r, items, m, r.len() as int) == m,
        bytes_by_groups(r, items, m, r.len() as int) == bytes_total(items, m),
    decreases m,
{
    if m == 0 {
        lemma_groups_zero(r, items, r.len() as int);
    } else {
        lemma_groups_total(r, items, m - 1);
        lemma_groups_step(r, items, m - 1, r.len() as int);
        assert(items[m - 1] == items[m - 1]);
        let at = choose|k: int| 0 <= k < r.len() && #[trigger] r[k].extension == items[m - 1].0;
        lemma_hits_once(r, items[m - 1].0, r.len() as int, at);
    }
}

proof fn lemma_groups_zero(r: Seq<FileTypeStatView>, items: Seq<(Seq<char>, nat)>, k: int)
    ensures
        counted_by_groups(r, items, 0, k) == 0,
        bytes_by_groups(r, items, 0, k) == 0,
    decreases k,
{
    if k > 0 {
        lemma_groups_zero(r, items, k - 1);
    }
}

proof fn lemma_groups_fields(r: Seq<FileTypeStatView>, items: Seq<(Seq<char>, nat)>, k: int)
    requires
        0 <= k <= r.len(),
        forall|j: int| 0 <= j < r.len() ==> (#[trigger] r[j]).count == count_of(items, r[j].extension, items.len() as int),
        forall|j: int| 0 <= j < r.len() ==> (#[trigger] r[j]).total_bytes == bytes_of(items, r[j].extension, items.len() as int),
    ensures
        grouped_files(r, k) == counted_by_groups(r, items, items.len() as int, k),
        grouped_bytes(r, k) == bytes_by_groups(r, items, items.len() as int, k),
    decreases k,
{
    if k > 0 {
        lemma_groups_fields(r, items, k - 1);
        assert(r[k - 1].count == count_of(items, r[k - 1].extension, items.len() as int));
        assert(r[k - 1].total_bytes == bytes_of(items, r[k - 1].extension, items.len() as int));
    }
}

/// The breakdown partitions the files: every file falls in exactly one
/// group, so the group counts add up to the number of files and the group
/// sizes add up to their total size.
pub proof fn lemma_breakdown_partitions(r: Seq<FileTypeStatView>, items: Seq<(Seq<char>, nat)>, total: nat)
    requires
        is_breakdown(r, items, total),
    ensures
        grouped_files(r, r.len() as int) == items.len(),
        grouped_bytes(r, r.len() as int) == bytes_total(items, items.len() as int),
        forall|a: int, b: int| 0 <= a < b < r.len() ==> r[a].extension != r[b].extension,
{
    assert forall|a: int, b: int| 0 <= a < b < r.len() implies r[a].extension != r[b].extension by {
        assert(listed_before(r[a], r[b]));
        if r[a].extension == r[b].extension {
            lemma_lex_irreflexive(r[a].extension);
        }
    }
    lemma_groups_fields(r, items, r.len() as int);
    assert(covers(r, items));
    lemma_groups_total(r, items, items.len() as int);
}

} // verus!

verus! {

/// Whether the groups are in strictly increasing [`listed_before`] order.
spec fn strictly_listed(r: Seq<FileTypeStatView>) -> bool {
    forall|k: int, l: int| 0 <= k < l < r.len() ==> listed_before(#[trigger] r[k], #[trigger] r[l])
}

/// Whether every group of `a` is a group of `b`.
spec fn all_in(a: Seq<FileTypeStatView>, b: Seq<FileTypeStatView>) -> bool {
    forall|k: int| 0 <= k < a.len() ==> b.contains(#[trigger] a[k])
}

proof fn lemma_listed_irreflexive(a: FileTypeStatView)
    ensures
        !listed_before(a, a),
{
    lemma_lex_irreflexive(a.extension);
}

proof fn lemma_listed_asymmetric(a: FileTypeStatView, b: FileTypeStatView)
    requires
        listed_before(a, b),
    ensures
        !listed_before(b, a),
{
    if a.total_bytes == b.total_bytes {
        lemma_lex_asymmetric(a.extension, b.extension);
    }
}

proof fn lemma_sorted_unique(a: Seq<FileTypeStatView>, b: Seq<FileTypeStatView>)
    requires
        strictly_listed(a),
        strictly_listed(b),
        all_in(a, b),
        all_in(b, a),
    ensures
        a == b,
    decreases a.len() + b.len(),
{
    if a.len() == 0 {
        if b.len() > 0 {
            assert(a.contains(b[0]));
        }
        assert(a =~= b);
    } else if b.len() == 0 {
        assert(b.contains(a[0]));
    } else {
        assert(b.contains(a[0]));
        let l = choose|l: int| 0 <= l < b.len() && b[l] == a[0];
        assert(a.contains(b[0]));
        let k = choose|k: int| 0 <= k < a.len() && a[k] == b[0];
        if l > 0 {
            assert(listed_before(b[0], b[l]));
            if k > 0 {
                assert(listed_before(a[0], a[k]));
                lemma_listed_asymmetric(b[0], a[0]);
            } else {
                lemma_listed_irreflexive(b[0]);
            }
        }
        assert(a[0] == b[0]);
        let a1 = a.drop_first();
        let b1 = b.drop_first();
        assert forall|i: int| 0 <= i < a1.len() implies b1.contains(#[trigger] a1[i]) by {
            assert(a1[i] == a[i + 1]);
            assert(b.contains(a[i + 1]));
            let j = choose|j: int| 0 <= j < b.len() && b[j] == a[i + 1];
            if j == 0 {
                assert(listed_before(a[0], a[i + 1]));
                lemma_listed_irreflexive(a[0]);
            }
            assert(b1[j - 1] == b[j]);
        }
        assert forall|i: int| 0 <= i < b1.len() implies a1.contains(#[trigger] b1[i]) by {
            assert(b1[i] == b[i + 1]);
            assert(a.contains(b[i + 1]));
            let j = choose|j: int| 0 <= j < a.len() && a[j] == b[i + 1];
            if j == 0 {
                assert(listed_before(b[0], b[i + 1]));
                lemma_listed_irreflexive(b[0]);
            }
            assert(a1[j - 1] == a[j]);
        }
        assert forall|x: int, y: int| 0 <= x < y < a1.len() implies listed_before(#[trigger] a1[x], #[trigger] a1[y]) by {
            assert(a1[x] == a[x + 1] && a1[y] == a[y + 1]);
        }
        assert forall|x: int, y: int| 0 <= x < y < b1.len() implies listed_before(#[trigger] b1[x], #[trigger] b1[y]) by {
            assert(b1[x] == b[x + 1] && b1[y] == b[y + 1]);
        }
        lemma_sorted_unique(a1, b1);
        assert(a =~= seq![a[0]] + a1);
        assert(b =~= seq![b[0]] + b1);
    }
}

proof fn lemma_breakdown_in(r1: Seq<FileTypeStatView>, r2: Seq<FileTypeStatView>, items: Seq<(Seq<char>, nat)>, total: nat)
    requires
        is_breakdown(r1, items, total),
        is_breakdown(r2, items, total),
    ensures
        all_in(r1, r2),
{
    assert forall|k: int| 0 <= k < r1.len() implies r2.contains(#[trigger] r1[k]) by {
        let e = r1[k].extension;
        lemma_count_positive(items, e, items.len() as int);
        let j = choose|j: int| 0 <= j < items.len() && items[j].0 == e;
        assert(items[j] == items[j]);
        let l = choose|l: int| 0 <= l < r2.len() && #[trigger] r2[l].extension == items[j].0;
        assert(r2[l] == r1[k]);
    }
}

/// The breakdown of a list of files is unique: any two results that are
/// breakdowns of the same items with the same total are equal. So the
/// merged breakdown of several folders is exactly the breakdown computed
/// from all their files at once.
pub proof fn lemma_breakdown_unique(r1: Seq<FileTypeStatView>, r2: Seq<FileTypeStatView>, items: Seq<(Seq<char>, nat)>, total: nat)
    requires
        is_breakdown(r1, items, total),
        is_breakdown(r2, items, total),
    ensures
        r1 == r2,
{
    lemma_breakdown_in(r1, r2, items, total);
    lemma_breakdown_in(r2, r1, items, total);
    lemma_sorted_unique(r1, r2);
}

/// The last dot of a name is at `k` when the name has a dot at `k` and
/// none after it.
proof fn lemma_last_dot_at(name: Seq<char>, k: int)
    requires
        0 <= k < name.len(),
        name[k] == '.',
        forall|j: int| k < j < name.len() ==> name[j] != '.',
    ensures
        crate::paths::last_dot(name) == Some(k),
{
    assert(crate::paths::has_char(name, '.'));
    let w = choose|w: int| 0 <= w < name.len() && name[w] == '.' && forall|j: int| w < j < name.len() ==> name[j] != '.';
    if w < k {
        assert(name[k] != '.');
    } else if w > k {
        assert(name[w] != '.');
    }
}

/// A file whose name has a dot after its first character, followed by at
/// least one character, is grouped under the text after its LAST dot, as
/// `Path::extension` gives it: `backup.tar.gz` under `gz`. That group
/// holds no dot.
pub proof fn lemma_group_after_last_dot(name: Seq<char>, k: int)
    requires
        0 < k,
        k + 1 < name.len(),
        name[k] == '.',
        forall|j: int| k < j < name.len() ==> name[j] != '.',
    ensures
        extension_group(name) == name.skip(k + 1),
        !extension_group(name).contains('.'),
{
    lemma_last_dot_at(name, k);
    assert(name != seq!['.', '.']) by {
        if name == seq!['.', '.'] {
            assert(name.len() == 2);
        }
    }
    let e = name.skip(k + 1);
    assert(e.len() > 0);
    if e.contains('.') {
        let j = choose|j: int| 0 <= j < e.len() && e[j] == '.';
        assert(name[k + 1 + j] == '.');
    }
}

/// A file is grouped under `no-extension` when its name has no dot, or its
/// last dot is its first character (a hidden file such as `.bashrc`) or
/// its last character.
pub proof fn lemma_group_without_extension(name: Seq<char>)
    ensures
        (forall|j: int| 0 <= j < name.len() ==> name[j] != '.') ==> extension_group(name) == no_extension_name(),
        forall|k: int|
            0 <= k < name.len() && (k == 0 || k == name.len() - 1) && #[trigger] name[k] == '.' && (forall|j: int|
                k < j < name.len() ==> name[j] != '.') ==> extension_group(name) == no_extension_name(),
{
    if forall|j: int| 0 <= j < name.len() ==> name[j] != '.' {
        assert(!crate::paths::has_char(name, '.'));
    }
    assert forall|k: int|
        0 <= k < name.len() && (k == 0 || k == name.len() - 1) && #[trigger] name[k] == '.' && (forall|j: int|
            k < j < name.len() ==> name[j] != '.') implies extension_group(name) == no_extension_name() by {
        lemma_last_dot_at(name, k);
        if k > 0 {
            assert(name.skip(k + 1).len() == 0);
        }
    }
}

} // verus!
