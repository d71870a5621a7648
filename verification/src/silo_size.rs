//! SiloSize: the total size of the silo.
//!
//! The size of the silo is the sum of the sizes of every file under every
//! source folder that no exclude pattern removes, so it matches what rsync
//! mirrors with the same excludes.
//!
//! Exclude matching is keyword-based and simple:
//! - a keyword without a leading dot matches the exact folder or file name,
//!   at any depth
//! - a keyword starting with a dot is an extension keyword: it matches every
//!   file with that extension, ignoring upper and lower case
//! - a leading `*` on an extension keyword is sugar, so `*.mov` works like
//!   `.mov`
//! - an excluded directory prunes its whole subtree
//!
//! Failure policy: an unreadable sub-entry (a directory below the root that
//! cannot be listed among them) is skipped and the walk continues. Only a
//! source folder that is missing, not a directory, or unreadable aborts the
//! computation.

use vstd::prelude::*;
use crate::config::{ConfigError, ConfigErrorView, SiloSettings};
use crate::paths::{
    eq_ignore_ascii_case, eq_ignore_ascii_case_chars, extension, extension_chars,
};
use crate::scan::{visit_flags, visited, RootState, ScanEntry, ScanKind, SiloScan};
use crate::text::{
    chars_eq, chars_of, dec, dec_chars, extend_chars, is_ws, starts_with, string_of,
    sub_chars, trim, trim_chars, trim_end, trim_start, ws_prefix_len, ws_suffix_len, zero_pad,
    zero_pad_chars,
};

verus! {

/// Errors produced while computing the total silo size.
#[derive(Debug)]
pub enum SiloSizeError {
    /// The settings could not be loaded from the database.
    Settings(ConfigError),
    /// A source folder does not exist.
    PathDoesNotExist(String),
    /// A source folder is not a directory.
    PathNotADirectory(String),
    /// A source folder could not be read: the folder and the reason.
    Walk(String, String),
}

/// The view of a [`SiloSizeError`].
pub enum SiloSizeErrorView {
    Settings(ConfigErrorView),
    PathDoesNotExist(Seq<char>),
    PathNotADirectory(Seq<char>),
    Walk(Seq<char>, Seq<char>),
}

impl View for SiloSizeError {
    type V = SiloSizeErrorView;

    open spec fn view(&self) -> SiloSizeErrorView {
        match self {
            SiloSizeError::Settings(e) => SiloSizeErrorView::Settings(e@),
            SiloSizeError::PathDoesNotExist(p) => SiloSizeErrorView::PathDoesNotExist(p@),
            SiloSizeError::PathNotADirectory(p) => SiloSizeErrorView::PathNotADirectory(p@),
            SiloSizeError::Walk(p, e) => SiloSizeErrorView::Walk(p@, e@),
        }
    }
}

/// The view of a size result.
pub open spec fn size_result_view(r: Result<u64, SiloSizeError>) -> Result<nat, SiloSizeErrorView> {
    match r {
        Ok(v) => Ok(v as nat),
        Err(e) => Err(e@),
    }
}

/// The file extension of `name`, or the empty text when it has none.
pub open spec fn extension_or_empty(name: Seq<char>) -> Seq<char> {
    match extension(name) {
        Some(e) => e,
        None => Seq::empty(),
    }
}

/// Whether one exclude pattern excludes an entry named `name`.
///
/// The pattern is trimmed first; an empty pattern excludes nothing. A
/// pattern starting with `.` or `*.` is an extension keyword: it never
/// matches a directory, and matches a file whose extension equals the
/// (trimmed, non-empty) keyword, ignoring ASCII case. Any other pattern
/// matches the exact name.
pub open spec fn pattern_excludes(pattern: Seq<char>, name: Seq<char>, is_dir: bool) -> bool {
    let p = trim(pattern);
    if p.len() == 0 {
        false
    } else if starts_with(p, seq!['.']) || starts_with(p, seq!['*', '.']) {
        let ext = if starts_with(p, seq!['.']) { p.skip(1) } else { p.skip(2) };
        if is_dir {
            false
        } else {
            let e = trim(ext);
            e.len() > 0 && eq_ignore_ascii_case(extension_or_empty(name), e)
        }
    } else {
        name == p
    }
}

/// Whether any of the patterns excludes an entry named `name`.
pub open spec fn excluded(name: Seq<char>, is_dir: bool, excludes: Seq<String>) -> bool {
    exists|i: int| 0 <= i < excludes.len() && pattern_excludes(#[trigger] excludes[i]@, name, is_dir)
}

fn pattern_matches(pattern: &str, name: &[char], is_dir: bool) -> (r: bool)
    ensures
        r == pattern_excludes(pattern@, name@, is_dir),
{
    let pc = chars_of(pattern);
    let p = trim_chars(&pc);
    if p.len() == 0 {
        return false;
    }
    let dot = p[0] == '.';
    let star_dot = p.len() >= 2 && p[0] == '*' && p[1] == '.';
    proof {
        assert(dot == starts_with(p@, seq!['.'])) by {
            if p@.len() >= 1 {
                assert(dot ==> p@.take(1) =~= seq!['.']);
                assert(p@.take(1) == seq!['.'] ==> p@[0] == '.') by {
                    if p@.take(1) == seq!['.'] {
                        assert(p@.take(1)[0] == p@[0]);
                    }
                }
            }
        }
        assert(star_dot == starts_with(p@, seq!['*', '.'])) by {
            if p@.len() >= 2 {
                assert(star_dot ==> p@.take(2) =~= seq!['*', '.']);
                if p@.take(2) == seq!['*', '.'] {
                    assert(p@.take(2)[0] == p@[0]);
                    assert(p@.take(2)[1] == p@[1]);
                }
            }
        }
    }
    if dot || star_dot {
        if is_dir {
            return false;
        }
        let rest = if dot { sub_chars(&p, 1, p.len()) } else { sub_chars(&p, 2, p.len()) };
        let e = trim_chars(&rest);
        if e.len() == 0 {
            return false;
        }
        let fe = match extension_chars(name) {
            Some(x) => x,
            None => Vec::new(),
        };
        eq_ignore_ascii_case_chars(&fe, &e)
    } else {
        chars_eq(name, &p)
    }
}

/// Whether an entry is excluded by any pattern.
///
/// A pattern without a leading dot matches the entry's exact name, at any
/// depth. A pattern starting with a dot is an extension keyword: it matches
/// every file whose extension equals the pattern, ignoring upper and lower
/// case. A leading `*` on an extension keyword is sugar, so `*.mov` works
/// like `.mov`. Extension keywords never match folders, and empty patterns
/// never exclude.
pub fn is_excluded(name: &str, is_dir: bool, excludes: &Vec<String>) -> (r: bool)
    ensures
        r == excluded(name@, is_dir, excludes@),
{
    let n = chars_of(name);
    let mut i: usize = 0;
    while i < excludes.len()
        invariant
            i <= excludes@.len(),
            n@ == name@,
            forall|k: int| 0 <= k < i ==> !pattern_excludes(#[trigger] excludes@[k]@, name@, is_dir),
        decreases excludes@.len() - i,
    {
        if pattern_matches(excludes[i].as_str(), &n, is_dir) {
            return true;
        }
        i += 1;
    }
    false
}

/// The size a walk counts for entry `i`: the size of a regular file it
/// reaches that no pattern excludes and whose metadata was read; zero for
/// anything else. Symbolic links are not followed.
pub open spec fn counted_size(es: Seq<ScanEntry>, ex: Seq<String>, i: int) -> nat {
    if visited(es, ex, i) && !excluded(es[i].name@, false, ex) {
        match es[i].kind {
            ScanKind::File { meta: Ok(m) } => m.len as nat,
            _ => 0,
        }
    } else {
        0
    }
}

/// The sum of [`counted_size`] over the first `n` entries.
pub open spec fn size_sum(es: Seq<ScanEntry>, ex: Seq<String>, n: int) -> nat
    decreases n,
{
    if n <= 0 {
        0
    } else {
        size_sum(es, ex, n - 1) + counted_size(es, ex, n - 1)
    }
}

/// The size of one source folder, or why it cannot be computed. Only the
/// root can fail: a directory below it that cannot be listed is skipped,
/// like every other sub-entry that cannot be read.
#[verifier::opaque]
pub open spec fn folder_size_result(scan: SiloScan, ex: Seq<String>) -> Result<nat, SiloSizeErrorView> {
    match scan.state {
        RootState::Missing => Err(SiloSizeErrorView::PathDoesNotExist(scan.root@)),
        RootState::NotADirectory => Err(SiloSizeErrorView::PathNotADirectory(scan.root@)),
        RootState::Unreadable { error } => Err(SiloSizeErrorView::Walk(scan.root@, error@)),
        RootState::Listed => Ok(size_sum(scan.entries@, ex, scan.entries@.len() as int)),
    }
}

/// The sum that the walk of one folder accumulates.
#[verifier::opaque]
pub open spec fn folder_partial_sum(scan: SiloScan, ex: Seq<String>) -> nat {
    match scan.state {
        RootState::Listed => size_sum(scan.entries@, ex, scan.entries@.len() as int),
        _ => 0,
    }
}

proof fn lemma_size_sum_monotone(es: Seq<ScanEntry>, ex: Seq<String>, a: int, b: int)
    requires
        a <= b,
    ensures
        size_sum(es, ex, a) <= size_sum(es, ex, b),
    decreases b - a,
{
    if a < b {
        lemma_size_sum_monotone(es, ex, a, b - 1);
    }
}

/// The size of one source folder in bytes, ignoring excluded entries.
///
/// The root must exist, be a directory, and be readable. Unreadable
/// sub-entries, directories below the root that cannot be listed among
/// them, are skipped, matching the module's failure policy.
pub fn path_size_bytes(scan: &SiloScan, excludes: &Vec<String>) -> (r: Result<u64, SiloSizeError>)
    requires
        folder_partial_sum(*scan, excludes@) <= u64::MAX,
    ensures
        size_result_view(r) == folder_size_result(*scan, excludes@),
{
    proof {
        reveal(folder_size_result);
        reveal(folder_partial_sum);
    }
    match &scan.state {
        RootState::Missing => {
            return Err(SiloSizeError::PathDoesNotExist(scan.root.clone()));
        },
        RootState::NotADirectory => {
            return Err(SiloSizeError::PathNotADirectory(scan.root.clone()));
        },
        RootState::Unreadable { error } => {
            return Err(SiloSizeError::Walk(scan.root.clone(), error.clone()));
        },
        RootState::Listed => {},
    }
    let es = &scan.entries;
    let ghost ex = excludes@;
    let (vis, _ent) = visit_flags(es, excludes);
    let mut total: u64 = 0;
    let mut i: usize = 0;
    while i < es.len()
        invariant
            i <= es@.len(),
            es@ == scan.entries@,
            ex == excludes@,
            vis@.len() == es@.len(),
            forall|k: int| 0 <= k < es@.len() ==> vis@[k] == visited(es@, ex, k),
            total == size_sum(es@, ex, i as int),
            size_sum(es@, ex, es@.len() as int) <= u64::MAX,
        decreases es@.len() - i,
    {
        let e = &es[i];
        if vis[i] {
            match &e.kind {
                ScanKind::File { meta: Ok(m) } => {
                    if !is_excluded(e.name.as_str(), false, excludes) {
                        proof {
                            lemma_size_sum_monotone(es@, ex, i as int + 1, es@.len() as int);
                        }
                        total = total + m.len;
                    }
                },
                _ => {},
            }
        }
        i += 1;
    }
    Ok(total)
}

} // verus!

verus! {

/// The running total over the first `n` folders: the first error among
/// them, or the sum of their sizes.
pub open spec fn totals_upto(scans: Seq<SiloScan>, ex: Seq<String>, n: int) -> Result<nat, SiloSizeErrorView>
    decreases n,
{
    if n <= 0 {
        Ok(0)
    } else {
        match totals_upto(scans, ex, n - 1) {
            Err(e) => Err(e),
            Ok(t) => match folder_size_result(scans[n - 1], ex) {
                Err(e) => Err(e),
                Ok(v) => Ok(t + v),
            },
        }
    }
}

/// Every total the computation accumulates fits in a `u64`: each folder's
/// running sum, and the running sum over folders.
#[verifier::opaque]
pub open spec fn totals_fit(scans: Seq<SiloScan>, ex: Seq<String>) -> bool {
    forall|k: int| 0 <= k < scans.len() && totals_upto(scans, ex, k) is Ok ==> {
        &&& folder_partial_sum(#[trigger] scans[k], ex) <= u64::MAX
        &&& (totals_upto(scans, ex, k + 1) matches Ok(t) ==> t <= u64::MAX)
    }
}

/// The total size of the silo in bytes, ignoring excluded entries.
///
/// Sums the size of every non-excluded file under every scanned source
/// folder, in order; the first folder that cannot be sized ends the
/// computation with its error.
pub fn total_size_bytes(scans: &Vec<SiloScan>, excludes: &Vec<String>) -> (r: Result<u64, SiloSizeError>)
    requires
        totals_fit(scans@, excludes@),
    ensures
        size_result_view(r) == totals_upto(scans@, excludes@, scans@.len() as int),
{
    let mut total: u64 = 0;
    let mut i: usize = 0;
    while i < scans.len()
        invariant
            i <= scans@.len(),
            totals_fit(scans@, excludes@),
            totals_upto(scans@, excludes@, i as int) == Ok::<nat, SiloSizeErrorView>(total as nat),
        decreases scans@.len() - i,
    {
        proof {
            lemma_totals_fit_at(scans@, excludes@, i as int);
        }
        let r = path_size_bytes(&scans[i], excludes);
        match r {
            Err(e) => {
                assert(totals_upto(scans@, excludes@, i as int + 1) == Err::<nat, SiloSizeErrorView>(e@));
                proof {
                    lemma_totals_err_stays(scans@, excludes@, i as int + 1, scans@.len() as int);
                }
                return Err(e);
            },
            Ok(v) => {
                assert(totals_upto(scans@, excludes@, i as int + 1) == Ok::<nat, SiloSizeErrorView>((total + v) as nat));
                total = total + v;
            },
        }
        i += 1;
    }
    Ok(total)
}

proof fn lemma_totals_err_stays(scans: Seq<SiloScan>, ex: Seq<String>, a: int, b: int)
    requires
        0 <= a <= b,
        totals_upto(scans, ex, a) is Err,
    ensures
        totals_upto(scans, ex, b) == totals_upto(scans, ex, a),
    decreases b - a,
{
    if a < b {
        lemma_totals_err_stays(scans, ex, a, b - 1);
    }
}

proof fn lemma_totals_fit_at(scans: Seq<SiloScan>, ex: Seq<String>, k: int)
    requires
        totals_fit(scans, ex),
        0 <= k < scans.len(),
        totals_upto(scans, ex, k) is Ok,
    ensures
        folder_partial_sum(scans[k], ex) <= u64::MAX,
        totals_upto(scans, ex, k + 1) matches Ok(t) ==> t <= u64::MAX,
{
    reveal(totals_fit);
    assert(folder_partial_sum(scans[k], ex) <= u64::MAX);
}

/// What [`compute`] returns for given settings and folder scans.
pub open spec fn compute_result(settings: Result<SiloSettings, ConfigError>, scans: Seq<SiloScan>) -> Result<nat, SiloSizeErrorView> {
    match settings {
        Err(e) => Err(SiloSizeErrorView::Settings(e@)),
        Ok(s) => totals_upto(scans, s.excludes@, scans.len() as int),
    }
}

/// Whether `scans` are the scans of the settings' source folders, in order,
/// and the totals they give fit in a `u64`.
pub open spec fn scans_of_settings(settings: Result<SiloSettings, ConfigError>, scans: Seq<SiloScan>) -> bool {
    settings matches Ok(s) ==> {
        &&& scans.len() == s.silo_data_paths@.len()
        &&& forall|k: int| 0 <= k < scans.len() ==> #[trigger] scans[k].root@ == s.silo_data_paths@[k]@
        &&& totals_fit(scans, s.excludes@)
    }
}

/// Compute the total silo size from the loaded settings.
///
/// `settings` is the result of loading the settings from the database and
/// `scans` are the scans of its source folders, in order. A settings error
/// becomes [`SiloSizeError::Settings`]; otherwise the result is
/// [`total_size_bytes`] over the folders with the stored exclude patterns.
pub fn compute(settings: Result<SiloSettings, ConfigError>, scans: &Vec<SiloScan>) -> (r: Result<u64, SiloSizeError>)
    requires
        scans_of_settings(settings, scans@),
    ensures
        size_result_view(r) == compute_result(settings, scans@),
{
    match settings {
        Err(e) => Err(SiloSizeError::Settings(e)),
        Ok(s) => total_size_bytes(scans, &s.excludes),
    }
}

/// The number of whole powers of 1024 in the binary unit `u`.
pub open spec fn pow1024(u: nat) -> nat
    decreases u,
{
    if u == 0 { 1 } else { 1024 * pow1024((u - 1) as nat) }
}

/// The binary unit a non-zero byte count is shown in: the largest of
/// B, KiB, MiB, GiB, TiB, PiB that is not larger than the count.
pub open spec fn size_unit(bytes: nat) -> nat {
    if bytes >= pow1024(5) { 5 }
    else if bytes >= pow1024(4) { 4 }
    else if bytes >= pow1024(3) { 3 }
    else if bytes >= pow1024(2) { 2 }
    else if bytes >= pow1024(1) { 1 }
    else { 0 }
}

/// The name of binary unit `u`.
pub open spec fn unit_name(u: nat) -> Seq<char> {
    if u == 0 { seq!['B'] }
    else if u == 1 { seq!['K', 'i', 'B'] }
    else if u == 2 { seq!['M', 'i', 'B'] }
    else if u == 3 { seq!['G', 'i', 'B'] }
    else if u == 4 { seq!['T', 'i', 'B'] }
    else { seq!['P', 'i', 'B'] }
}

/// `n / d` rounded to the nearest integer, ties to the even neighbour.
pub open spec fn round_half_even(n: nat, d: nat) -> nat
    recommends
        d > 0,
{
    let q = n / d;
    let r = n % d;
    if 2 * r > d {
        q + 1
    } else if 2 * r < d {
        q
    } else if q % 2 == 0 {
        q
    } else {
        q + 1
    }
}

/// The value of a non-zero byte count in its unit, in hundredths, rounded
/// to the nearest hundredth with ties to even.
pub open spec fn size_hundredths(bytes: nat) -> nat {
    round_half_even(bytes * 100, pow1024(size_unit(bytes)))
}

/// The human-readable label of a byte count: `0 B` for zero, and otherwise
/// the value in its binary unit with two decimals, a space, and the unit,
/// for example `6.91 GiB`.
pub open spec fn human_size_text(bytes: nat) -> Seq<char> {
    if bytes == 0 {
        seq!['0', ' ', 'B']
    } else {
        let h = size_hundredths(bytes);
        dec(h / 100) + seq!['.'] + zero_pad(dec(h % 100), 2) + seq![' '] + unit_name(size_unit(bytes))
    }
}

proof fn lemma_pow1024_values()
    ensures
        pow1024(0) == 1,
        pow1024(1) == 1024,
        pow1024(2) == 1048576,
        pow1024(3) == 1073741824,
        pow1024(4) == 1099511627776,
        pow1024(5) == 1125899906842624,
{
    reveal_with_fuel(pow1024, 6);
}

fn unit_chars(u: u64) -> (r: Vec<char>)
    requires
        u <= 5,
    ensures
        r@ == unit_name(u as nat),
{
    let mut r: Vec<char> = Vec::new();
    if u == 0 {
        r.push('B');
    } else {
        if u == 1 {
            r.push('K');
        } else if u == 2 {
            r.push('M');
        } else if u == 3 {
            r.push('G');
        } else if u == 4 {
            r.push('T');
        } else {
            r.push('P');
        }
        r.push('i');
        r.push('B');
    }
    r
}

/// Format a byte count as a human-readable size string.
///
/// Uses binary units: 1 KiB = 1024 bytes. A zero count renders as `0 B`;
/// everything else prints with two decimal places and a space, so 6.91 GiB
/// renders as `6.91 GiB`.
pub fn human_size(bytes: u64) -> (r: String)
    ensures
        r@ == human_size_text(bytes as nat),
{
    if bytes == 0 {
        let mut v: Vec<char> = Vec::new();
        v.push('0');
        v.push(' ');
        v.push('B');
        return string_of(&v);
    }
    proof {
        lemma_pow1024_values();
    }
    let unit: u64 = if bytes >= 1125899906842624 { 5 }
        else if bytes >= 1099511627776 { 4 }
        else if bytes >= 1073741824 { 3 }
        else if bytes >= 1048576 { 2 }
        else if bytes >= 1024 { 1 }
        else { 0 };
    let div: u128 = if unit == 5 { 1125899906842624 }
        else if unit == 4 { 1099511627776 }
        else if unit == 3 { 1073741824 }
        else if unit == 2 { 1048576 }
        else if unit == 1 { 1024 }
        else { 1 };
    assert(div == pow1024(size_unit(bytes as nat)));
    let n: u128 = (bytes as u128) * 100;
    let q = n / div;
    let rem = n % div;
    let h: u128 = if 2 * rem > div {
        q + 1
    } else if 2 * rem < div {
        q
    } else if q % 2 == 0 {
        q
    } else {
        q + 1
    };
    assert(h == size_hundredths(bytes as nat));
    if div == 1 {
        assert(rem == 0);
        assert(h == q);
        assert(q == n);
    } else {
        assert(q <= n / 2) by (nonlinear_arith)
            requires
                q == n / div,
                div >= 2,
        {
        }
    }
    assert(h <= n);
    let whole = dec_chars((h / 100) as u64);
    let frac = dec_chars((h % 100) as u64);
    let frac2 = zero_pad_chars(&frac, 2);
    let mut v: Vec<char> = Vec::new();
    extend_chars(&mut v, &whole);
    v.push('.');
    extend_chars(&mut v, &frac2);
    v.push(' ');
    let un = unit_chars(unit);
    extend_chars(&mut v, &un);
    assert(v@ == human_size_text(bytes as nat));
    string_of(&v)
}

/// The total silo size as a human-readable label.
///
/// Formats the result of [`compute`] through [`human_size`]. Any error maps
/// to the label `N/A`, so the UI can show a fallback.
pub fn silo_size_label(settings: Result<SiloSettings, ConfigError>, scans: &Vec<SiloScan>) -> (r: String)
    requires
        scans_of_settings(settings, scans@),
    ensures
        r@ == match compute_result(settings, scans@) {
            Ok(b) => human_size_text(b),
            Err(_) => seq!['N', '/', 'A'],
        },
{
    match compute(settings, scans) {
        Ok(bytes) => human_size(bytes),
        Err(_) => {
            let mut v: Vec<char> = Vec::new();
            v.push('N');
            v.push('/');
            v.push('A');
            string_of(&v)
        },
    }
}

} // verus!

verus! {

/// Whether entry `i` lies inside directory entry `d`: `d` is its parent, or
/// the parent of one of its ancestors.
pub open spec fn inside(es: Seq<ScanEntry>, d: int, i: int) -> bool
    decreases i,
{
    if 0 <= i < es.len() {
        let p = es[i].parent as int;
        p >= 1 && p - 1 < i && (p - 1 == d || inside(es, d, p - 1))
    } else {
        false
    }
}

/// An excluded directory prunes its whole subtree: no walk reaches any
/// entry inside it, so nothing inside it counts toward the size.
pub proof fn lemma_excluded_dir_prunes(es: Seq<ScanEntry>, ex: Seq<String>, d: int, i: int)
    requires
        0 <= d < es.len(),
        excluded(es[d].name@, true, ex),
        inside(es, d, i),
    ensures
        !visited(es, ex, i),
        counted_size(es, ex, i) == 0,
    decreases i,
{
    let p = es[i].parent as int;
    if p - 1 != d {
        lemma_excluded_dir_prunes(es, ex, d, p - 1);
    }
}

proof fn lemma_ws_suffix_star(q: Seq<char>)
    requires
        q.len() > 0,
        !is_ws(q[0]),
    ensures
        ws_suffix_len(seq!['*'] + q) == ws_suffix_len(q),
        ws_suffix_len(q) < q.len(),
    decreases q.len(),
{
    let s = seq!['*'] + q;
    assert(s.last() == q.last());
    if q.len() > 1 && is_ws(q.last()) {
        assert(s.drop_last() =~= seq!['*'] + q.drop_last());
        assert(q.drop_last()[0] == q[0]);
        lemma_ws_suffix_star(q.drop_last());
    }
}

proof fn lemma_trim_star(q: Seq<char>)
    requires
        q.len() > 0,
        q[0] == '.',
    ensures
        trim(seq!['*'] + q) == seq!['*'] + trim(q),
        trim(q).len() > 0,
        trim(q)[0] == '.',
{
    let s = seq!['*'] + q;
    assert(!is_ws('*'));
    assert(!is_ws('.'));
    assert(ws_prefix_len(s) == 0);
    assert(ws_prefix_len(q) == 0);
    assert(trim_start(s) =~= s);
    assert(trim_start(q) =~= q);
    lemma_ws_suffix_star(q);
    assert(trim_end(s) =~= seq!['*'] + trim_end(q));
}

/// A leading `*` on an extension keyword is sugar: `*.mov` excludes
/// exactly what `.mov` excludes.
pub proof fn lemma_star_extension_sugar(q: Seq<char>, name: Seq<char>, is_dir: bool)
    requires
        q.len() > 0,
        q[0] == '.',
    ensures
        pattern_excludes(seq!['*'] + q, name, is_dir) == pattern_excludes(q, name, is_dir),
{
    lemma_trim_star(q);
    let p1 = seq!['*'] + trim(q);
    let p2 = trim(q);
    assert(starts_with(p2, seq!['.'])) by {
        assert(p2.take(1) =~= seq!['.']);
    }
    assert(!starts_with(p1, seq!['.'])) by {
        assert(p1.take(1)[0] == '*');
    }
    assert(starts_with(p1, seq!['*', '.'])) by {
        assert(p1.take(2) =~= seq!['*', '.']);
    }
    assert(p1.skip(2) =~= p2.skip(1));
}

} // verus!

verus! {

/// The sentence that describes a silo size error.
pub open spec fn size_error_text(e: SiloSizeErrorView) -> Seq<char> {
    match e {
        SiloSizeErrorView::Settings(c) => "could not load the settings: "@ + crate::config::config_error_text(c),
        SiloSizeErrorView::PathDoesNotExist(p) => "source folder does not exist: "@ + p,
        SiloSizeErrorView::PathNotADirectory(p) => "source folder is not a directory: "@ + p,
        SiloSizeErrorView::Walk(p, e) => "could not read source folder "@ + p + ": "@ + e,
    }
}

impl SiloSizeError {
    /// The error as a sentence for the user.
    pub fn message(&self) -> (r: String)
        ensures
            r@ == size_error_text(self@),
    {
        let mut v: Vec<char>;
        match self {
            SiloSizeError::Settings(c) => {
                v = chars_of("could not load the settings: ");
                let m = c.message();
                let mc = chars_of(m.as_str());
                extend_chars(&mut v, &mc);
            },
            SiloSizeError::PathDoesNotExist(p) => {
                v = chars_of("source folder does not exist: ");
                let pc = chars_of(p.as_str());
                extend_chars(&mut v, &pc);
            },
            SiloSizeError::PathNotADirectory(p) => {
                v = chars_of("source folder is not a directory: ");
                let pc = chars_of(p.as_str());
                extend_chars(&mut v, &pc);
            },
            SiloSizeError::Walk(p, e) => {
                v = chars_of("could not read source folder ");
                let pc = chars_of(p.as_str());
                extend_chars(&mut v, &pc);
                let sep = chars_of(": ");
                extend_chars(&mut v, &sep);
                let ec = chars_of(e.as_str());
                extend_chars(&mut v, &ec);
            },
        }
        string_of(&v)
    }
}

} // verus!

verus! {

/// A non-zero size is shown in the largest binary unit it reaches (1 KiB
/// is 1024 bytes), so the value shown is at least 1 and, below PiB, less
/// than 1024; and the two decimals are the value rounded to the nearest
/// hundredth.
pub proof fn lemma_human_size_unit(bytes: nat)
    requires
        bytes > 0,
    ensures
        pow1024(size_unit(bytes)) <= bytes,
        size_unit(bytes) < 5 ==> bytes < 1024 * pow1024(size_unit(bytes)),
        ({
            let d = pow1024(size_unit(bytes));
            let h = size_hundredths(bytes);
            2 * h * d <= 2 * bytes * 100 + d && 2 * bytes * 100 <= 2 * h * d + d
        }),
{
    lemma_pow1024_values();
    let d = pow1024(size_unit(bytes));
    let n = bytes * 100;
    assert(d > 0);
    let q = n / d;
    let r = n % d;
    vstd::arithmetic::div_mod::lemma_fundamental_div_mod(n as int, d as int);
    assert(n == d * q + r);
    assert(0 <= r < d);
    let h = size_hundredths(bytes);
    assert(h == q || h == q + 1);
    if h == q {
        assert(2 * r <= d);
        assert(2 * h * d <= 2 * n + d) by (nonlinear_arith)
            requires
                n == d * q + r,
                h == q,
                r >= 0,
                d > 0,
        ;
        assert(2 * n <= 2 * h * d + d) by (nonlinear_arith)
            requires
                n == d * q + r,
                h == q,
                2 * r <= d,
        ;
    } else {
        assert(2 * r >= d);
        assert(2 * h * d <= 2 * n + d) by (nonlinear_arith)
            requires
                n == d * q + r,
                h == q + 1,
                2 * r >= d,
        ;
        assert(2 * n <= 2 * h * d + d) by (nonlinear_arith)
            requires
                n == d * q + r,
                h == q + 1,
                r < d,
                d > 0,
        ;
    }
}

} // verus!

verus! {

proof fn lemma_excluded_more(name: Seq<char>, is_dir: bool, ex: Seq<String>, more: Seq<String>)
    requires
        excluded(name, is_dir, ex),
    ensures
        excluded(name, is_dir, ex + more),
{
    let i = choose|i: int| 0 <= i < ex.len() && pattern_excludes(#[trigger] ex[i]@, name, is_dir);
    assert((ex + more)[i] == ex[i]);
}

proof fn lemma_visited_more(es: Seq<ScanEntry>, ex: Seq<String>, more: Seq<String>, i: int)
    requires
        visited(es, ex + more, i),
    ensures
        visited(es, ex, i),
    decreases i,
{
    let p = es[i].parent as int;
    if p != 0 {
        lemma_visited_more(es, ex, more, p - 1);
        if excluded(es[p - 1].name@, true, ex) {
            lemma_excluded_more(es[p - 1].name@, true, ex, more);
        }
    }
}

proof fn lemma_size_sum_more(es: Seq<ScanEntry>, ex: Seq<String>, more: Seq<String>, n: int)
    ensures
        size_sum(es, ex + more, n) <= size_sum(es, ex, n),
    decreases n,
{
    if n > 0 {
        lemma_size_sum_more(es, ex, more, n - 1);
        if visited(es, ex + more, n - 1) {
            lemma_visited_more(es, ex, more, n - 1);
            if excluded(es[n - 1].name@, false, ex) {
                lemma_excluded_more(es[n - 1].name@, false, ex, more);
            }
        }
    }
}

/// Adding exclude patterns never increases the total over the first `n`
/// folders: the same folders fail, and otherwise the total with more
/// patterns is at most the total without them.
proof fn lemma_totals_more_excludes(scans: Seq<SiloScan>, ex: Seq<String>, more: Seq<String>, n: int)
    requires
        0 <= n <= scans.len(),
    ensures
        (totals_upto(scans, ex + more, n) is Ok) == (totals_upto(scans, ex, n) is Ok),
        totals_upto(scans, ex + more, n) is Ok ==> totals_upto(scans, ex + more, n)->Ok_0 <= totals_upto(scans, ex, n)->Ok_0,
        totals_upto(scans, ex + more, n) is Err ==> totals_upto(scans, ex, n) == totals_upto(scans, ex + more, n),
    decreases n,
{
    if n > 0 {
        lemma_totals_more_excludes(scans, ex, more, n - 1);
        reveal(folder_size_result);
        let s = scans[n - 1];
        lemma_size_sum_more(s.entries@, ex, more, s.entries@.len() as int);
    }
}

/// What `total_size_bytes` gives for the same folders read the same way:
/// with the exclude patterns `ex` followed by `more` it fails exactly when
/// it fails with `ex` alone, with the same error, and otherwise its total
/// is never larger. With no folders at all, the total is zero, whatever
/// the patterns.
pub proof fn lemma_more_excludes_never_increase(scans: Seq<SiloScan>, ex: Seq<String>, more: Seq<String>)
    ensures
        totals_upto(Seq::<SiloScan>::empty(), ex, 0) == Ok::<nat, SiloSizeErrorView>(0),
        ({
            let with_more = totals_upto(scans, ex + more, scans.len() as int);
            let without = totals_upto(scans, ex, scans.len() as int);
            &&& (with_more is Ok) == (without is Ok)
            &&& with_more matches Ok(b) ==> without matches Ok(a) && b <= a
            &&& with_more is Err ==> with_more == without
        }),
{
    lemma_totals_more_excludes(scans, ex, more, scans.len() as int);
}

/// A pattern that is not an extension keyword (after trimming it does not
/// start with `.` or `*.`) excludes exactly the entries, files or folders,
/// whose name is the trimmed pattern: a name that only begins or ends with
/// it, or contains it, is not excluded.
pub proof fn lemma_name_pattern_matches_exact_name(name: Seq<char>, is_dir: bool, pattern: String)
    requires
        trim(pattern@).len() > 0,
        trim(pattern@)[0] != '.',
        !(trim(pattern@).len() >= 2 && trim(pattern@)[0] == '*' && trim(pattern@)[1] == '.'),
    ensures
        excluded(name, is_dir, seq![pattern]) <==> name == trim(pattern@),
{
    let p = trim(pattern@);
    assert(!starts_with(p, seq!['.'])) by {
        if starts_with(p, seq!['.']) {
            assert(p.take(1)[0] == p[0]);
        }
    }
    assert(!starts_with(p, seq!['*', '.'])) by {
        if starts_with(p, seq!['*', '.']) {
            assert(p.take(2)[0] == p[0]);
            assert(p.take(2)[1] == p[1]);
        }
    }
    assert(seq![pattern][0] == pattern);
}

/// An extension keyword `.e` or `*.e` (trimmed, with a non-empty trimmed
/// `e`) never excludes a folder, and excludes a file exactly when the
/// file's name has an extension equal to `e` up to ASCII case.
pub proof fn lemma_extension_pattern_matches_extension(name: Seq<char>, pattern: String, e: Seq<char>)
    requires
        trim(pattern@) == seq!['.'] + e || trim(pattern@) == seq!['*', '.'] + e,
        trim(e) == e,
        e.len() > 0,
    ensures
        !excluded(name, true, seq![pattern]),
        excluded(name, false, seq![pattern]) <==> (match extension(name) {
            Some(x) => eq_ignore_ascii_case(x, e),
            None => false,
        }),
{
    let p = trim(pattern@);
    assert(seq![pattern][0] == pattern);
    if p == seq!['.'] + e {
        assert(p.take(1) =~= seq!['.']);
        assert(p.skip(1) =~= e);
    } else {
        assert(p.take(2) =~= seq!['*', '.']);
        assert(p.skip(2) =~= e);
        assert(!starts_with(p, seq!['.'])) by {
            assert(p.take(1)[0] == '*');
        }
    }
    if extension(name) is None {
        assert(extension_or_empty(name).len() == 0);
    }
}

/// A list of patterns excludes an entry exactly when one of its patterns
/// alone does.
pub proof fn lemma_excluded_by_one_pattern(name: Seq<char>, is_dir: bool, ex: Seq<String>)
    ensures
        excluded(name, is_dir, ex) <==> exists|i: int| 0 <= i < ex.len() && #[trigger] excluded(name, is_dir, seq![ex[i]]),
{
    if excluded(name, is_dir, ex) {
        let i = choose|i: int| 0 <= i < ex.len() && pattern_excludes(#[trigger] ex[i]@, name, is_dir);
        assert(seq![ex[i]][0] == ex[i]);
        assert(excluded(name, is_dir, seq![ex[i]]));
    }
    if exists|i: int| 0 <= i < ex.len() && #[trigger] excluded(name, is_dir, seq![ex[i]]) {
        let i = choose|i: int| 0 <= i < ex.len() && #[trigger] excluded(name, is_dir, seq![ex[i]]);
        let k = choose|k: int| 0 <= k < 1 && pattern_excludes(#[trigger] seq![ex[i]][k]@, name, is_dir);
        assert(k == 0);
        assert(seq![ex[i]][0] == ex[i]);
    }
}

/// Appending an entry does not change whether the earlier ones are reached.
proof fn lemma_visited_push(es: Seq<ScanEntry>, e: ScanEntry, ex: Seq<String>, k: int)
    requires
        0 <= k < es.len(),
    ensures
        visited(es.push(e), ex, k) == visited(es, ex, k),
    decreases k,
{
    let p = es[k].parent as int;
    assert(es.push(e)[k] == es[k]);
    if p != 0 && p - 1 < k {
        lemma_visited_push(es, e, ex, p - 1);
        assert(es.push(e)[p - 1] == es[p - 1]);
    }
}

/// Appending an entry does not change what the earlier ones count.
proof fn lemma_size_sum_push(es: Seq<ScanEntry>, e: ScanEntry, ex: Seq<String>, n: int)
    requires
        0 <= n <= es.len(),
    ensures
        size_sum(es.push(e), ex, n) == size_sum(es, ex, n),
    decreases n,
{
    if n > 0 {
        lemma_size_sum_push(es, e, ex, n - 1);
        lemma_visited_push(es, e, ex, n - 1);
        assert(es.push(e)[n - 1] == es[n - 1]);
    }
}

/// How one more entry changes a folder's size: a regular file directly in
/// the folder, whose size was read and that no pattern excludes, adds its
/// size; a file that a pattern excludes, a symbolic link (links are not
/// followed), a directory entry itself, and an entry that could not be
/// read add nothing.
pub proof fn lemma_one_more_entry(es: Seq<ScanEntry>, e: ScanEntry, ex: Seq<String>)
    ensures
        ({
            let before = size_sum(es, ex, es.len() as int);
            let after = size_sum(es.push(e), ex, es.len() as int + 1);
            &&& (e.parent == 0 && !excluded(e.name@, false, ex)) ==> (e.kind matches ScanKind::File { meta: Ok(m) }
                ==> after == before + m.len)
            &&& excluded(e.name@, false, ex) ==> after == before
            &&& !(e.kind matches ScanKind::File { meta: Ok(_) }) ==> after == before
        }),
{
    lemma_size_sum_push(es, e, ex, es.len() as int);
    let n = es.len() as int;
    assert(es.push(e)[n] == e);
    assert(size_sum(es.push(e), ex, n + 1) == size_sum(es.push(e), ex, n) + counted_size(es.push(e), ex, n));
}

} // verus!
