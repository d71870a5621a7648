//! StatusFormat: turns rsync dry-run and sync outcomes into STATUS lines.
//!
//! Pure text formatting with no UI state: the byte counts in rsync's stats
//! block are re-formatted to IEC units so they read in GiB like every other
//! size label.

use vstd::prelude::*;
use crate::numbers::{bytes_of_text, parse_bytes};
use crate::silo_size::{human_size, human_size_text};
use crate::sync_engine::{sync_error_text, DryRunOutcome, SyncError, SyncOutcome};
use crate::text::{
    char_is_ws, chars_eq, chars_of, dec_int, dec_int_chars, ends_with, extend_chars, find,
    find_chars, has_prefix, has_suffix, is_ws, occurs_at, rfind, rfind_chars, starts_with,
    string_of, sub_chars, trim, trim_chars, trim_start, trim_start_chars,
};
use crate::words::{char_views, join_from, joined, lines, split_lines, split_words, words};

verus! {

/// The kind of a status line; the view maps it to a theme color.
#[derive(Debug, Clone, Copy, PartialEq, Eq, Structural)]
pub enum StatusKind {
    /// Neutral progress information.
    Info,
    /// A successful outcome.
    Success,
    /// A failed outcome.
    Error,
}

/// One line of output in the Sync dialog STATUS box.
#[derive(Debug)]
pub struct StatusLine {
    /// How the line is categorized, which drives its color.
    pub kind: StatusKind,
    /// The text of the line.
    pub text: String,
}

impl View for StatusLine {
    type V = (StatusKind, Seq<char>);

    open spec fn view(&self) -> (StatusKind, Seq<char>) {
        (self.kind, self.text@)
    }
}

/// The views of a sequence of status lines.
pub open spec fn line_views(v: Seq<StatusLine>) -> Seq<(StatusKind, Seq<char>)> {
    v.map_values(|l: StatusLine| l@)
}

/// The human-readable label of a parsed byte count.
#[verifier::opaque]
pub open spec fn size_label(b: Option<u64>) -> Seq<char> {
    match b {
        Some(n) => human_size_text(n as nat),
        None => Seq::empty(),
    }
}

/// A `label: N bytes` line, or a `Total bytes ...: N` line, with its byte
/// count re-formatted.
pub open spec fn label_bytes_line(l: Seq<char>) -> Option<Seq<char>> {
    match rfind(l, ": "@) {
        Some(i) => {
            let label = l.take(i);
            let raw = l.skip(i + 2);
            let count = raw.take(raw.len() - " bytes"@.len());
            if ends_with(raw, " bytes"@) && bytes_of_text(count) is Some {
                Some(label + ": "@ + size_label(bytes_of_text(count)))
            } else if starts_with(label, "Total bytes"@) && bytes_of_text(raw) is Some {
                Some(label + ": "@ + size_label(bytes_of_text(raw)))
            } else {
                None
            }
        },
        None => None,
    }
}

/// A `sent N bytes  received M bytes ...` line with both counts
/// re-formatted.
pub open spec fn sent_line(l: Seq<char>) -> Option<Seq<char>> {
    let ts = words(l.skip("sent "@.len() as int));
    if starts_with(l, "sent "@) && ts.len() >= 5 && ts[1] == "bytes"@ && ts[2] == "received"@
        && ts[4] == "bytes"@ && bytes_of_text(ts[0]) is Some && bytes_of_text(ts[3]) is Some
    {
        Some("sent "@ + size_label(bytes_of_text(ts[0])) + "  received "@ + size_label(bytes_of_text(ts[3]))
            + "  "@ + joined(ts.skip(5), " "@))
    } else {
        None
    }
}

/// The index of the first whitespace character of `s`, if any.
pub open spec fn first_ws(s: Seq<char>) -> Option<int> {
    if exists|i: int| 0 <= i < s.len() && is_ws(s[i]) {
        Some(choose|i: int| 0 <= i < s.len() && is_ws(s[i]) && forall|j: int| 0 <= j < i ==> !is_ws(s[j]))
    } else {
        None
    }
}

/// A `total size is N  speedup is ...` line with its count re-formatted.
pub open spec fn total_size_line(l: Seq<char>) -> Option<Seq<char>> {
    let rest = l.skip("total size is "@.len() as int);
    if starts_with(l, "total size is "@) {
        match first_ws(rest) {
            Some(k) => if bytes_of_text(rest.take(k)) is Some {
                Some("total size is "@ + size_label(bytes_of_text(rest.take(k))) + " "@ + trim_start(rest.skip(k + 1)))
            } else {
                None
            },
            None => None,
        }
    } else {
        None
    }
}

/// One stats line with its byte counts re-formatted to IEC units; any
/// other line unchanged.
#[verifier::opaque]
pub open spec fn reformat_line(l: Seq<char>) -> Seq<char> {
    match label_bytes_line(l) {
        Some(r) => r,
        None => match sent_line(l) {
            Some(r) => r,
            None => match total_size_line(l) {
                Some(r) => r,
                None => l,
            },
        },
    }
}

fn human_chars(b: u64) -> (r: Vec<char>)
    ensures
        r@ == size_label(Some(b)),
{
    proof {
        reveal(size_label);
    }
    let h = human_size(b);
    chars_of(h.as_str())
}

fn first_ws_index(s: &[char]) -> (r: Option<usize>)
    ensures
        match r {
            Some(k) => first_ws(s@) == Some(k as int) && k < s.len(),
            None => first_ws(s@) is None,
        },
{
    let mut i: usize = 0;
    while i < s.len()
        invariant
            i <= s.len(),
            forall|j: int| 0 <= j < i ==> !is_ws(s@[j]),
        decreases s.len() - i,
    {
        if char_is_ws(s[i]) {
            proof {
                let c = choose|c: int| 0 <= c < s@.len() && is_ws(s@[c]) && forall|j: int| 0 <= j < c ==> !is_ws(s@[j]);
                if c > i {
                    assert(!is_ws(s@[i as int]));
                }
                assert(c == i);
            }
            return Some(i);
        }
        i += 1;
    }
    None
}

fn concat3(a: &[char], b: &[char], c: &[char]) -> (r: Vec<char>)
    ensures
        r@ == a@ + b@ + c@,
{
    let mut r: Vec<char> = Vec::new();
    extend_chars(&mut r, a);
    extend_chars(&mut r, b);
    extend_chars(&mut r, c);
    r
}

#[verifier::rlimit(40)]
fn label_bytes_chars(l: &[char]) -> (r: Option<Vec<char>>)
    ensures
        match r {
            Some(v) => label_bytes_line(l@) == Some(v@),
            None => label_bytes_line(l@) is None,
        },
{
    let sep = chars_of(": ");
    let suffix = chars_of(" bytes");
    let total = chars_of("Total bytes");
    proof {
        reveal_strlit(": ");
        reveal_strlit(" bytes");
    }
    match rfind_chars(l, &sep) {
        None => None,
        Some(i) => {
            assert(occurs_at(l@, ": "@, i as int));
            assert(": "@.len() == 2);
            let n = l.len();
            assert(i + 2 <= n);
            let label = sub_chars(l, 0, i);
            let raw = sub_chars(l, i + 2, n);
            assert(label@ =~= l@.take(i as int));
            assert(raw@ =~= l@.skip(i as int + 2));
            if has_suffix(&raw, &suffix) {
                let count = sub_chars(&raw, 0, raw.len() - suffix.len());
                assert(count@ =~= raw@.take(raw@.len() - " bytes"@.len()));
                match parse_bytes(&count) {
                    Some(b) => {
                        let h = human_chars(b);
                        return Some(concat3(&label, &sep, &h));
                    },
                    None => {},
                }
            }
            if has_prefix(&label, &total) {
                match parse_bytes(&raw) {
                    Some(b) => {
                        let h = human_chars(b);
                        return Some(concat3(&label, &sep, &h));
                    },
                    None => {},
                }
            }
            None
        },
    }
}

fn sent_chars(l: &[char]) -> (r: Option<Vec<char>>)
    ensures
        match r {
            Some(v) => sent_line(l@) == Some(v@),
            None => sent_line(l@) is None,
        },
{
    let prefix = chars_of("sent ");
    if !has_prefix(l, &prefix) {
        return None;
    }
    let rest = sub_chars(l, prefix.len(), l.len());
    assert(rest@ =~= l@.skip("sent "@.len() as int));
    let ts = split_words(&rest);
    let ghost tv = char_views(ts@);
    if ts.len() < 5 {
        return None;
    }
    assert(tv[0] == ts@[0]@ && tv[1] == ts@[1]@ && tv[2] == ts@[2]@ && tv[3] == ts@[3]@ && tv[4] == ts@[4]@);
    let bytes_word = chars_of("bytes");
    let received_word = chars_of("received");
    if !(chars_eq(ts[1].as_slice(), &bytes_word) && chars_eq(ts[2].as_slice(), &received_word)
        && chars_eq(ts[4].as_slice(), &bytes_word)) {
        return None;
    }
    let sent = parse_bytes(ts[0].as_slice());
    let received = parse_bytes(ts[3].as_slice());
    match (sent, received) {
        (Some(a), Some(b)) => {
            let ha = human_chars(a);
            let hb = human_chars(b);
            let mid = chars_of("  received ");
            let gap = chars_of("  ");
            let space = chars_of(" ");
            let tail = join_from(&ts, 5, &space);
            let mut v = concat3(&prefix, &ha, &mid);
            extend_chars(&mut v, &hb);
            extend_chars(&mut v, &gap);
            extend_chars(&mut v, &tail);
            Some(v)
        },
        _ => None,
    }
}

fn total_size_chars(l: &[char]) -> (r: Option<Vec<char>>)
    ensures
        match r {
            Some(v) => total_size_line(l@) == Some(v@),
            None => total_size_line(l@) is None,
        },
{
    let prefix = chars_of("total size is ");
    if !has_prefix(l, &prefix) {
        return None;
    }
    let rest = sub_chars(l, prefix.len(), l.len());
    assert(rest@ =~= l@.skip("total size is "@.len() as int));
    match first_ws_index(&rest) {
        None => None,
        Some(k) => {
            let value = sub_chars(&rest, 0, k);
            assert(value@ =~= rest@.take(k as int));
            match parse_bytes(&value) {
                None => None,
                Some(b) => {
                    let after = sub_chars(&rest, k + 1, rest.len());
                    assert(after@ =~= rest@.skip(k as int + 1));
                    let tail = trim_start_chars(&after);
                    let h = human_chars(b);
                    let space = chars_of(" ");
                    let mut v = concat3(&prefix, &h, &space);
                    extend_chars(&mut v, &tail);
                    Some(v)
                },
            }
        },
    }
}

fn reformat_chars(l: &[char]) -> (r: Vec<char>)
    ensures
        r@ == reformat_line(l@),
{
    proof {
        reveal(reformat_line);
    }
    match label_bytes_chars(l) {
        Some(v) => v,
        None => match sent_chars(l) {
            Some(v) => v,
            None => match total_size_chars(l) {
                Some(v) => v,
                None => sub_chars(l, 0, l.len()),
            },
        },
    }
}

/// Re-formats one stats line's byte counts to IEC units.
///
/// Handles the byte-count shapes of the rsync stats block: `label: N
/// bytes`, `Total bytes sent/received: N`, the trailing `sent N bytes
/// received M bytes ...` line, and `total size is N speedup is ...`. Any
/// other line is returned unchanged. Thousands separators are removed
/// before parsing.
pub fn reformat_stats_line(line: &str) -> (r: String)
    ensures
        r@ == reformat_line(line@),
{
    let l = chars_of(line);
    let v = reformat_chars(&l);
    string_of(&v)
}

/// The stats block of a dry run's standard output: from the `Number of
/// files:` line to the end, trimmed; the whole trimmed output when the
/// block is missing.
pub open spec fn summary_of(stdout: Seq<char>) -> Seq<char> {
    match find(stdout, "Number of files:"@) {
        Some(i) => trim(stdout.skip(i)),
        None => trim(stdout),
    }
}

/// Extracts the stats summary from a dry run's standard output.
pub fn dry_run_summary(stdout: &str) -> (r: String)
    ensures
        r@ == summary_of(stdout@),
{
    let s = chars_of(stdout);
    let marker = chars_of("Number of files:");
    let v = match find_chars(&s, &marker) {
        Some(i) => {
            let ghost w = find(s@, marker@);
            assert(occurs_at(s@, marker@, i as int));
            let tail = sub_chars(&s, i, s.len());
            assert(tail@ =~= s@.skip(i as int));
            trim_chars(&tail)
        },
        None => trim_chars(&s),
    };
    string_of(&v)
}

/// The stats summary with every line's byte counts re-formatted.
pub open spec fn reformatted_summary(summary: Seq<char>) -> Seq<char> {
    joined(lines(summary).map_values(|l: Seq<char>| reformat_line(l)), "\n"@)
}

/// Re-formats the byte counts in a dry-run stats summary to IEC units,
/// line by line.
pub fn reformat_stats_summary(summary: &str) -> (r: String)
    ensures
        r@ == reformatted_summary(summary@),
{
    let s = chars_of(summary);
    let ls = split_lines(&s);
    let mut out: Vec<Vec<char>> = Vec::new();
    let mut i: usize = 0;
    while i < ls.len()
        invariant
            i <= ls@.len(),
            char_views(ls@) == lines(summary@),
            s@ == summary@,
            char_views(out@) == char_views(ls@).take(i as int).map_values(|l: Seq<char>| reformat_line(l)),
        decreases ls@.len() - i,
    {
        let v = reformat_chars(ls[i].as_slice());
        let ghost before = out@;
        out.push(v);
        proof {
            assert(char_views(out@) =~= char_views(before).push(v@));
            assert(char_views(ls@).take(i as int + 1) =~= char_views(ls@).take(i as int).push(ls@[i as int]@));
            assert(char_views(ls@).take(i as int + 1).map_values(|l: Seq<char>| reformat_line(l))
                =~= char_views(ls@).take(i as int).map_values(|l: Seq<char>| reformat_line(l)).push(reformat_line(ls@[i as int]@)));
        }
        i += 1;
    }
    assert(char_views(ls@).take(ls@.len() as int) =~= char_views(ls@));
    let nl = chars_of("\n");
    let joined_v = join_from(&out, 0, &nl);
    assert(char_views(out@).skip(0) =~= char_views(out@));
    string_of(&joined_v)
}

fn push_line(lines: &mut Vec<StatusLine>, kind: StatusKind, text: String)
    ensures
        line_views(final(lines)@) == line_views(old(lines)@).push((kind, text@)),
{
    let ghost before = lines@;
    lines.push(StatusLine { kind, text });
    assert(line_views(lines@) =~= line_views(before).push((kind, text@)));
}

/// The STATUS lines of a finished dry run: a "Dry run complete" header, the
/// re-formatted stats summary when there is one, and rsync's trimmed
/// standard error when there is any.
pub open spec fn dry_run_lines(stdout: Seq<char>, stderr: Seq<char>) -> Seq<(StatusKind, Seq<char>)> {
    let summary = reformatted_summary(summary_of(stdout));
    let err = trim(stderr);
    seq![(StatusKind::Success, "Dry run complete"@)]
        + (if summary.len() > 0 { seq![(StatusKind::Info, summary)] } else { Seq::empty() })
        + (if err.len() > 0 { seq![(StatusKind::Error, err)] } else { Seq::empty() })
}

/// Turns a finished dry run into the lines shown in the STATUS box.
pub fn dry_run_result_lines(outcome: &DryRunOutcome) -> (r: Vec<StatusLine>)
    ensures
        line_views(r@) == dry_run_lines(outcome.stdout@, outcome.stderr@),
{
    let mut lines: Vec<StatusLine> = Vec::new();
    push_line(&mut lines, StatusKind::Success, String::from_str("Dry run complete"));
    let head = dry_run_summary(outcome.stdout.as_str());
    let summary = reformat_stats_summary(head.as_str());
    if summary.unicode_len() > 0 {
        push_line(&mut lines, StatusKind::Info, summary);
    }
    let e = chars_of(outcome.stderr.as_str());
    let t = trim_chars(&e);
    if t.len() > 0 {
        push_line(&mut lines, StatusKind::Error, string_of(&t));
    }
    assert(line_views(lines@) =~= dry_run_lines(outcome.stdout@, outcome.stderr@));
    lines
}

/// The line of a failed sync's reason.
pub open spec fn failure_reason(exit_code: Option<i32>) -> Seq<char> {
    match exit_code {
        Some(c) => "Sync failed: rsync exited with code "@ + dec_int(c as int),
        None => "Sync failed: rsync did not exit cleanly"@,
    }
}

/// rsync's trimmed standard error as an error line, when there is any.
pub open spec fn stderr_lines(stderr: Seq<char>) -> Seq<(StatusKind, Seq<char>)> {
    if trim(stderr).len() > 0 { seq![(StatusKind::Error, trim(stderr))] } else { Seq::empty() }
}

/// The STATUS lines of a finished sync.
pub open spec fn sync_lines(result: Result<SyncOutcome, SyncError>) -> Seq<(StatusKind, Seq<char>)> {
    match result {
        Ok(SyncOutcome::Success { stderr }) => seq![(StatusKind::Success, "Sync complete."@)] + stderr_lines(stderr@),
        Ok(SyncOutcome::Aborted) => seq![(StatusKind::Error, "Sync aborted"@)],
        Ok(SyncOutcome::Failure { exit_code, stderr }) => seq![(StatusKind::Error, failure_reason(exit_code))]
            + stderr_lines(stderr@),
        Err(e) => seq![(StatusKind::Error, "Sync failed: "@ + sync_error_text(e@))],
    }
}

/// Appends rsync's standard error to the status lines, if there is any.
///
/// rsync writes warnings and error details to standard error; they are
/// shown as errors so they stand out from the progress and completion
/// lines.
fn append_sync_stderr(lines: &mut Vec<StatusLine>, stderr: &str)
    ensures
        line_views(final(lines)@) == line_views(old(lines)@) + stderr_lines(stderr@),
{
    let e = chars_of(stderr);
    let t = trim_chars(&e);
    if t.len() > 0 {
        push_line(lines, StatusKind::Error, string_of(&t));
    } else {
        assert(line_views(lines@) + stderr_lines(stderr@) =~= line_views(lines@));
    }
}

/// Turns a finished sync into the lines shown in the STATUS box.
///
/// Success shows a completion message; rsync and engine failures show the
/// reason. Any rsync standard error output is appended, trimmed.
pub fn sync_result_lines(result: &Result<SyncOutcome, SyncError>) -> (r: Vec<StatusLine>)
    ensures
        line_views(r@) == sync_lines(*result),
{
    let mut lines: Vec<StatusLine> = Vec::new();
    match result {
        Ok(SyncOutcome::Success { stderr }) => {
            push_line(&mut lines, StatusKind::Success, String::from_str("Sync complete."));
            append_sync_stderr(&mut lines, stderr.as_str());
        },
        Ok(SyncOutcome::Aborted) => {
            push_line(&mut lines, StatusKind::Error, String::from_str("Sync aborted"));
        },
        Ok(SyncOutcome::Failure { exit_code, stderr }) => {
            let reason = match exit_code {
                Some(c) => {
                    let mut v = chars_of("Sync failed: rsync exited with code ");
                    let d = dec_int_chars(*c as i64);
                    extend_chars(&mut v, &d);
                    string_of(&v)
                },
                None => String::from_str("Sync failed: rsync did not exit cleanly"),
            };
            push_line(&mut lines, StatusKind::Error, reason);
            append_sync_stderr(&mut lines, stderr.as_str());
        },
        Err(e) => {
            let mut v = chars_of("Sync failed: ");
            let m = e.message();
            let mc = chars_of(m.as_str());
            extend_chars(&mut v, &mc);
            push_line(&mut lines, StatusKind::Error, string_of(&v));
        },
    }
    assert(line_views(lines@) =~= sync_lines(*result));
    lines
}

/// No `: ` starts after position `i` of `l` when `l[i + 1]` is a space
/// and no `:` follows it.
proof fn lemma_no_later_separator(l: Seq<char>, i: int)
    requires
        0 <= i,
        i + 1 < l.len(),
        l[i + 1] == ' ',
        forall|j: int| i + 2 <= j < l.len() ==> l[j] != ':',
    ensures
        forall|j: int| i < j ==> !occurs_at(l, seq![':', ' '], j),
{
    assert forall|j: int| i < j implies !occurs_at(l, seq![':', ' '], j) by {
        if occurs_at(l, seq![':', ' '], j) {
            assert(l.subrange(j, j + 2)[0] == l[j]);
        }
    }
}

/// The last occurrence of `p` in `s` is at `i` when it occurs there and
/// nowhere after.
proof fn lemma_rfind_at(s: Seq<char>, p: Seq<char>, i: int)
    requires
        occurs_at(s, p, i),
        forall|j: int| i < j ==> !occurs_at(s, p, j),
    ensures
        rfind(s, p) == Some(i),
{
    let w = choose|w: int| occurs_at(s, p, w) && forall|j: int| w < j ==> !occurs_at(s, p, j);
    if w < i {
        assert(!occurs_at(s, p, i));
    } else if w > i {
        assert(!occurs_at(s, p, w));
    }
}

/// In `label: rest` where `rest` holds no `:`, the last `: ` is the one
/// after the label.
proof fn lemma_last_separator(label: Seq<char>, rest: Seq<char>)
    requires
        !rest.contains(':'),
    ensures
        rfind(label + ": "@ + rest, ": "@) == Some(label.len() as int),
{
    reveal_strlit(": ");
    let sep: Seq<char> = seq![':', ' '];
    assert(": "@ =~= sep);
    let l = label + sep + rest;
    assert(label + ": "@ + rest == l);
    let i = label.len() as int;
    assert(l.subrange(i, i + 2) =~= sep);
    assert(l[i + 1] == ' ');
    assert forall|j: int| i + 2 <= j < l.len() implies l[j] != ':' by {
        assert(l[j] == rest[j - i - 2]);
        if l[j] == ':' {
            assert(rest.contains(':'));
        }
    }
    lemma_no_later_separator(l, i);
    lemma_rfind_at(l, sep, i);
}

/// Any `label: N bytes` line whose count `N` (thousands separators
/// allowed) holds no `:` is shown as `label: ` and the size of `N` in IEC
/// units, whatever the label: `Literal data: 1,234 bytes` becomes
/// `Literal data: 1.21 KiB`.
pub proof fn lemma_label_bytes_line_reformatted(label: Seq<char>, count: Seq<char>)
    requires
        !count.contains(':'),
        bytes_of_text(count) is Some,
    ensures
        reformat_line(label + ": "@ + count + " bytes"@)
            == label + ": "@ + human_size_text(bytes_of_text(count)->0 as nat),
{
    reveal_strlit(" bytes");
    let tail: Seq<char> = " bytes"@;
    assert(tail =~= seq![' ', 'b', 'y', 't', 'e', 's']);
    let rest = count + tail;
    assert(!rest.contains(':')) by {
        if rest.contains(':') {
            let j = choose|j: int| 0 <= j < rest.len() && rest[j] == ':';
            if j < count.len() {
                assert(count[j] == ':');
            } else {
                assert(tail[j - count.len()] == ':');
            }
        }
    }
    lemma_last_separator(label, rest);
    reveal_strlit(": ");
    let l = label + ": "@ + count + tail;
    assert(l =~= label + ": "@ + rest);
    let i = label.len() as int;
    assert(l.take(i) =~= label);
    let raw = l.skip(i + 2);
    assert(raw =~= rest);
    assert(raw.take(raw.len() - tail.len()) =~= count);
    assert(raw.skip(raw.len() - tail.len()) =~= tail);
    assert(ends_with(raw, tail));
    assert(label_bytes_line(l) == Some(label + ": "@ + size_label(bytes_of_text(count))));
    reveal(size_label);
    reveal(reformat_line);
}

/// A `Total bytes sent: N` or `Total bytes received: N` line (any label
/// starting with `Total bytes`), whose count `N` holds no `:` and no space,
/// is shown as its label, `: `, and the size of `N` in IEC units.
pub proof fn lemma_total_bytes_line_reformatted(label: Seq<char>, count: Seq<char>)
    requires
        starts_with(label, "Total bytes"@),
        !count.contains(':'),
        !count.contains(' '),
        bytes_of_text(count) is Some,
    ensures
        reformat_line(label + ": "@ + count) == label + ": "@ + human_size_text(bytes_of_text(count)->0 as nat),
{
    lemma_last_separator(label, count);
    reveal_strlit(": ");
    reveal_strlit(" bytes");
    let l = label + ": "@ + count;
    let i = label.len() as int;
    assert(l.take(i) =~= label);
    let raw = l.skip(i + 2);
    assert(raw =~= count);
    assert(!ends_with(raw, " bytes"@)) by {
        if ends_with(raw, " bytes"@) {
            let t = raw.skip(raw.len() - " bytes"@.len());
            assert(t[0] == ' ');
            assert(raw[raw.len() - 6] == ' ');
            assert(count.contains(' '));
        }
    }
    assert(label_bytes_line(l) == Some(label + ": "@ + size_label(bytes_of_text(count))));
    reveal(size_label);
    reveal(reformat_line);
}

} // verus!
