//! Checking a plan, reading rsync's output, and turning what rsync reported
//! into an outcome.
//!
//! The program runs the commands built here and feeds rsync's output to a
//! [`LineSplitter`]; the decisions around the process are taken here.

use vstd::prelude::*;
use crate::config::{lemma_texts_push, texts};
use crate::numbers::{bytes_of_text, float_syntax, is_float_text, parse_bytes};
use crate::sync_engine::command::{build_dry_run, build_progress, plan_args, RsyncCommand};
use crate::sync_engine::{
    DryRunOutcome, PathState, PlanProbe, SyncError, SyncErrorView, SyncOutcome, SyncOutcomeView,
    SyncPlan,
};
use crate::text::{chars_of, extend_chars, string_of, sub_chars};
use crate::words::{split_words, words};

verus! {

/// The index of the first source that does not exist, or the number of
/// sources when they all exist.
pub open spec fn first_missing(flags: Seq<bool>) -> int {
    if exists|i: int| 0 <= i < flags.len() && !flags[i] {
        choose|i: int| 0 <= i < flags.len() && !flags[i] && forall|j: int| 0 <= j < i ==> flags[j]
    } else {
        flags.len() as int
    }
}

/// The pre-flight check of a plan: the binary must be found, there must be
/// at least one source, every source must exist, and the destination must
/// be an existing directory. The first failed check gives the error.
pub open spec fn plan_check(plan: SyncPlan, probe: PlanProbe) -> Option<SyncErrorView> {
    let flags = probe.sources_exist@;
    if !probe.binary_found {
        Some(SyncErrorView::RsyncNotFound)
    } else if plan.sources@.len() == 0 {
        Some(SyncErrorView::NoSources)
    } else if first_missing(flags) < flags.len() {
        Some(SyncErrorView::SourceDoesNotExist(plan@.sources[first_missing(flags)]))
    } else {
        match probe.destination {
            PathState::Missing => Some(SyncErrorView::DestinationDoesNotExist(plan.destination@)),
            PathState::NotADirectory => Some(SyncErrorView::DestinationNotADirectory(plan.destination@)),
            PathState::Directory => None,
        }
    }
}

/// Validate the plan before running rsync. Fails fast on any problem.
///
/// Shared by the real sync and the dry run, so both reject the same invalid
/// plans: a missing binary, an empty source list, a missing source, or a
/// destination that does not exist or is not a directory.
pub fn validate(plan: &SyncPlan, probe: &PlanProbe) -> (r: Result<(), SyncError>)
    requires
        probe.sources_exist@.len() == plan.sources@.len(),
    ensures
        match plan_check(*plan, *probe) {
            Some(e) => r matches Err(x) && x@ == e,
            None => r is Ok,
        },
{
    if !probe.binary_found {
        return Err(SyncError::RsyncNotFound);
    }
    if plan.sources.len() == 0 {
        return Err(SyncError::NoSources);
    }
    let ghost flags = probe.sources_exist@;
    let mut i: usize = 0;
    while i < plan.sources.len()
        invariant
            i <= plan.sources@.len(),
            flags == probe.sources_exist@,
            flags.len() == plan.sources@.len(),
            probe.binary_found,
            plan.sources@.len() > 0,
            forall|j: int| 0 <= j < i ==> flags[j],
        decreases plan.sources@.len() - i,
    {
        if !probe.sources_exist[i] {
            proof {
                let c = choose|c: int| 0 <= c < flags.len() && !flags[c] && forall|j: int| 0 <= j < c ==> flags[j];
                assert(0 <= c < flags.len() && !flags[c] && forall|j: int| 0 <= j < c ==> flags[j]);
                if c < i {
                } else if c > i {
                    assert(flags[i as int]);
                }
                assert(first_missing(flags) == i);
                assert(plan@.sources[i as int] == plan.sources@[i as int]@);
            }
            let missing = plan.sources[i].clone();
            return Err(SyncError::SourceDoesNotExist(missing));
        }
        i += 1;
    }
    assert(first_missing(flags) == flags.len());
    match probe.destination {
        PathState::Missing => Err(SyncError::DestinationDoesNotExist(plan.destination.clone())),
        PathState::NotADirectory => Err(SyncError::DestinationNotADirectory(plan.destination.clone())),
        PathState::Directory => Ok(()),
    }
}

/// Prepare a dry run: check the plan, then build the command that
/// previews the sync without changing any files.
///
/// Returns [`SyncError`] for pre-flight validation failures. rsync's own
/// exit code is ignored by a dry run, because `--dry-run` always exits 0 in
/// normal operation; its output becomes a [`DryRunOutcome`] with
/// [`dry_run_outcome`].
pub fn dry_run(plan: &SyncPlan, probe: &PlanProbe) -> (r: Result<RsyncCommand, SyncError>)
    requires
        probe.sources_exist@.len() == plan.sources@.len(),
    ensures
        match plan_check(*plan, *probe) {
            Some(e) => r matches Err(x) && x@ == e,
            None => r matches Ok(cmd) && cmd.program@ == plan.binary@
                && texts(cmd.args@) == plan_args(*plan).push("--dry-run"@).push("--itemize-changes"@).push("--stats"@),
        },
{
    match validate(plan, probe) {
        Err(e) => Err(e),
        Ok(()) => Ok(build_dry_run(plan)),
    }
}

/// Prepare a sync that streams rsync's progress: check the plan, then build
/// the command with progress reporting.
///
/// The program runs the command, feeds both pipes to [`LineSplitter`]s,
/// shows every line as it arrives, and hands the standard error lines, the
/// abort flag, and the exit code to [`sync_outcome`].
pub fn sync_streaming(plan: &SyncPlan, probe: &PlanProbe) -> (r: Result<RsyncCommand, SyncError>)
    requires
        probe.sources_exist@.len() == plan.sources@.len(),
    ensures
        match plan_check(*plan, *probe) {
            Some(e) => r matches Err(x) && x@ == e,
            None => r matches Ok(cmd) && cmd.program@ == plan.binary@
                && texts(cmd.args@) == plan_args(*plan).push("--info=progress2"@),
        },
{
    match validate(plan, probe) {
        Err(e) => Err(e),
        Ok(()) => Ok(build_progress(plan)),
    }
}

/// `s` without all its trailing `%` characters.
pub open spec fn strip_trailing_pct(s: Seq<char>) -> Seq<char>
    decreases s.len(),
{
    if s.len() > 0 && s.last() == '%' {
        strip_trailing_pct(s.drop_last())
    } else {
        s
    }
}

/// Whether a line is a progress update from `--info=progress2`: its first
/// word is a byte count and its second a number followed by `%`, as in
/// `1,234,567  12%  123.45MB/s  0:00:05 (xfr#3, to-chk=10/20)`.
pub open spec fn progress_line(line: Seq<char>) -> bool {
    let ws = words(line);
    &&& ws.len() >= 2
    &&& bytes_of_text(ws[0]) is Some
    &&& ws[1].len() > 0
    &&& ws[1].last() == '%'
    &&& float_syntax(strip_trailing_pct(ws[1]))
}

/// True if a line is a progress update from `--info=progress2`.
pub fn is_progress_line(line: &str) -> (r: bool)
    ensures
        r == progress_line(line@),
{
    let c = chars_of(line);
    let ws = split_words(&c);
    if ws.len() < 2 {
        return false;
    }
    assert(ws@[0]@ == words(line@)[0]);
    assert(ws@[1]@ == words(line@)[1]);
    let bytes = parse_bytes(ws[0].as_slice());
    let pct = &ws[1];
    if !(pct.len() > 0 && pct[pct.len() - 1] == '%') {
        return false;
    }
    let mut n = pct.len();
    assert(pct@.take(n as int) =~= pct@);
    while n > 0 && pct[n - 1] == '%'
        invariant
            n <= pct@.len(),
            strip_trailing_pct(pct@) == strip_trailing_pct(pct@.take(n as int)),
        decreases n,
    {
        assert(pct@.take(n as int).drop_last() =~= pct@.take(n - 1));
        n -= 1;
    }
    let num = sub_chars(pct.as_slice(), 0, n);
    assert(num@ =~= pct@.take(n as int));
    bytes.is_some() && is_float_text(&num)
}

/// The standard error kept in an outcome from the first `n` lines: every
/// line that is not a progress update, each followed by a newline.
pub open spec fn kept_stderr(lines: Seq<Seq<char>>, n: int) -> Seq<char>
    decreases n,
{
    if n <= 0 {
        Seq::empty()
    } else {
        kept_stderr(lines, n - 1) + if progress_line(lines[n - 1]) {
            Seq::empty()
        } else {
            lines[n - 1] + "\n"@
        }
    }
}

/// The outcome of a sync whose standard error lines were `lines`, that the
/// user aborted or not, and whose process exited with `exit_code`.
pub open spec fn outcome_of(lines: Seq<Seq<char>>, aborted: bool, exit_code: Option<i32>) -> SyncOutcomeView {
    let kept = kept_stderr(lines, lines.len() as int);
    if aborted {
        SyncOutcomeView::Aborted
    } else if exit_code == Some(0i32) {
        SyncOutcomeView::Success { stderr: kept }
    } else {
        SyncOutcomeView::Failure { exit_code, stderr: kept }
    }
}

/// Turn a finished sync into its outcome.
///
/// `stderr_lines` are the lines rsync wrote to standard error; only those
/// that are not progress updates are kept, so the status shows only the
/// warnings. An abort by the user wins over the exit code; exit code 0 is
/// a success and anything else a failure.
pub fn sync_outcome(stderr_lines: &Vec<String>, aborted: bool, exit_code: Option<i32>) -> (r: SyncOutcome)
    ensures
        r@ == outcome_of(texts(stderr_lines@), aborted, exit_code),
{
    let ghost ls = texts(stderr_lines@);
    let mut kept: Vec<char> = Vec::new();
    let mut i: usize = 0;
    while i < stderr_lines.len()
        invariant
            i <= stderr_lines@.len(),
            ls == texts(stderr_lines@),
            kept@ == kept_stderr(ls, i as int),
        decreases stderr_lines@.len() - i,
    {
        assert(ls[i as int] == stderr_lines@[i as int]@);
        if !is_progress_line(stderr_lines[i].as_str()) {
            let l = chars_of(stderr_lines[i].as_str());
            extend_chars(&mut kept, &l);
            kept.push('\n');
            proof {
                reveal_strlit("\n");
                assert(kept@ =~= kept_stderr(ls, i as int) + (ls[i as int] + "\n"@));
            }
        }
        i += 1;
    }
    let stderr = string_of(&kept);
    if aborted {
        SyncOutcome::Aborted
    } else {
        match exit_code {
            Some(0) => SyncOutcome::Success { stderr },
            _ => SyncOutcome::Failure { exit_code, stderr },
        }
    }
}

/// What `String::from_utf8_lossy` makes of `bytes`.
pub uninterp spec fn utf8_lossy(bytes: Seq<u8>) -> Seq<char>;

/// The text of `bytes`, through `String::from_utf8_lossy`: invalid UTF-8
/// sequences become U+FFFD. The contract names the result, and says, as
/// std documents, that valid UTF-8 is decoded as it is and that bytes give
/// a non-empty text (each invalid sequence becomes one character); it says
/// nothing more of how invalid sequences are replaced.
#[verifier::external_body]
fn lossy_text(bytes: &[u8]) -> (r: String)
    ensures
        r@ == utf8_lossy(bytes@),
        vstd::utf8::valid_utf8(bytes@) ==> r@ == vstd::utf8::decode_utf8(bytes@),
        bytes@.len() > 0 ==> r@.len() > 0,
{
    String::from_utf8_lossy(bytes).into_owned()
}

/// The outcome of a dry run from the bytes rsync wrote to its standard
/// output and standard error.
pub fn dry_run_outcome(stdout: &[u8], stderr: &[u8]) -> (r: DryRunOutcome)
    ensures
        r.stdout@ == utf8_lossy(stdout@),
        r.stderr@ == utf8_lossy(stderr@),
        vstd::utf8::valid_utf8(stdout@) ==> r.stdout@ == vstd::utf8::decode_utf8(stdout@),
        vstd::utf8::valid_utf8(stderr@) ==> r.stderr@ == vstd::utf8::decode_utf8(stderr@),
{
    DryRunOutcome { stdout: lossy_text(stdout), stderr: lossy_text(stderr) }
}

/// Whether a byte ends a line: `\r` or `\n`. rsync separates progress
/// updates with `\r`, and only the final line ends with `\n`.
pub open spec fn is_line_end(b: u8) -> bool {
    b == 13u8 || b == 10u8
}

/// The lines completed and the partial line kept after one more byte.
pub open spec fn split_step(st: (Seq<Seq<u8>>, Seq<u8>), b: u8) -> (Seq<Seq<u8>>, Seq<u8>) {
    if is_line_end(b) {
        if st.1.len() > 0 { (st.0.push(st.1), Seq::empty()) } else { st }
    } else {
        (st.0, st.1.push(b))
    }
}

/// The lines completed and the partial line kept after `bytes`, starting
/// from `st`. Empty lines are dropped.
pub open spec fn split_run(st: (Seq<Seq<u8>>, Seq<u8>), bytes: Seq<u8>) -> (Seq<Seq<u8>>, Seq<u8>)
    decreases bytes.len(),
{
    if bytes.len() == 0 {
        st
    } else {
        split_step(split_run(st, bytes.drop_last()), bytes.last())
    }
}

/// The texts of byte lines.
pub open spec fn lossy_lines(ls: Seq<Seq<u8>>) -> Seq<Seq<char>> {
    ls.map_values(|l: Seq<u8>| utf8_lossy(l))
}

/// Splits a byte stream into lines at each `\r` and `\n`, chunk by chunk.
///
/// The partial line at the end of a chunk is kept until a later chunk ends
/// it, so the lines do not depend on how the stream was cut into chunks.
#[derive(Debug)]
pub struct LineSplitter {
    buffer: Vec<u8>,
}

impl View for LineSplitter {
    type V = Seq<u8>;

    /// The partial line kept so far.
    closed spec fn view(&self) -> Seq<u8> {
        self.buffer@
    }
}

impl LineSplitter {
    /// A splitter that has seen no bytes.
    pub fn new() -> (r: Self)
        ensures
            r@ == Seq::<u8>::empty(),
    {
        LineSplitter { buffer: Vec::new() }
    }

    /// Feed the next chunk; returns the lines it completes, in order, none
    /// of them empty.
    pub fn feed(&mut self, chunk: &[u8]) -> (r: Vec<String>)
        ensures
            final(self)@ == split_run((Seq::empty(), old(self)@), chunk@).1,
            texts(r@) == lossy_lines(split_run((Seq::empty(), old(self)@), chunk@).0),
            forall|k: int| 0 <= k < r@.len() ==> (#[trigger] r@[k])@.len() > 0,
    {
        let ghost start: (Seq<Seq<u8>>, Seq<u8>) = (Seq::empty(), self.buffer@);
        let mut out: Vec<String> = Vec::new();
        let ghost mut done: Seq<Seq<u8>> = Seq::empty();
        let mut i: usize = 0;
        while i < chunk.len()
            invariant
                i <= chunk@.len(),
                split_run(start, chunk@.take(i as int)) == (done, self.buffer@),
                texts(out@) == lossy_lines(done),
                forall|k: int| 0 <= k < out@.len() ==> (#[trigger] out@[k])@.len() > 0,
            decreases chunk@.len() - i,
        {
            assert(chunk@.take(i as int + 1).drop_last() =~= chunk@.take(i as int));
            assert(chunk@.take(i as int + 1).last() == chunk@[i as int]);
            let b = chunk[i];
            if b == 13u8 || b == 10u8 {
                if self.buffer.len() > 0 {
                    let line = lossy_text(self.buffer.as_slice());
                    proof {
                        lemma_texts_push(out@, line);
                        assert(lossy_lines(done.push(self.buffer@)) =~= lossy_lines(done).push(utf8_lossy(self.buffer@)));
                        done = done.push(self.buffer@);
                    }
                    out.push(line);
                    self.buffer = Vec::new();
                }
            } else {
                self.buffer.push(b);
            }
            i += 1;
        }
        assert(chunk@.take(chunk@.len() as int) =~= chunk@);
        out
    }

    /// The last line, when the stream ended without a line end.
    pub fn finish(&self) -> (r: Option<String>)
        ensures
            match r {
                Some(s) => self@.len() > 0 && s@ == utf8_lossy(self@) && s@.len() > 0,
                None => self@.len() == 0,
            },
    {
        if self.buffer.len() > 0 {
            Some(lossy_text(self.buffer.as_slice()))
        } else {
            None
        }
    }
}

/// Splitting is independent of where the stream is cut: feeding `a` and
/// then `b` completes the same lines, and keeps the same partial line, as
/// feeding `a + b` at once.
pub proof fn lemma_split_chunks(buf: Seq<u8>, a: Seq<u8>, b: Seq<u8>)
    ensures
        ({
            let first = split_run((Seq::empty(), buf), a);
            let second = split_run((Seq::empty(), first.1), b);
            split_run((Seq::empty(), buf), a + b) == (first.0 + second.0, second.1)
        }),
{
    lemma_split_run_concat((Seq::empty(), buf), a, b);
    lemma_split_run_lines(Seq::empty(), split_run((Seq::empty(), buf), a).0, split_run((Seq::empty(), buf), a).1, b);
    assert(Seq::<Seq<u8>>::empty() + split_run((Seq::empty(), buf), a).0 =~= split_run((Seq::empty(), buf), a).0);
}

/// Running over `a + b` is running over `a`, then over `b`.
proof fn lemma_split_run_concat(st: (Seq<Seq<u8>>, Seq<u8>), a: Seq<u8>, b: Seq<u8>)
    ensures
        split_run(st, a + b) == split_run(split_run(st, a), b),
    decreases b.len(),
{
    if b.len() == 0 {
        assert(a + b =~= a);
    } else {
        lemma_split_run_concat(st, a, b.drop_last());
        assert((a + b).drop_last() =~= a + b.drop_last());
        assert((a + b).last() == b.last());
    }
}

/// The lines already completed stay in front of the ones a run adds.
proof fn lemma_split_run_lines(pre: Seq<Seq<u8>>, done: Seq<Seq<u8>>, buf: Seq<u8>, b: Seq<u8>)
    ensures
        split_run((done, buf), b) == (done + split_run((pre, buf), b).0.skip(pre.len() as int), split_run((pre, buf), b).1),
        split_run((pre, buf), b).0.len() >= pre.len(),
        split_run((pre, buf), b).0.take(pre.len() as int) == pre,
    decreases b.len(),
{
    if b.len() == 0 {
        assert(pre.skip(pre.len() as int) =~= Seq::<Seq<u8>>::empty());
        assert(done + Seq::<Seq<u8>>::empty() =~= done);
        assert(pre.take(pre.len() as int) =~= pre);
    } else {
        lemma_split_run_lines(pre, done, buf, b.drop_last());
        let p = split_run((pre, buf), b.drop_last());
        let q = split_run((done, buf), b.drop_last());
        if is_line_end(b.last()) && p.1.len() > 0 {
            assert(p.0.push(p.1).skip(pre.len() as int) =~= p.0.skip(pre.len() as int).push(p.1));
            assert(p.0.push(p.1).take(pre.len() as int) =~= p.0.take(pre.len() as int));
            assert(q.0.push(q.1) =~= done + p.0.push(p.1).skip(pre.len() as int));
        }
    }
}

/// When some flag is false, a first false flag exists.
proof fn lemma_a_first_missing(flags: Seq<bool>, i: int)
    requires
        0 <= i < flags.len(),
        !flags[i],
    ensures
        exists|c: int| 0 <= c < flags.len() && !flags[c] && forall|j: int| 0 <= j < c ==> flags[j],
    decreases i,
{
    if exists|j: int| 0 <= j < i && !flags[j] {
        let j = choose|j: int| 0 <= j < i && !flags[j];
        lemma_a_first_missing(flags, j);
    } else {
        assert(forall|j: int| 0 <= j < i ==> flags[j]);
    }
}

/// The pre-flight check passes only when the binary is found, there is a
/// source, every source exists, and the destination is a directory; and
/// then it does pass. With the binary found, a missing source fails the
/// check with that source's path when every source before it exists, so
/// the first missing source in plan order is the one reported.
pub proof fn lemma_every_source_checked(plan: SyncPlan, probe: PlanProbe)
    requires
        probe.sources_exist@.len() == plan.sources@.len(),
    ensures
        plan_check(plan, probe) is None <==> {
            &&& probe.binary_found
            &&& plan.sources@.len() > 0
            &&& forall|i: int| 0 <= i < plan.sources@.len() ==> #[trigger] probe.sources_exist@[i]
            &&& probe.destination == PathState::Directory
        },
        forall|k: int|
            0 <= k < plan.sources@.len() && probe.binary_found && !(#[trigger] probe.sources_exist@[k])
                && (forall|j: int| 0 <= j < k ==> probe.sources_exist@[j])
                ==> plan_check(plan, probe) == Some(SyncErrorView::SourceDoesNotExist(plan.sources@[k]@)),
{
    let flags = probe.sources_exist@;
    if exists|i: int| 0 <= i < flags.len() && !flags[i] {
        let i = choose|i: int| 0 <= i < flags.len() && !flags[i];
        lemma_a_first_missing(flags, i);
        let c = first_missing(flags);
        assert(0 <= c < flags.len() && !flags[c] && forall|j: int| 0 <= j < c ==> flags[j]);
        assert forall|k: int|
            0 <= k < plan.sources@.len() && probe.binary_found && !(#[trigger] probe.sources_exist@[k])
                && (forall|j: int| 0 <= j < k ==> probe.sources_exist@[j])
                implies plan_check(plan, probe) == Some(SyncErrorView::SourceDoesNotExist(plan.sources@[k]@)) by {
            if c < k {
                assert(flags[c]);
            } else if k < c {
                assert(flags[k]);
            }
            assert(plan@.sources[k] == plan.sources@[k]@);
        }
    } else {
        assert(first_missing(flags) == flags.len());
    }
}

/// A sync the user aborted is aborted whatever rsync's exit code; one that
/// was not aborted succeeds exactly when rsync exited with code 0, and
/// otherwise fails with rsync's exit code. A line that is not a progress
/// update is kept in the outcome's standard error; progress updates add
/// nothing to it.
pub proof fn lemma_outcome_follows_the_exit(lines: Seq<Seq<char>>, line: Seq<char>, aborted: bool, exit_code: Option<i32>)
    ensures
        (outcome_of(lines, aborted, exit_code) is Aborted) == aborted,
        (outcome_of(lines, aborted, exit_code) is Success) == (!aborted && exit_code == Some(0i32)),
        outcome_of(lines, aborted, exit_code) matches SyncOutcomeView::Failure { exit_code: c, .. } ==> c == exit_code
            && c != Some(0i32),
        !progress_line(line) ==> kept_stderr(lines.push(line), lines.len() as int + 1) == kept_stderr(lines, lines.len() as int) + line + seq!['\n'],
        progress_line(line) ==> kept_stderr(lines.push(line), lines.len() as int + 1) == kept_stderr(lines, lines.len() as int),
{
    reveal_strlit("\n");
    lemma_kept_prefix(lines, line, lines.len() as int);
    assert(lines.push(line)[lines.len() as int] == line);
    assert("\n"@ =~= seq!['\n']);
}

/// Appending a line leaves what the earlier lines keep unchanged.
proof fn lemma_kept_prefix(lines: Seq<Seq<char>>, line: Seq<char>, n: int)
    requires
        0 <= n <= lines.len(),
    ensures
        kept_stderr(lines.push(line), n) == kept_stderr(lines, n),
    decreases n,
{
    if n > 0 {
        lemma_kept_prefix(lines, line, n - 1);
        assert(lines.push(line)[n - 1] == lines[n - 1]);
    }
}

} // verus!
