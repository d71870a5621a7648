//! The rsync command lines.
//!
//! The sync command is, roughly:
//! `rsync -a --delete --exclude=<each> <each source> <destination>/`
//!
//! Sources are passed without a trailing slash, so rsync copies the folder
//! itself into the destination. The destination keeps a trailing slash,
//! which makes it the mirror root that holds each source as its own named
//! folder. Every argument is handed to the process as it is, without a
//! shell, so paths with spaces or special characters stay intact.

use vstd::prelude::*;
use crate::config::{lemma_texts_push, texts};
use crate::paths::{strip_trailing_slash, with_trailing_slash};
use crate::sync_engine::SyncPlan;
use crate::text::{chars_of, extend_chars, owned, string_of, trim, trim_chars};

verus! {

/// A program and its arguments, ready to run.
#[derive(Debug)]
pub struct RsyncCommand {
    /// The program to run.
    pub program: String,
    /// Its arguments, in order.
    pub args: Vec<String>,
}

/// The `--exclude=` arguments for the first `n` patterns: one per pattern
/// that is not blank.
pub open spec fn exclude_args(ex: Seq<Seq<char>>, n: int) -> Seq<Seq<char>>
    decreases n,
{
    if n <= 0 {
        Seq::empty()
    } else {
        exclude_args(ex, n - 1) + if trim(ex[n - 1]).len() > 0 {
            seq!["--exclude="@ + ex[n - 1]]
        } else {
            Seq::empty()
        }
    }
}

/// The arguments of a sync of `plan`.
pub open spec fn sync_args(sources: Seq<Seq<char>>, excludes: Seq<Seq<char>>, destination: Seq<char>) -> Seq<Seq<char>> {
    seq!["-a"@, "--delete"@] + exclude_args(excludes, excludes.len() as int)
        + sources.map_values(|s: Seq<char>| strip_trailing_slash(s))
        + seq![with_trailing_slash(destination)]
}

/// The arguments of the plain sync command of `plan`.
pub open spec fn plan_args(plan: SyncPlan) -> Seq<Seq<char>> {
    sync_args(plan@.sources, plan@.excludes, plan@.destination)
}

fn push_arg(args: &mut Vec<String>, a: &[char])
    ensures
        texts(final(args)@) == texts(old(args)@).push(a@),
{
    let s = string_of(a);
    proof {
        lemma_texts_push(args@, s);
    }
    args.push(s);
}

/// Build the rsync command of a sync of `plan`.
///
/// The command is not run; the caller decides how to run and wait on it.
pub fn build(plan: &SyncPlan) -> (r: RsyncCommand)
    ensures
        r.program@ == plan.binary@,
        texts(r.args@) == plan_args(*plan),
{
    let mut args: Vec<String> = Vec::new();
    let a = chars_of("-a");
    push_arg(&mut args, &a);
    let d = chars_of("--delete");
    push_arg(&mut args, &d);
    assert(texts(args@) =~= seq!["-a"@, "--delete"@]);
    let ghost ex = plan@.excludes;
    let mut i: usize = 0;
    while i < plan.excludes.len()
        invariant
            i <= plan.excludes@.len(),
            ex == texts(plan.excludes@),
            texts(args@) == seq!["-a"@, "--delete"@] + exclude_args(ex, i as int),
        decreases plan.excludes@.len() - i,
    {
        let e = chars_of(plan.excludes[i].as_str());
        let t = trim_chars(&e);
        if t.len() > 0 {
            let mut arg = chars_of("--exclude=");
            extend_chars(&mut arg, &e);
            push_arg(&mut args, &arg);
        }
        proof {
            assert(ex[i as int] == plan.excludes@[i as int]@);
            assert(seq!["-a"@, "--delete"@] + exclude_args(ex, i as int + 1)
                =~= seq!["-a"@, "--delete"@] + exclude_args(ex, i as int) + if trim(ex[i as int]).len() > 0 {
                    seq!["--exclude="@ + ex[i as int]]
                } else {
                    Seq::empty()
                });
        }
        i += 1;
    }
    let ghost head = texts(args@);
    let ghost srcs = plan@.sources;
    let mut j: usize = 0;
    while j < plan.sources.len()
        invariant
            j <= plan.sources@.len(),
            srcs == texts(plan.sources@),
            texts(args@) == head + srcs.take(j as int).map_values(|s: Seq<char>| strip_trailing_slash(s)),
        decreases plan.sources@.len() - j,
    {
        let s = chars_of(plan.sources[j].as_str());
        let stripped: Vec<char> = if s.len() > 0 && s[s.len() - 1] == '/' {
            let mut c = s;
            c.pop();
            c
        } else {
            s
        };
        assert(stripped@ == strip_trailing_slash(srcs[j as int]));
        push_arg(&mut args, &stripped);
        assert(srcs.take(j as int + 1).map_values(|s: Seq<char>| strip_trailing_slash(s))
            =~= srcs.take(j as int).map_values(|s: Seq<char>| strip_trailing_slash(s)).push(strip_trailing_slash(srcs[j as int])));
        j += 1;
    }
    assert(srcs.take(srcs.len() as int) =~= srcs);
    let mut dest = chars_of(plan.destination.as_str());
    if !(dest.len() > 0 && dest[dest.len() - 1] == '/') {
        dest.push('/');
    }
    push_arg(&mut args, &dest);
    RsyncCommand { program: plan.binary.clone(), args }
}

fn push_literal(cmd: &mut RsyncCommand, a: &str)
    ensures
        final(cmd).program@ == old(cmd).program@,
        texts(final(cmd).args@) == texts(old(cmd).args@).push(a@),
{
    let s = owned(a);
    proof {
        lemma_texts_push(cmd.args@, s);
    }
    cmd.args.push(s);
}

/// Build the rsync command of a sync of `plan` that reports its progress.
///
/// Identical to [`build`], plus `--info=progress2`: rsync then writes one
/// progress line per update with the bytes transferred, the percentage
/// complete, the transfer rate, and an estimate of the time left.
pub fn build_progress(plan: &SyncPlan) -> (r: RsyncCommand)
    ensures
        r.program@ == plan.binary@,
        texts(r.args@) == plan_args(*plan).push("--info=progress2"@),
{
    let mut cmd = build(plan);
    push_literal(&mut cmd, "--info=progress2");
    cmd
}

/// Build the rsync command of a dry run of `plan`.
///
/// Identical to [`build`], plus `--dry-run` (simulate the transfer without
/// writing anything), `--itemize-changes` (list every change), and
/// `--stats` (report totals). Sizes stay raw byte numbers, so they can be
/// re-formatted in IEC units like every other size label.
pub fn build_dry_run(plan: &SyncPlan) -> (r: RsyncCommand)
    ensures
        r.program@ == plan.binary@,
        texts(r.args@) == plan_args(*plan).push("--dry-run"@).push("--itemize-changes"@).push("--stats"@),
{
    let mut cmd = build(plan);
    push_literal(&mut cmd, "--dry-run");
    push_literal(&mut cmd, "--itemize-changes");
    push_literal(&mut cmd, "--stats");
    cmd
}

/// The `--exclude=` arguments of the first `n` patterns: each one is
/// `--exclude=` and a pattern that is not blank, and each pattern that is
/// not blank has one.
pub proof fn lemma_exclude_args(ex: Seq<Seq<char>>, n: int)
    requires
        0 <= n <= ex.len(),
    ensures
        forall|i: int| 0 <= i < exclude_args(ex, n).len() ==> exists|k: int|
            0 <= k < n && trim(ex[k]).len() > 0 && #[trigger] exclude_args(ex, n)[i] == "--exclude="@ + ex[k],
        forall|k: int| 0 <= k < n && trim(#[trigger] ex[k]).len() > 0 ==> exclude_args(ex, n).contains("--exclude="@ + ex[k]),
    decreases n,
{
    if n > 0 {
        lemma_exclude_args(ex, n - 1);
        let prev = exclude_args(ex, n - 1);
        let cur = exclude_args(ex, n);
        assert forall|i: int| 0 <= i < cur.len() implies exists|k: int|
            0 <= k < n && trim(ex[k]).len() > 0 && #[trigger] cur[i] == "--exclude="@ + ex[k] by {
            if i < prev.len() {
                assert(cur[i] == prev[i]);
                let k = choose|k: int| 0 <= k < n - 1 && trim(ex[k]).len() > 0 && #[trigger] prev[i] == "--exclude="@ + ex[k];
                assert(cur[i] == "--exclude="@ + ex[k]);
            } else {
                assert(cur[i] == "--exclude="@ + ex[n - 1]);
            }
        }
        assert forall|k: int| 0 <= k < n && trim(#[trigger] ex[k]).len() > 0 implies cur.contains("--exclude="@ + ex[k]) by {
            if k < n - 1 {
                let j = choose|j: int| 0 <= j < prev.len() && prev[j] == "--exclude="@ + ex[k];
                assert(cur[j] == prev[j]);
            } else {
                assert(cur[prev.len() as int] == "--exclude="@ + ex[k]);
            }
        }
    }
}

/// The sync command mirrors the sources into the destination: it starts
/// with `-a` and `--delete`; then come the `--exclude=` arguments (see
/// `lemma_exclude_args`); then every source in order, with at most one
/// trailing `/` removed (so rsync copies the folder itself); and last the
/// destination, ending with a `/`.
pub proof fn lemma_sync_args_mirror(sources: Seq<Seq<char>>, excludes: Seq<Seq<char>>, destination: Seq<char>)
    ensures
        ({
            let a = sync_args(sources, excludes, destination);
            let ea = exclude_args(excludes, excludes.len() as int);
            &&& a.len() == 3 + ea.len() + sources.len()
            &&& a[0] == "-a"@
            &&& a[1] == "--delete"@
            &&& a.subrange(2, 2 + ea.len() as int) == ea
            &&& forall|k: int| 0 <= k < sources.len() ==> {
                let x = #[trigger] a[2 + ea.len() + k];
                &&& (sources[k].len() > 0 && sources[k].last() == '/') ==> x.push('/') == sources[k]
                &&& !(sources[k].len() > 0 && sources[k].last() == '/') ==> x == sources[k]
            }
            &&& a.last().len() > 0
            &&& a.last().last() == '/'
            &&& (a.last() == destination || a.last() == destination.push('/'))
        }),
{
    let ea = exclude_args(excludes, excludes.len() as int);
    let head: Seq<Seq<char>> = seq!["-a"@, "--delete"@];
    let ss = sources.map_values(|s: Seq<char>| strip_trailing_slash(s));
    let a = sync_args(sources, excludes, destination);
    assert(a == head + ea + ss + seq![with_trailing_slash(destination)]);
    assert(a.subrange(2, 2 + ea.len() as int) =~= ea);
    assert forall|k: int| 0 <= k < sources.len() implies {
        let x = #[trigger] a[2 + ea.len() + k];
        &&& (sources[k].len() > 0 && sources[k].last() == '/') ==> x.push('/') == sources[k]
        &&& !(sources[k].len() > 0 && sources[k].last() == '/') ==> x == sources[k]
    } by {
        assert(a[2 + ea.len() + k] == ss[k]);
        if sources[k].len() > 0 && sources[k].last() == '/' {
            assert(sources[k].drop_last().push('/') =~= sources[k]);
        }
    }
    assert(a[0] == head[0] && a[1] == head[1]);
    assert(a.last() == with_trailing_slash(destination));
    if destination.len() == 0 || destination.last() != '/' {
        assert(destination.push('/').last() == '/');
    }
}

} // verus!
