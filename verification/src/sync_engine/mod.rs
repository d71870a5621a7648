//! SyncEngine: the rsync run of Silo.
//!
//! This module builds the rsync command line from the silo settings
//! (source folders, exclude patterns, destination), checks a plan before
//! rsync runs, splits rsync's output into lines, and turns what rsync
//! reported into an outcome. Sync uses `--delete` so the destination is a
//! 100% mirror of the sources.
//!
//! Starting the process, reading its pipes, and looking at the filesystem
//! are the program's part: it hands the library what it found (a
//! [`PlanProbe`], output bytes, the exit code) and runs the commands the
//! library builds.
//!
//! - [`command`]: the command lines
//! - [`runner`]: validation, output lines, and outcomes

pub mod command;
pub mod runner;

use vstd::prelude::*;
use crate::config::texts;
use crate::paths::{join, join_str};
use crate::text::{chars_of, extend_chars, owned, string_of};

verus! {

/// The rsync executable name, resolved through PATH when used as a bare name.
pub const RSYNC: &'static str = "rsync";

/// The inputs for a sync operation.
#[derive(Debug)]
pub struct SyncPlan {
    /// Source folders to mirror. Must be non-empty.
    pub sources: Vec<String>,
    /// rsync exclude patterns (for example `node_modules`, `*.log`).
    pub excludes: Vec<String>,
    /// Destination folder. Must exist and be a directory.
    pub destination: String,
    /// The rsync binary to run: the system `rsync` on PATH when present,
    /// otherwise the copy bundled with the application (see
    /// [`default_rsync_binary`]).
    pub binary: String,
}

/// The view of a [`SyncPlan`].
pub struct SyncPlanView {
    pub sources: Seq<Seq<char>>,
    pub excludes: Seq<Seq<char>>,
    pub destination: Seq<char>,
    pub binary: Seq<char>,
}

impl View for SyncPlan {
    type V = SyncPlanView;

    open spec fn view(&self) -> SyncPlanView {
        SyncPlanView {
            sources: texts(self.sources@),
            excludes: texts(self.excludes@),
            destination: self.destination@,
            binary: self.binary@,
        }
    }
}

impl SyncPlan {
    /// Create a plan that runs the given rsync binary.
    pub fn new(sources: Vec<String>, excludes: Vec<String>, destination: String, binary: String) -> (r: Self)
        ensures
            r.sources@ == sources@,
            r.excludes@ == excludes@,
            r.destination@ == destination@,
            r.binary@ == binary@,
    {
        SyncPlan { sources, excludes, destination, binary }
    }
}

/// The path of the rsync bundled inside an application directory.
pub open spec fn bundled_rsync_path(appdir: Seq<char>) -> Seq<char> {
    join(appdir, "usr/bin/rsync"@)
}

/// The path of an rsync next to the running executable.
pub open spec fn sibling_rsync_path(exe_dir: Seq<char>) -> Seq<char> {
    join(exe_dir, "rsync"@)
}

/// Where the bundled rsync sits inside the application directory `appdir`.
pub fn bundled_rsync(appdir: &str) -> (r: String)
    ensures
        r@ == bundled_rsync_path(appdir@),
{
    join_str(appdir, "usr/bin/rsync")
}

/// Where an rsync next to the executable in `exe_dir` would sit.
pub fn sibling_rsync(exe_dir: &str) -> (r: String)
    ensures
        r@ == sibling_rsync_path(exe_dir@),
{
    join_str(exe_dir, RSYNC)
}

/// The rsync binary a plan uses, by preference: the system `rsync` on PATH;
/// the copy bundled inside the application directory; a copy next to the
/// executable; or the bare name, so the pre-flight check still reports that
/// rsync could not be found.
pub open spec fn rsync_choice(on_path: bool, bundled: Option<(Seq<char>, bool)>, sibling: Option<(Seq<char>, bool)>) -> Seq<char> {
    if on_path {
        "rsync"@
    } else {
        match (bundled, sibling) {
            (Some((p, true)), _) => p,
            (_, Some((p, true))) => p,
            _ => "rsync"@,
        }
    }
}

/// Resolve the rsync binary to use for a sync.
///
/// `on_path` tells whether a system `rsync` was found on PATH; `bundled` and
/// `sibling` are the candidate paths (from [`bundled_rsync`] and
/// [`sibling_rsync`]) with whether a file exists there.
pub fn default_rsync_binary(on_path: bool, bundled: Option<(&str, bool)>, sibling: Option<(&str, bool)>) -> (r: String)
    ensures
        r@ == rsync_choice(
            on_path,
            match bundled { Some((p, f)) => Some((p@, f)), None => None },
            match sibling { Some((p, f)) => Some((p@, f)), None => None },
        ),
{
    if on_path {
        return owned(RSYNC);
    }
    match bundled {
        Some((p, true)) => {
            return owned(p);
        },
        _ => {},
    }
    match sibling {
        Some((p, true)) => owned(p),
        _ => owned(RSYNC),
    }
}

/// Errors produced by the sync engine.
///
/// Runtime failures reported by rsync itself (non-zero exit codes) are not
/// errors; they are a [`SyncOutcome::Failure`].
#[derive(Debug)]
pub enum SyncError {
    /// The rsync binary could not be found.
    RsyncNotFound,
    /// The source list was empty. At least one source folder is required.
    NoSources,
    /// A source path does not exist on disk.
    SourceDoesNotExist(String),
    /// The destination path does not exist.
    DestinationDoesNotExist(String),
    /// The destination exists but is not a directory.
    DestinationNotADirectory(String),
    /// A process-level failure (for example, spawn or wait failed), with
    /// its reason.
    Process(String),
}

/// The view of a [`SyncError`].
pub enum SyncErrorView {
    RsyncNotFound,
    NoSources,
    SourceDoesNotExist(Seq<char>),
    DestinationDoesNotExist(Seq<char>),
    DestinationNotADirectory(Seq<char>),
    Process(Seq<char>),
}

impl View for SyncError {
    type V = SyncErrorView;

    open spec fn view(&self) -> SyncErrorView {
        match self {
            SyncError::RsyncNotFound => SyncErrorView::RsyncNotFound,
            SyncError::NoSources => SyncErrorView::NoSources,
            SyncError::SourceDoesNotExist(p) => SyncErrorView::SourceDoesNotExist(p@),
            SyncError::DestinationDoesNotExist(p) => SyncErrorView::DestinationDoesNotExist(p@),
            SyncError::DestinationNotADirectory(p) => SyncErrorView::DestinationNotADirectory(p@),
            SyncError::Process(e) => SyncErrorView::Process(e@),
        }
    }
}

/// The sentence that describes a sync error.
pub open spec fn sync_error_text(e: SyncErrorView) -> Seq<char> {
    match e {
        SyncErrorView::RsyncNotFound => "rsync binary could not be found"@,
        SyncErrorView::NoSources => "source list is empty; at least one source is required"@,
        SyncErrorView::SourceDoesNotExist(p) => "source does not exist: "@ + p,
        SyncErrorView::DestinationDoesNotExist(p) => "destination does not exist: "@ + p,
        SyncErrorView::DestinationNotADirectory(p) => "destination is not a directory: "@ + p,
        SyncErrorView::Process(e) => "process error: "@ + e,
    }
}

impl SyncError {
    /// The error as a sentence for the user.
    pub fn message(&self) -> (r: String)
        ensures
            r@ == sync_error_text(self@),
    {
        let (prefix, detail) = match self {
            SyncError::RsyncNotFound => ("rsync binary could not be found", ""),
            SyncError::NoSources => ("source list is empty; at least one source is required", ""),
            SyncError::SourceDoesNotExist(p) => ("source does not exist: ", p.as_str()),
            SyncError::DestinationDoesNotExist(p) => ("destination does not exist: ", p.as_str()),
            SyncError::DestinationNotADirectory(p) => ("destination is not a directory: ", p.as_str()),
            SyncError::Process(e) => ("process error: ", e.as_str()),
        };
        let mut v = chars_of(prefix);
        let d = chars_of(detail);
        extend_chars(&mut v, &d);
        proof {
            reveal_strlit("");
        }
        string_of(&v)
    }
}

/// The result of a sync run.
#[derive(Debug)]
pub enum SyncOutcome {
    /// rsync exited with code 0.
    Success {
        /// Captured standard error, without progress lines.
        stderr: String,
    },
    /// rsync exited with a non-zero code, or without one.
    Failure {
        /// The exit code, or `None` if rsync was ended by a signal.
        exit_code: Option<i32>,
        /// Captured standard error, without progress lines.
        stderr: String,
    },
    /// The sync was aborted by the user.
    Aborted,
}

/// The view of a [`SyncOutcome`].
pub enum SyncOutcomeView {
    Success { stderr: Seq<char> },
    Failure { exit_code: Option<i32>, stderr: Seq<char> },
    Aborted,
}

impl View for SyncOutcome {
    type V = SyncOutcomeView;

    open spec fn view(&self) -> SyncOutcomeView {
        match self {
            SyncOutcome::Success { stderr } => SyncOutcomeView::Success { stderr: stderr@ },
            SyncOutcome::Failure { exit_code, stderr } => SyncOutcomeView::Failure { exit_code: *exit_code, stderr: stderr@ },
            SyncOutcome::Aborted => SyncOutcomeView::Aborted,
        }
    }
}

/// The result of a dry run.
#[derive(Debug)]
pub struct DryRunOutcome {
    /// Captured standard output of rsync.
    pub stdout: String,
    /// Captured standard error of rsync.
    pub stderr: String,
}

/// What the filesystem holds at a path.
#[derive(Debug, Clone, Copy, PartialEq, Eq, Structural)]
pub enum PathState {
    /// Nothing exists at the path.
    Missing,
    /// Something other than a directory exists at the path.
    NotADirectory,
    /// A directory exists at the path.
    Directory,
}

/// What the program found on the machine for a plan, before rsync runs.
#[derive(Debug)]
pub struct PlanProbe {
    /// Whether the plan's binary resolves to a file (searched on PATH when
    /// it is a bare name).
    pub binary_found: bool,
    /// For each source, in order, whether it exists.
    pub sources_exist: Vec<bool>,
    /// What exists at the destination.
    pub destination: PathState,
}

} // verus!
