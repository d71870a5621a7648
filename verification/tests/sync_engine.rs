use silo::sync_engine::command::{build, build_dry_run, build_progress};
use silo::sync_engine::runner::{dry_run, dry_run_outcome, is_progress_line, sync_outcome, sync_streaming, validate, LineSplitter};
use silo::sync_engine::{
    bundled_rsync, default_rsync_binary, sibling_rsync, PathState, PlanProbe, SyncError, SyncOutcome, SyncPlan,
};

fn strings(v: &[&str]) -> Vec<String> {
    v.iter().map(|s| s.to_string()).collect()
}

fn plan() -> SyncPlan {
    SyncPlan::new(
        strings(&["/home/u/photos/", "/home/u/docs"]),
        strings(&["node_modules", "  ", "*.log", ""]),
        "/mnt/backup".to_string(),
        "rsync".to_string(),
    )
}

fn good_probe() -> PlanProbe {
    PlanProbe { binary_found: true, sources_exist: vec![true, true], destination: PathState::Directory }
}

#[test]
fn sync_command_mirrors_sources_into_the_destination() {
    let cmd = build(&plan());
    assert_eq!(cmd.program, "rsync");
    assert_eq!(
        cmd.args,
        strings(&[
            "-a",
            "--delete",
            "--exclude=node_modules",
            "--exclude=*.log",
            "/home/u/photos",
            "/home/u/docs",
            "/mnt/backup/",
        ])
    );
}

#[test]
fn destination_keeps_a_single_trailing_slash() {
    let p = SyncPlan::new(strings(&["/s//"]), vec![], "/d/".to_string(), "/opt/rsync".to_string());
    let cmd = build(&p);
    assert_eq!(cmd.program, "/opt/rsync");
    assert_eq!(cmd.args, strings(&["-a", "--delete", "/s/", "/d/"]));
}

#[test]
fn progress_and_dry_run_commands_add_their_flags() {
    let base = build(&plan()).args;
    let progress = build_progress(&plan()).args;
    assert_eq!(progress[..base.len()], base[..]);
    assert_eq!(progress[base.len()..], strings(&["--info=progress2"])[..]);
    let dry = build_dry_run(&plan()).args;
    assert_eq!(dry[..base.len()], base[..]);
    assert_eq!(dry[base.len()..], strings(&["--dry-run", "--itemize-changes", "--stats"])[..]);
}

#[test]
fn validation_reports_the_first_problem() {
    let p = plan();
    assert!(validate(&p, &good_probe()).is_ok());
    let no_binary = PlanProbe { binary_found: false, ..good_probe() };
    assert!(matches!(validate(&p, &no_binary), Err(SyncError::RsyncNotFound)));
    let empty = SyncPlan::new(vec![], vec![], "/d".to_string(), "rsync".to_string());
    let probe = PlanProbe { binary_found: true, sources_exist: vec![], destination: PathState::Directory };
    assert!(matches!(validate(&empty, &probe), Err(SyncError::NoSources)));
    let missing = PlanProbe { sources_exist: vec![true, false], ..good_probe() };
    assert!(matches!(validate(&p, &missing), Err(SyncError::SourceDoesNotExist(s)) if s == "/home/u/docs"));
    let no_dest = PlanProbe { destination: PathState::Missing, ..good_probe() };
    assert!(matches!(validate(&p, &no_dest), Err(SyncError::DestinationDoesNotExist(d)) if d == "/mnt/backup"));
    let file_dest = PlanProbe { destination: PathState::NotADirectory, ..good_probe() };
    assert!(matches!(validate(&p, &file_dest), Err(SyncError::DestinationNotADirectory(_))));
}

#[test]
fn dry_run_and_sync_reject_the_same_plans() {
    let p = plan();
    let bad = PlanProbe { destination: PathState::Missing, ..good_probe() };
    assert!(matches!(dry_run(&p, &bad), Err(SyncError::DestinationDoesNotExist(_))));
    assert!(matches!(sync_streaming(&p, &bad), Err(SyncError::DestinationDoesNotExist(_))));
    assert!(dry_run(&p, &good_probe()).unwrap().args.contains(&"--dry-run".to_string()));
    assert!(sync_streaming(&p, &good_probe()).unwrap().args.contains(&"--info=progress2".to_string()));
}

#[test]
fn sync_error_messages() {
    assert_eq!(SyncError::RsyncNotFound.message(), "rsync binary could not be found");
    assert_eq!(SyncError::NoSources.message(), "source list is empty; at least one source is required");
    assert_eq!(SyncError::SourceDoesNotExist("/s".to_string()).message(), "source does not exist: /s");
    assert_eq!(SyncError::DestinationDoesNotExist("/d".to_string()).message(), "destination does not exist: /d");
    assert_eq!(SyncError::DestinationNotADirectory("/d".to_string()).message(), "destination is not a directory: /d");
    assert_eq!(SyncError::Process("broken pipe".to_string()).message(), "process error: broken pipe");
}

#[test]
fn rsync_binary_preference() {
    let bundled = bundled_rsync("/tmp/.mount_silo");
    assert_eq!(bundled, "/tmp/.mount_silo/usr/bin/rsync");
    let sibling = sibling_rsync("/opt/silo/bin");
    assert_eq!(sibling, "/opt/silo/bin/rsync");
    assert_eq!(default_rsync_binary(true, Some((&bundled, true)), Some((&sibling, true))), "rsync");
    assert_eq!(default_rsync_binary(false, Some((&bundled, true)), Some((&sibling, true))), bundled);
    assert_eq!(default_rsync_binary(false, Some((&bundled, false)), Some((&sibling, true))), sibling);
    assert_eq!(default_rsync_binary(false, None, Some((&sibling, false))), "rsync");
}

#[test]
fn progress_lines_are_recognized() {
    assert!(is_progress_line("1,234,567  12%  123.45MB/s  0:00:05 (xfr#3, to-chk=10/20)"));
    assert!(is_progress_line("      0   0%    0.00kB/s    0:00:00"));
    assert!(is_progress_line("532 100.0%"));
    assert!(is_progress_line("5 1e2%%"));
    assert!(!is_progress_line("rsync: some warning"));
    assert!(!is_progress_line("1,234 abc%"));
    assert!(!is_progress_line("1,234 12"));
    assert!(!is_progress_line("-5 12%"));
    assert!(!is_progress_line("12%"));
    assert!(!is_progress_line(""));
}

#[test]
fn outcome_keeps_only_warnings() {
    let lines = strings(&["  100  50%  1.00MB/s  0:00:01", "rsync: warning one", "200 100%", "second"]);
    match sync_outcome(&lines, false, Some(0)) {
        SyncOutcome::Success { stderr } => assert_eq!(stderr, "rsync: warning one\nsecond\n"),
        other => panic!("expected success, got {other:?}"),
    }
    match sync_outcome(&lines, false, Some(23)) {
        SyncOutcome::Failure { exit_code, stderr } => {
            assert_eq!(exit_code, Some(23));
            assert_eq!(stderr, "rsync: warning one\nsecond\n");
        }
        other => panic!("expected failure, got {other:?}"),
    }
    assert!(matches!(sync_outcome(&vec![], false, None), SyncOutcome::Failure { exit_code: None, .. }));
    assert!(matches!(sync_outcome(&lines, true, Some(0)), SyncOutcome::Aborted));
}

#[test]
fn lines_do_not_depend_on_chunking() {
    let stream = b"first\r\rsecond\nthird\r\nlast";
    let mut whole = LineSplitter::new();
    let mut all = whole.feed(stream);
    if let Some(l) = whole.finish() {
        all.push(l);
    }
    assert_eq!(all, strings(&["first", "second", "third", "last"]));
    for cut in 0..stream.len() {
        let mut s = LineSplitter::new();
        let mut got = s.feed(&stream[..cut]);
        got.extend(s.feed(&stream[cut..]));
        if let Some(l) = s.finish() {
            got.push(l);
        }
        assert_eq!(got, all);
    }
}

#[test]
fn invalid_utf8_becomes_replacement_characters() {
    let mut s = LineSplitter::new();
    let lines = s.feed(b"ok\n\xff\xfe\n");
    assert_eq!(lines, vec!["ok".to_string(), "\u{FFFD}\u{FFFD}".to_string()]);
    assert_eq!(s.finish(), None);
    let out = dry_run_outcome(b"Number of files: 3\n", b"caf\xc3\xa9 \xc3");
    assert_eq!(out.stdout, "Number of files: 3\n");
    assert_eq!(out.stderr, "caf\u{e9} \u{FFFD}");
}

#[test]
fn a_line_of_invalid_bytes_is_never_empty_text() {
    let mut s = LineSplitter::new();
    assert!(s.feed(b"\r\n\x80").is_empty());
    assert_eq!(s.finish(), Some("\u{FFFD}".to_string()));
}
