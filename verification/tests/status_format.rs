use silo::status_format::{
    dry_run_result_lines, dry_run_summary, reformat_stats_line, reformat_stats_summary, sync_result_lines, StatusKind,
};
use silo::sync_engine::{DryRunOutcome, SyncError, SyncOutcome};

#[test]
fn byte_count_lines_are_reformatted() {
    assert_eq!(reformat_stats_line("Total file size: 7,423,077,535 bytes"), "Total file size: 6.91 GiB");
    assert_eq!(reformat_stats_line("Total bytes sent: 517,176"), "Total bytes sent: 505.05 KiB");
    assert_eq!(reformat_stats_line("Total bytes received: 2,754"), "Total bytes received: 2.69 KiB");
    assert_eq!(
        reformat_stats_line("sent 517,176 bytes  received 2,754 bytes  1,039,860.00 bytes/sec"),
        "sent 505.05 KiB  received 2.69 KiB  1,039,860.00 bytes/sec"
    );
    assert_eq!(
        reformat_stats_line("total size is 7,423,077,535  speedup is 14,277.07 (DRY RUN)"),
        "total size is 6.91 GiB speedup is 14,277.07 (DRY RUN)"
    );
}

#[test]
fn other_lines_pass_through() {
    assert_eq!(reformat_stats_line("Number of files: 1,234 (reg: 1,000, dir: 234)"), "Number of files: 1,234 (reg: 1,000, dir: 234)");
    assert_eq!(reformat_stats_line("File list size: 0"), "File list size: 0");
    assert_eq!(reformat_stats_line("Total bytes sent: lots"), "Total bytes sent: lots");
    assert_eq!(reformat_stats_line("sent 1 bytes received"), "sent 1 bytes received");
    assert_eq!(reformat_stats_line("total size is 12"), "total size is 12");
    assert_eq!(reformat_stats_line(""), "");
    assert_eq!(reformat_stats_line("sent 0 bytes  received 0 bytes"), "sent 0 B  received 0 B  ");
}

#[test]
fn the_summary_starts_at_the_stats_block() {
    let stdout = "cd+++++++++ docs/\n>f+++++++++ docs/a.txt\n\nNumber of files: 2\nTotal file size: 2,048 bytes\n\n";
    assert_eq!(dry_run_summary(stdout), "Number of files: 2\nTotal file size: 2,048 bytes");
    assert_eq!(dry_run_summary("  no stats here \n"), "no stats here");
    assert_eq!(
        reformat_stats_summary("Number of files: 2\r\nTotal file size: 2,048 bytes\ntotal size is 2,048  speedup"),
        "Number of files: 2\nTotal file size: 2.00 KiB\ntotal size is 2.00 KiB speedup"
    );
    assert_eq!(reformat_stats_summary(""), "");
}

#[test]
fn dry_run_lines() {
    let outcome = DryRunOutcome {
        stdout: ">f+++ a\nNumber of files: 1\nTotal file size: 1,024 bytes\n".to_string(),
        stderr: "  rsync: warning  \n".to_string(),
    };
    let lines = dry_run_result_lines(&outcome);
    assert_eq!(lines.len(), 3);
    assert_eq!(lines[0].kind, StatusKind::Success);
    assert_eq!(lines[0].text, "Dry run complete");
    assert_eq!(lines[1].kind, StatusKind::Info);
    assert_eq!(lines[1].text, "Number of files: 1\nTotal file size: 1.00 KiB");
    assert_eq!(lines[2].kind, StatusKind::Error);
    assert_eq!(lines[2].text, "rsync: warning");
    let quiet = DryRunOutcome { stdout: "   ".to_string(), stderr: String::new() };
    let lines = dry_run_result_lines(&quiet);
    assert_eq!(lines.len(), 1);
}

#[test]
fn sync_lines() {
    let ok = sync_result_lines(&Ok(SyncOutcome::Success { stderr: " \n".to_string() }));
    assert_eq!(ok.len(), 1);
    assert_eq!(ok[0].kind, StatusKind::Success);
    assert_eq!(ok[0].text, "Sync complete.");
    let warned = sync_result_lines(&Ok(SyncOutcome::Success { stderr: "skipping x\n".to_string() }));
    assert_eq!(warned.len(), 2);
    assert_eq!(warned[1].kind, StatusKind::Error);
    assert_eq!(warned[1].text, "skipping x");
    let aborted = sync_result_lines(&Ok(SyncOutcome::Aborted));
    assert_eq!(aborted[0].kind, StatusKind::Error);
    assert_eq!(aborted[0].text, "Sync aborted");
    let failed = sync_result_lines(&Ok(SyncOutcome::Failure { exit_code: Some(23), stderr: "partial".to_string() }));
    assert_eq!(failed[0].text, "Sync failed: rsync exited with code 23");
    assert_eq!(failed[1].text, "partial");
    let signal = sync_result_lines(&Ok(SyncOutcome::Failure { exit_code: None, stderr: String::new() }));
    assert_eq!(signal.len(), 1);
    assert_eq!(signal[0].text, "Sync failed: rsync did not exit cleanly");
    let negative = sync_result_lines(&Ok(SyncOutcome::Failure { exit_code: Some(-1), stderr: String::new() }));
    assert_eq!(negative[0].text, "Sync failed: rsync exited with code -1");
    let err = sync_result_lines(&Err(SyncError::NoSources));
    assert_eq!(err[0].kind, StatusKind::Error);
    assert_eq!(err[0].text, "Sync failed: source list is empty; at least one source is required");
}
