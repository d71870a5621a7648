use silo::scan::{FileMeta, LinkTarget, RootState, ScanEntry, ScanKind, SiloScan};
use silo::silo_analysis::file_type_allocation::NO_EXTENSION;
use silo::silo_analysis::{analyze, merged_file_types, AnalysisError};

fn file(parent: usize, name: &str, len: u64, modified: Option<i64>) -> ScanEntry {
    ScanEntry {
        parent,
        name: name.to_string(),
        kind: ScanKind::File { meta: Ok(FileMeta { len, modified }) },
    }
}

fn dir(parent: usize, name: &str) -> ScanEntry {
    ScanEntry { parent, name: name.to_string(), kind: ScanKind::Dir { read_error: None } }
}

fn listed(root: &str, entries: Vec<ScanEntry>) -> SiloScan {
    SiloScan { root: root.to_string(), state: RootState::Listed, entries }
}

/// Layout:
/// - a.txt        (5 bytes)
/// - b.bin        (10 bytes)
/// - docs/
///   - c.txt      (15 bytes)
///   - sub/
///     - d.log    (20 bytes)
fn sample_silo() -> SiloScan {
    listed(
        "/tmp/silo_analysis_test_sample",
        vec![
            file(0, "a.txt", 5, Some(1_000)),
            file(0, "b.bin", 10, Some(2_000)),
            dir(0, "docs"),
            file(3, "c.txt", 15, Some(3_000)),
            dir(3, "sub"),
            file(5, "d.log", 20, Some(4_000)),
        ],
    )
}

#[test]
fn analyzes_recursively_and_reports_files_and_dirs() {
    let root = sample_silo();
    let report = analyze(&root, &vec![]).expect("analysis must succeed");

    assert_eq!(report.root, root.root);
    assert_eq!(report.files.len(), 4);
    assert_eq!(report.dirs.len(), 2);
    assert_eq!(report.stats.total_dirs, 2);
    assert!(report.scan_errors.is_empty());
}

#[test]
fn computes_totals_largest_smallest_and_average() {
    let root = sample_silo();
    let report = analyze(&root, &vec![]).expect("analysis must succeed");
    let stats = &report.stats;

    assert_eq!(stats.total_files, 4);
    assert_eq!(stats.total_size_bytes, 50);

    let largest = stats.largest_file.as_ref().expect("largest file");
    assert_eq!(largest.name, "d.log");
    assert_eq!(largest.size_bytes, 20);

    let smallest = stats.smallest_file.as_ref().expect("smallest file");
    assert_eq!(smallest.name, "a.txt");
    assert_eq!(smallest.size_bytes, 5);

    assert_eq!(stats.average_file_size_bytes, Some(12));
}

#[test]
fn computes_file_types_with_size_share() {
    let root = sample_silo();
    let report = analyze(&root, &vec![]).expect("analysis must succeed");
    let types = &report.stats.file_types;

    // Expected by total bytes descending: log=20, txt=20, bin=10.
    // Ties keep alphabetical order, so log precedes txt.
    assert_eq!(types.len(), 3);
    assert_eq!(types[0].extension, "log");
    assert_eq!(types[0].count, 1);
    assert_eq!(types[0].total_bytes, 20);
    assert_eq!(types[0].percent_hundredths as f64 / 100.0, 40.0);

    assert_eq!(types[1].extension, "txt");
    assert_eq!(types[1].count, 2);
    assert_eq!(types[1].total_bytes, 20);
    assert_eq!(types[1].percent_hundredths as f64 / 100.0, 40.0);

    assert_eq!(types[2].extension, "bin");
    assert_eq!(types[2].count, 1);
    assert_eq!(types[2].total_bytes, 10);
    assert_eq!(types[2].percent_hundredths as f64 / 100.0, 20.0);
}

#[test]
fn rejects_a_missing_path() {
    let missing = "/tmp/silo_analysis_test_missing/does_not_exist";
    let scan = SiloScan { root: missing.to_string(), state: RootState::Missing, entries: vec![] };
    match analyze(&scan, &vec![]) {
        Err(AnalysisError::PathDoesNotExist(p)) => assert_eq!(p, missing),
        other => panic!("expected PathDoesNotExist, got {other:?}"),
    }
}

#[test]
fn rejects_a_file_path() {
    let file_path = "/tmp/silo_analysis_test_file/plain.txt";
    let scan = SiloScan { root: file_path.to_string(), state: RootState::NotADirectory, entries: vec![] };
    match analyze(&scan, &vec![]) {
        Err(AnalysisError::PathNotADirectory(p)) => assert_eq!(p, file_path),
        other => panic!("expected PathNotADirectory, got {other:?}"),
    }
}

#[test]
fn empty_silo_reports_zero_stats_and_no_file_types() {
    let root = listed("/tmp/silo_analysis_test_empty", vec![]);

    let report = analyze(&root, &vec![]).expect("analysis must succeed");
    assert_eq!(report.files.len(), 0);
    assert_eq!(report.dirs.len(), 0);
    assert_eq!(report.stats.total_files, 0);
    assert_eq!(report.stats.total_size_bytes, 0);
    assert_eq!(report.stats.largest_file, None);
    assert_eq!(report.stats.smallest_file, None);
    assert_eq!(report.stats.average_file_size_bytes, None);
    assert!(report.stats.file_types.is_empty());
}

#[test]
fn files_without_extension_are_grouped() {
    let root = listed(
        "/tmp/silo_analysis_test_noext",
        vec![file(0, "Makefile", 4, None), file(0, ".gitignore", 7, None)],
    );

    let report = analyze(&root, &vec![]).expect("analysis must succeed");
    assert_eq!(report.stats.total_files, 2);

    let no_ext = report
        .stats
        .file_types
        .iter()
        .find(|t| t.extension == NO_EXTENSION)
        .expect("no-extension group");

    assert_eq!(no_ext.count, 2);
}

#[test]
fn unreadable_root_is_a_walk_error() {
    let scan = SiloScan {
        root: "/srv/locked".to_string(),
        state: RootState::Unreadable { error: "permission denied".to_string() },
        entries: vec![],
    };
    match analyze(&scan, &vec![]) {
        Err(AnalysisError::WalkRoot(e)) => assert_eq!(e, "permission denied"),
        other => panic!("expected WalkRoot, got {other:?}"),
    }
}

#[test]
fn unlistable_subdirectory_is_recorded_and_the_walk_continues() {
    let scan = listed(
        "/data",
        vec![
            file(0, "a.txt", 1, None),
            ScanEntry { parent: 0, name: "secret".to_string(), kind: ScanKind::Dir { read_error: Some("denied".to_string()) } },
            dir(0, "open"),
            file(3, "b.txt", 2, None),
        ],
    );
    let report = analyze(&scan, &vec![]).expect("only the root can fail");
    assert_eq!(report.scan_errors, vec!["could not read directory /data/secret: denied".to_string()]);
    assert_eq!(report.files.len(), 2);
    assert_eq!(report.dirs.len(), 2);
    assert_eq!(report.stats.total_size_bytes, 3);
    // The unlistable directory is not an empty folder: its content is unknown.
    assert!(report.stats.empty_folder_paths.is_empty());
    // Excluding the directory means it is never entered.
    let report = analyze(&scan, &vec!["secret".to_string()]).expect("excluded dir is skipped");
    assert!(report.scan_errors.is_empty());
    assert_eq!(report.files.len(), 2);
    assert_eq!(report.dirs.len(), 1);
}

#[test]
fn sub_entry_failures_are_recorded_and_the_walk_continues() {
    let scan = listed(
        "/data",
        vec![
            ScanEntry { parent: 0, name: String::new(), kind: ScanKind::EntryError { error: "io".to_string() } },
            ScanEntry { parent: 0, name: "weird".to_string(), kind: ScanKind::TypeError { error: "stat".to_string() } },
            ScanEntry { parent: 0, name: "gone.txt".to_string(), kind: ScanKind::File { meta: Err("vanished".to_string()) } },
            file(0, "kept.txt", 3, Some(7)),
        ],
    );
    let report = analyze(&scan, &vec![]).expect("analysis must succeed");
    assert_eq!(
        report.scan_errors,
        vec![
            "could not read an entry in /data: io".to_string(),
            "could not inspect /data/weird: stat".to_string(),
            "could not read metadata for /data/gone.txt: vanished".to_string(),
        ]
    );
    assert_eq!(report.files.len(), 1);
    assert_eq!(report.files[0].relative_path, "kept.txt");
}

#[test]
fn excluded_directories_and_files_are_skipped() {
    let scan = listed(
        "/data",
        vec![
            dir(0, "node_modules"),
            file(1, "big.js", 1000, None),
            file(0, "clip.MOV", 30, None),
            file(0, "notes.md", 2, None),
        ],
    );
    let report = analyze(&scan, &vec!["node_modules".to_string(), "*.mov".to_string()]).unwrap();
    assert_eq!(report.files.len(), 1);
    assert_eq!(report.files[0].name, "notes.md");
    assert_eq!(report.stats.total_size_bytes, 2);
    assert!(report.dirs.is_empty());
}

#[test]
fn empty_folders_zero_byte_files_and_dates() {
    let scan = listed(
        "/data",
        vec![
            dir(0, "empty"),
            dir(0, "full"),
            file(2, "z.bin", 0, Some(50)),
            file(2, "old.txt", 4, Some(10)),
            file(2, "new.txt", 4, Some(90)),
        ],
    );
    let report = analyze(&scan, &vec![]).unwrap();
    let stats = &report.stats;
    assert_eq!(stats.empty_folder_paths, vec!["/data/empty".to_string()]);
    assert_eq!(stats.zero_byte_files.len(), 1);
    assert_eq!(stats.zero_byte_files[0].relative_path, "full/z.bin");
    assert_eq!(stats.zero_byte_files[0].root, "/data");
    // The smallest file may be empty.
    assert_eq!(stats.smallest_file.as_ref().unwrap().name, "z.bin");
    // The last of equal sizes is the largest.
    assert_eq!(stats.largest_file.as_ref().unwrap().name, "new.txt");
    assert_eq!(stats.oldest_file.as_ref().unwrap().name, "old.txt");
    assert_eq!(stats.newest_file.as_ref().unwrap().name, "new.txt");
    assert_eq!(stats.average_file_size_bytes, Some(2));
}

#[test]
fn symlinks_to_files_count_and_links_to_directories_do_not() {
    let scan = listed(
        "/data",
        vec![
            ScanEntry {
                parent: 0,
                name: "link.txt".to_string(),
                kind: ScanKind::Symlink { target: Ok(LinkTarget { is_dir: false, meta: FileMeta { len: 9, modified: None } }) },
            },
            ScanEntry {
                parent: 0,
                name: "loop".to_string(),
                kind: ScanKind::Symlink { target: Ok(LinkTarget { is_dir: true, meta: FileMeta { len: 0, modified: None } }) },
            },
        ],
    );
    let report = analyze(&scan, &vec![]).unwrap();
    assert_eq!(report.files.len(), 1);
    assert_eq!(report.stats.total_size_bytes, 9);
}

#[test]
fn merged_file_types_skip_folders_that_fail() {
    let good = listed("/a", vec![file(0, "x.txt", 30, None), file(0, "y.png", 10, None)]);
    let missing = SiloScan { root: "/b".to_string(), state: RootState::Missing, entries: vec![] };
    let other = listed("/c", vec![file(0, "z.TXT", 10, None)]);
    let types = merged_file_types(&vec![good, missing, other], &vec![]);
    assert_eq!(types.len(), 3);
    assert_eq!(types[0].extension, "txt");
    assert_eq!(types[0].total_bytes, 30);
    assert_eq!(types[0].percent_hundredths, 6000);
    // "TXT" and "png" tie at 10 bytes; uppercase sorts first.
    assert_eq!(types[1].extension, "TXT");
    assert_eq!(types[2].extension, "png");
    assert_eq!(types[2].percent_hundredths, 2000);
}

#[test]
fn analysis_error_messages() {
    assert_eq!(
        AnalysisError::PathDoesNotExist("/x".to_string()).message(),
        "path to analyze does not exist: /x"
    );
    assert_eq!(
        AnalysisError::PathNotADirectory("/x".to_string()).message(),
        "path to analyze is not a directory: /x"
    );
    assert_eq!(AnalysisError::WalkRoot("boom".to_string()).message(), "failed to walk the silo root: boom");
}

#[test]
fn analysis_and_silo_size_agree_without_links() {
    let scan = sample_silo();
    let excludes = vec!["sub".to_string(), ".bin".to_string()];
    let report = analyze(&scan, &excludes).unwrap();
    let size = silo::silo_size::path_size_bytes(&scan, &excludes).unwrap();
    assert_eq!(report.stats.total_size_bytes, size);
    assert_eq!(size, 20);
}

#[test]
fn breakdown_groups_partition_the_files() {
    let report = analyze(&sample_silo(), &vec![]).unwrap();
    let types = &report.stats.file_types;
    assert_eq!(types.iter().map(|t| t.count).sum::<u64>(), report.stats.total_files);
    assert_eq!(types.iter().map(|t| t.total_bytes).sum::<u64>(), report.stats.total_size_bytes);
}

#[test]
fn a_silo_of_empty_files_has_a_smallest_file() {
    let scan = listed("/e", vec![file(0, "a", 0, None), file(0, "b", 0, None)]);
    let stats = analyze(&scan, &vec![]).unwrap().stats;
    // The first of several equally small files wins.
    assert_eq!(stats.smallest_file.as_ref().unwrap().name, "a");
    assert_eq!(stats.largest_file.as_ref().unwrap().name, "b");
}

#[test]
fn a_clean_tree_has_no_scan_errors_and_no_excluded_entries() {
    let scan = listed(
        "/c",
        vec![dir(0, "keep"), file(1, "a.txt", 1, None), dir(0, "skip"), file(3, "b.txt", 2, None), file(0, "c.tmp", 4, None)],
    );
    let excludes = vec!["skip".to_string(), ".tmp".to_string()];
    let report = analyze(&scan, &excludes).unwrap();
    assert!(report.scan_errors.is_empty());
    let names: Vec<&str> = report.files.iter().map(|f| f.name.as_str()).collect();
    assert_eq!(names, vec!["a.txt"]);
    assert_eq!(report.dirs.len(), 1);
    assert_eq!(report.stats.total_size_bytes, silo::silo_size::path_size_bytes(&scan, &excludes).unwrap());
}

#[test]
fn shares_of_a_total_smaller_than_the_files_exceed_one_hundred_percent() {
    let files = vec![("mov".to_string(), 300u64), ("txt".to_string(), 100u64)];
    let types = silo::silo_analysis::file_type_allocation::compute_file_types(&files, 200);
    assert_eq!(types.len(), 2);
    assert_eq!(types[0].extension, "mov");
    assert_eq!(types[0].percent_hundredths, 15000);
    assert_eq!(types[1].extension, "txt");
    assert_eq!(types[1].percent_hundredths, 5000);
    let empty_total = silo::silo_analysis::file_type_allocation::compute_file_types(&files, 0);
    assert_eq!(empty_total[0].percent_hundredths, 0);
    assert_eq!(silo::silo_analysis::file_type_allocation::percentage(u64::MAX, 1), 184_467_440_737_095_516_150_000);
}
