use silo::config::{ConfigError, SiloSettings};
use silo::scan::{FileMeta, LinkTarget, RootState, ScanEntry, ScanKind, SiloScan};
use silo::silo_size::{compute, human_size, is_excluded, path_size_bytes, silo_size_label, total_size_bytes, SiloSizeError};

fn file(parent: usize, name: &str, len: u64) -> ScanEntry {
    ScanEntry { parent, name: name.to_string(), kind: ScanKind::File { meta: Ok(FileMeta { len, modified: None }) } }
}

fn dir(parent: usize, name: &str) -> ScanEntry {
    ScanEntry { parent, name: name.to_string(), kind: ScanKind::Dir { read_error: None } }
}

fn listed(root: &str, entries: Vec<ScanEntry>) -> SiloScan {
    SiloScan { root: root.to_string(), state: RootState::Listed, entries }
}

fn strings(v: &[&str]) -> Vec<String> {
    v.iter().map(|s| s.to_string()).collect()
}

#[test]
fn exclude_keywords_match_names_and_extensions() {
    let ex = strings(&["node_modules", ".MOV", "*.log", "  ", ".", "build "]);
    assert!(is_excluded("node_modules", true, &ex));
    assert!(is_excluded("node_modules", false, &ex));
    assert!(is_excluded("clip.mov", false, &ex));
    assert!(is_excluded("CLIP.Mov", false, &ex));
    assert!(!is_excluded("clip.mov", true, &ex));
    assert!(is_excluded("server.log", false, &ex));
    assert!(!is_excluded("log", false, &ex));
    assert!(is_excluded("build", true, &ex));
    assert!(!is_excluded("Build", true, &ex));
    assert!(!is_excluded("", false, &ex));
    assert!(!is_excluded("movie.mp4", false, &ex));
    assert!(!is_excluded("anything", false, &vec![]));
}

#[test]
fn star_extension_is_the_same_as_the_dot_keyword() {
    for name in ["a.mov", "b.MOV", "mov", ".mov", "c.mp4"] {
        assert_eq!(
            is_excluded(name, false, &strings(&["*.mov"])),
            is_excluded(name, false, &strings(&[".mov"]))
        );
    }
}

#[test]
fn folder_size_skips_excluded_subtrees_and_symlinks() {
    let scan = listed(
        "/src",
        vec![
            dir(0, "cache"),
            file(1, "huge.bin", 1_000_000),
            dir(0, "docs"),
            file(3, "a.txt", 100),
            file(3, "b.log", 50),
            ScanEntry {
                parent: 0,
                name: "link".to_string(),
                kind: ScanKind::Symlink { target: Ok(LinkTarget { is_dir: false, meta: FileMeta { len: 7, modified: None } }) },
            },
            ScanEntry { parent: 0, name: "bad".to_string(), kind: ScanKind::File { meta: Err("gone".to_string()) } },
        ],
    );
    assert_eq!(path_size_bytes(&scan, &strings(&["cache", ".log"])).unwrap(), 100);
    assert_eq!(path_size_bytes(&scan, &vec![]).unwrap(), 1_000_150);
}

#[test]
fn folder_size_errors() {
    let missing = SiloScan { root: "/nope".to_string(), state: RootState::Missing, entries: vec![] };
    assert!(matches!(path_size_bytes(&missing, &vec![]), Err(SiloSizeError::PathDoesNotExist(p)) if p == "/nope"));
    let file_root = SiloScan { root: "/f".to_string(), state: RootState::NotADirectory, entries: vec![] };
    assert!(matches!(path_size_bytes(&file_root, &vec![]), Err(SiloSizeError::PathNotADirectory(_))));
    let locked = SiloScan {
        root: "/l".to_string(),
        state: RootState::Unreadable { error: "denied".to_string() },
        entries: vec![],
    };
    match path_size_bytes(&locked, &vec![]) {
        Err(SiloSizeError::Walk(p, e)) => {
            assert_eq!(p, "/l");
            assert_eq!(e, "denied");
        }
        other => panic!("expected Walk, got {other:?}"),
    }
    let inner = listed(
        "/s",
        vec![ScanEntry { parent: 0, name: "private".to_string(), kind: ScanKind::Dir { read_error: Some("denied".to_string()) } }],
    );
    assert_eq!(path_size_bytes(&inner, &strings(&["private"])).unwrap(), 0);
}

#[test]
fn unlistable_subdirectories_are_skipped() {
    let scan = listed(
        "/s",
        vec![
            file(0, "a", 5),
            ScanEntry { parent: 0, name: "private".to_string(), kind: ScanKind::Dir { read_error: Some("denied".to_string()) } },
            dir(0, "open"),
            file(3, "b", 7),
        ],
    );
    assert_eq!(path_size_bytes(&scan, &vec![]).unwrap(), 12);
    assert_eq!(total_size_bytes(&vec![scan], &vec![]).unwrap(), 12);
}

#[test]
fn more_exclude_patterns_never_increase_the_total() {
    let scans = vec![listed("/a", vec![dir(0, "d"), file(1, "x.log", 10), file(0, "y.txt", 3)])];
    let base = total_size_bytes(&scans, &strings(&["nothing"])).unwrap();
    let more = total_size_bytes(&scans, &strings(&["nothing", ".log"])).unwrap();
    let most = total_size_bytes(&scans, &strings(&["nothing", ".log", "d", "y.txt"])).unwrap();
    assert!(more <= base && most <= more);
    assert_eq!((base, more, most), (13, 3, 0));
    assert_eq!(total_size_bytes(&vec![], &strings(&["x"])).unwrap(), 0);
}

#[test]
fn total_size_sums_every_folder() {
    let a = listed("/a", vec![file(0, "x", 10)]);
    let b = listed("/b", vec![dir(0, "d"), file(1, "y", 32)]);
    assert_eq!(total_size_bytes(&vec![a, b], &vec![]).unwrap(), 42);
    let c = listed("/c", vec![file(0, "z", 1)]);
    let missing = SiloScan { root: "/m".to_string(), state: RootState::Missing, entries: vec![] };
    assert!(matches!(total_size_bytes(&vec![c, missing], &vec![]), Err(SiloSizeError::PathDoesNotExist(_))));
}

#[test]
fn compute_and_label_from_settings() {
    let settings = SiloSettings {
        silo_data_paths: strings(&["/a"]),
        excludes: strings(&[".tmp"]),
        rsync_dest_path: None,
    };
    let scans = vec![listed("/a", vec![file(0, "keep.bin", 2048), file(0, "drop.tmp", 5)])];
    assert_eq!(compute(Ok(settings), &scans).unwrap(), 2048);
    let settings = SiloSettings { silo_data_paths: strings(&["/a"]), excludes: vec![], rsync_dest_path: None };
    assert_eq!(silo_size_label(Ok(settings), &scans), "2.00 KiB");
    let failed = silo_size_label(Err(ConfigError::HomeDirNotFound), &vec![]);
    assert_eq!(failed, "N/A");
    match compute(Err(ConfigError::Sql("x".to_string())), &vec![]) {
        Err(e) => assert_eq!(e.message(), "could not load the settings: settings database error: x"),
        Ok(_) => panic!("expected an error"),
    }
}

#[test]
fn human_size_uses_binary_units_with_two_decimals() {
    assert_eq!(human_size(0), "0 B");
    assert_eq!(human_size(1), "1.00 B");
    assert_eq!(human_size(1023), "1023.00 B");
    assert_eq!(human_size(1024), "1.00 KiB");
    assert_eq!(human_size(1536), "1.50 KiB");
    assert_eq!(human_size(1_048_576), "1.00 MiB");
    assert_eq!(human_size(7_423_077_535), "6.91 GiB");
    assert_eq!(human_size(1_099_511_627_776), "1.00 TiB");
    assert_eq!(human_size(1_125_899_906_842_624), "1.00 PiB");
    assert_eq!(human_size(u64::MAX), "16384.00 PiB");
}

#[test]
fn size_error_messages() {
    assert_eq!(SiloSizeError::PathDoesNotExist("/x".to_string()).message(), "source folder does not exist: /x");
    assert_eq!(SiloSizeError::PathNotADirectory("/x".to_string()).message(), "source folder is not a directory: /x");
    assert_eq!(
        SiloSizeError::Walk("/x".to_string(), "denied".to_string()).message(),
        "could not read source folder /x: denied"
    );
}
