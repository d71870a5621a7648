use silo::display::{chip_name, chip_path, destination_menu_label, folder_menu_label};
use silo::display::{civil_date, extension_label, file_value, format_date, full_path, percent_label, stats_rows, FileDetail};
use silo::progress::{format_eta, SyncProgress};
use silo::silo_analysis::{FileRef, Stats};

fn file_ref(name: &str, size: u64, modified: Option<i64>) -> FileRef {
    FileRef {
        name: name.to_string(),
        root: "/data".to_string(),
        relative_path: format!("docs/{name}"),
        size_bytes: size,
        modified,
    }
}

#[test]
fn civil_dates() {
    assert_eq!(civil_date(0), "1970-01-01 00:00");
    assert_eq!(civil_date(1_724_509_920), "2024-08-24 14:32");
    assert_eq!(civil_date(951_782_400), "2000-02-29 00:00");
    assert_eq!(civil_date(-1), "1969-12-31 23:59");
    assert_eq!(civil_date(-86_400 * 365), "1969-01-01 00:00");
    assert_eq!(civil_date(253_402_300_799), "9999-12-31 23:59");
    assert_eq!(civil_date(-62_135_596_800), "0001-01-01 00:00");
    assert_eq!(civil_date(-62_167_219_200), "0000-01-01 00:00");
    assert_eq!(civil_date(-62_198_755_200), "-001-01-01 00:00");
}

#[test]
fn century_years_are_leap_years_only_every_fourth_century() {
    assert_eq!(civil_date(-2_203_891_200 - 60), "1900-02-28 23:59");
    assert_eq!(civil_date(-2_203_891_200), "1900-03-01 00:00");
    assert_eq!(civil_date(4_107_542_400 - 60), "2100-02-28 23:59");
    assert_eq!(civil_date(4_107_542_400), "2100-03-01 00:00");
    assert_eq!(civil_date(951_868_800 - 60), "2000-02-29 23:59");
    assert_eq!(civil_date(-11_670_998_400), "1600-02-29 00:00");
}

#[test]
fn dates_and_file_values() {
    assert_eq!(format_date(None), "\u{2014}");
    assert_eq!(format_date(Some(0)), "1970-01-01 00:00");
    let f = file_ref("a.txt", 1536, Some(86_400));
    assert_eq!(file_value(Some(&f), FileDetail::Size), "a.txt \u{b7} 1.50 KiB");
    assert_eq!(file_value(Some(&f), FileDetail::Modified), "a.txt \u{b7} 1970-01-02 00:00");
    assert_eq!(file_value(None, FileDetail::Size), "\u{2014}");
    assert_eq!(full_path(&f), "/data/docs/a.txt");
}

#[test]
fn stats_table_rows() {
    let stats = Stats {
        total_files: 3,
        total_dirs: 1,
        empty_folder_paths: vec!["/data/e".to_string()],
        total_size_bytes: 2048,
        zero_byte_files: vec![],
        largest_file: Some(file_ref("big", 2048, None)),
        smallest_file: None,
        average_file_size_bytes: Some(682),
        oldest_file: Some(file_ref("old", 1, Some(0))),
        newest_file: None,
        file_types: vec![],
    };
    let rows = stats_rows(&stats);
    let expected: Vec<(String, String)> = vec![
        ("TOTAL FILES", "3"),
        ("TOTAL FOLDERS", "1"),
        ("EMPTY FOLDERS", "1"),
        ("TOTAL SIZE", "2.00 KiB"),
        ("ZERO-BYTE FILES", "0"),
        ("AVERAGE FILE SIZE", "682.00 B"),
        ("LARGEST FILE", "big \u{b7} 2.00 KiB"),
        ("SMALLEST FILE", "\u{2014}"),
        ("OLDEST FILE", "old \u{b7} 1970-01-01 00:00"),
        ("NEWEST FILE", "\u{2014}"),
    ]
    .into_iter()
    .map(|(a, b)| (a.to_string(), b.to_string()))
    .collect();
    assert_eq!(rows, expected);
}

#[test]
fn allocation_labels() {
    assert_eq!(percent_label(4257), "42.57%");
    assert_eq!(percent_label(10000), "100.00%");
    assert_eq!(percent_label(5), "0.05%");
    assert_eq!(percent_label(0), "< 0.00%");
    assert_eq!(extension_label("mov"), ".MOV");
    assert_eq!(extension_label("tar.gz"), ".TAR.GZ");
    assert_eq!(extension_label("straße"), ".STRASSE");
    assert_eq!(extension_label("no-extension"), "(no extension)");
}

#[test]
fn progress_labels() {
    assert_eq!(format_eta(0), "00:00:00");
    assert_eq!(format_eta(725), "00:12:05");
    assert_eq!(format_eta(3_600 * 125 + 61), "125:01:01");
    let p = SyncProgress { transferred: 2 * 1024 * 1024 * 1024, total: 5_905_580_032, eta_secs: 725 };
    assert_eq!(p.eta_text(), "ETA: 00:12:05");
    assert_eq!(p.sizes_text(), "2.00 GiB / 5.50 GiB");
}

#[test]
fn chip_names_follow_the_last_path_component() {
    for p in ["/home/user/silo/theme/color_theme/", "/a/b", "a", "/", "", "/a/..", "./x/.", "..", "a//b", "/mnt/My Drive"] {
        let expected = std::path::Path::new(p)
            .file_name()
            .map(|n| n.to_string_lossy().into_owned())
            .unwrap_or_else(|| p.to_string());
        assert_eq!(chip_name(p), expected, "{p:?}");
    }
    assert_eq!(chip_name("/home/user/silo/theme/color_theme/"), "color_theme");
    assert_eq!(chip_path("/mnt/backup"), "/mnt/backup/");
    assert_eq!(chip_path("/mnt/backup/"), "/mnt/backup/");
    assert_eq!(folder_menu_label("/home/u/photos"), "Remove folder (photos) from Silo");
    assert_eq!(destination_menu_label("/mnt/backup/"), "Remove sync destination (backup)");
}
