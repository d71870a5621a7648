use silo::desktop_entry::{desktop_entry_text, desktop_file_path, desktop_file_path_in, entry_update, exec_from_desktop, icon_path, icon_path_in_dir};
use silo::dialogs::{build_sync_plan, dry_run_error_lines, start_dry_run, start_sync, sync_started, toggle_menu, ChartSelection, ConfigFlags, FolderList, PointerEvent};
use silo::folder_size::{folder_size_bytes, folder_size_label};
use silo::scan::{FileMeta, LinkTarget, RootState, ScanEntry, ScanKind, SiloScan};
use silo::silo_size::SiloSizeError;
use silo::status_format::StatusKind;
use silo::sync_engine::SyncError;

fn file(parent: usize, name: &str, len: u64) -> ScanEntry {
    ScanEntry { parent, name: name.to_string(), kind: ScanKind::File { meta: Ok(FileMeta { len, modified: None }) } }
}

fn strings(v: &[&str]) -> Vec<String> {
    v.iter().map(|s| s.to_string()).collect()
}

#[test]
fn folder_size_counts_every_regular_file() {
    let scan = SiloScan {
        root: "/p".to_string(),
        state: RootState::Listed,
        entries: vec![
            ScanEntry { parent: 0, name: "node_modules".to_string(), kind: ScanKind::Dir { read_error: None } },
            file(1, "a.js", 1000),
            file(0, "b.txt", 24),
            ScanEntry {
                parent: 0,
                name: "link".to_string(),
                kind: ScanKind::Symlink { target: Ok(LinkTarget { is_dir: false, meta: FileMeta { len: 99, modified: None } }) },
            },
            ScanEntry { parent: 0, name: "sock".to_string(), kind: ScanKind::Other },
        ],
    };
    assert_eq!(folder_size_bytes(&scan).unwrap(), 1024);
    assert_eq!(folder_size_label(&scan), "1.00 KiB");
}

#[test]
fn any_read_failure_makes_the_folder_size_unknown() {
    let failing = SiloScan {
        root: "/p".to_string(),
        state: RootState::Listed,
        entries: vec![
            file(0, "a", 1),
            ScanEntry { parent: 0, name: "d".to_string(), kind: ScanKind::Dir { read_error: Some("denied".to_string()) } },
            ScanEntry { parent: 0, name: "f".to_string(), kind: ScanKind::File { meta: Err("gone".to_string()) } },
        ],
    };
    // The whole tree is walked; the first failure met is returned.
    match folder_size_bytes(&failing) {
        Err(SiloSizeError::Walk(root, reason)) => {
            assert_eq!(root, "/p");
            assert_eq!(reason, "denied");
        }
        other => panic!("expected a walk error, got {other:?}"),
    }
    assert_eq!(folder_size_label(&failing), "N/A");
    let missing = SiloScan { root: "/m".to_string(), state: RootState::Missing, entries: vec![] };
    assert!(matches!(folder_size_bytes(&missing), Err(SiloSizeError::PathDoesNotExist(p)) if p == "/m"));
    let locked = SiloScan {
        root: "/l".to_string(),
        state: RootState::Unreadable { error: "denied".to_string() },
        entries: vec![],
    };
    assert!(matches!(folder_size_bytes(&locked), Err(SiloSizeError::Walk(_, e)) if e == "denied"));
}

#[test]
fn folder_list_mirrors_the_store() {
    let mut list = FolderList::open(&strings(&["/a", "/b"]));
    assert_eq!(list.sizes, strings(&["...", "..."]));
    assert!(list.add("/c"));
    assert!(!list.add("/a"));
    assert_eq!(list.paths, strings(&["/a", "/b", "/c"]));
    assert_eq!(list.sizes.len(), 3);
    list.size_computed("/b", "2.00 KiB".to_string());
    list.size_computed("/gone", "1.00 B".to_string());
    assert_eq!(list.sizes, strings(&["...", "2.00 KiB", "..."]));
    assert_eq!(list.remove(0), Some("/a".to_string()));
    assert_eq!(list.remove(5), None);
    assert_eq!(list.paths, strings(&["/b", "/c"]));
    assert_eq!(list.sizes, strings(&["2.00 KiB", "..."]));
}

#[test]
fn chip_hover_follows_the_pointer() {
    assert_eq!(silo::dialogs::chip_hover(None, 1, true), Some(1));
    assert_eq!(silo::dialogs::chip_hover(Some(1), 1, false), None);
    assert_eq!(silo::dialogs::chip_hover(Some(2), 1, false), Some(2));
}

#[test]
fn config_flags_follow_the_pointer_and_the_menus() {
    let mut f = ConfigFlags::new();
    f.apply(PointerEvent::PlusHovered(true));
    f.apply(PointerEvent::ChipHovered(2, true));
    f.apply(PointerEvent::ChipMenuRequested(2));
    f.apply(PointerEvent::MenuHovered(true));
    assert!(f.plus_hovered);
    assert_eq!(f.hovered_chip, Some(2));
    assert_eq!(f.chip_menu, Some(2));
    assert!(f.menu_hovered);
    f.apply(PointerEvent::ChipMenuRequested(2));
    assert_eq!(f.chip_menu, None);
    assert!(!f.menu_hovered);
    f.apply(PointerEvent::ChipMenuRequested(1));
    f.apply(PointerEvent::MenuHovered(true));
    f.apply(PointerEvent::FolderRemoved);
    assert_eq!(f.chip_menu, None);
    assert_eq!(f.hovered_chip, None);
    assert!(!f.menu_hovered);
    f.apply(PointerEvent::ExcludePlusHovered(true));
    f.apply(PointerEvent::ExcludeMenuRequested(0));
    f.apply(PointerEvent::ExcludeMenuHovered(true));
    assert_eq!(f.exclude_menu, Some(0));
    f.apply(PointerEvent::ExcludePatternRemoved);
    assert_eq!(f.exclude_menu, None);
    assert!(!f.exclude_menu_hovered);
    assert!(f.exclude_plus_hovered);
    f.apply(PointerEvent::ExcludeMenuRequested(3));
    f.apply(PointerEvent::CloseExcludeMenu);
    assert_eq!(f.exclude_menu, None);
    f.apply(PointerEvent::ChipMenuRequested(4));
    f.apply(PointerEvent::ChipPressed);
    assert_eq!(f.chip_menu, None);
    f.apply(PointerEvent::ChipMenuRequested(4));
    f.apply(PointerEvent::CloseChipMenu);
    assert_eq!(f.chip_menu, None);
    f.reset();
    assert_eq!(f, ConfigFlags::new());
}

#[test]
fn menus_toggle() {
    assert_eq!(toggle_menu(None, 2), Some(2));
    assert_eq!(toggle_menu(Some(2), 2), None);
    assert_eq!(toggle_menu(Some(1), 2), Some(2));
}

#[test]
fn chart_rows_expand_one_at_a_time() {
    let mut sel = ChartSelection::new();
    assert!(sel.press("mov", false));
    assert_eq!(sel.pending.as_deref(), Some("mov"));
    assert!(!sel.prepared("jpg"));
    assert!(sel.prepared("mov"));
    assert_eq!(sel.expanded.as_deref(), Some("mov"));
    assert!(!sel.press("mov", true));
    assert_eq!(sel.expanded, None);
    assert!(!sel.press("jpg", true));
    assert_eq!(sel.expanded.as_deref(), Some("jpg"));
    sel.reset();
    assert_eq!(sel.expanded, None);
    assert_eq!(sel.pending, None);
}

#[test]
fn sync_dialog_flow() {
    let folders = strings(&["/a"]);
    let excludes = strings(&[".log"]);
    assert!(build_sync_plan(&folders, &excludes, &None, "rsync").is_none());
    let plan = build_sync_plan(&folders, &excludes, &Some("/dest".to_string()), "rsync").unwrap();
    assert_eq!(plan.sources, folders);
    assert_eq!(plan.destination, "/dest");

    let mut status = Vec::new();
    assert!(start_dry_run(&mut status, None).is_none());
    assert_eq!(status.len(), 2);
    assert_eq!(status[0].text, "Dry run in progress...");
    assert_eq!(status[1].kind, StatusKind::Error);
    assert_eq!(status[1].text, "Dry run failed: no sync destination selected");

    let mut status = Vec::new();
    assert!(start_sync(&mut status, Some(plan)).is_some());
    sync_started(&mut status);
    assert_eq!(status.len(), 2);
    assert_eq!(status[0].text, "Preparing sync...");
    assert_eq!(status[1].text, "Sync in progress...");

    let lines = dry_run_error_lines(&SyncError::RsyncNotFound);
    assert_eq!(lines[0].text, "Dry run failed: rsync binary could not be found");
}

#[test]
fn desktop_entry_paths_and_text() {
    assert_eq!(desktop_file_path_in(b"/home/u/.local/share"), b"/home/u/.local/share/applications/silo.desktop".to_vec());
    assert_eq!(icon_path_in_dir(b"/home/u/.local/share/"), b"/home/u/.local/share/icons/silo.svg".to_vec());
    assert_eq!(desktop_file_path_in(b""), b"applications/silo.desktop".to_vec());
    assert_eq!(icon_path_in_dir(b"/home/\xffu/.local/share"), b"/home/\xffu/.local/share/icons/silo.svg".to_vec());
    if let Some(p) = desktop_file_path() {
        assert!(p.ends_with(b"applications/silo.desktop"));
    }
    if let Some(p) = icon_path() {
        assert!(p.ends_with(b"icons/silo.svg"));
    }
    let text = desktop_entry_text("/opt/Silo.AppImage", "/icons/silo.svg");
    assert_eq!(
        text,
        "[Desktop Entry]\nName=Silo\nExec=/opt/Silo.AppImage\nIcon=/icons/silo.svg\nType=Application\nCategories=Utility;\nTerminal=false\nComment=Silo and Sync data\n"
    );
    assert_eq!(exec_from_desktop(&text), Some("/opt/Silo.AppImage".to_string()));
    assert_eq!(exec_from_desktop("[x]\n  Exec=/a b  \nExec=/c"), Some("/a b".to_string()));
    assert_eq!(exec_from_desktop("Name=x"), None);
}

#[test]
fn desktop_entry_is_rewritten_only_when_the_path_changed() {
    let text = desktop_entry_text("/opt/Silo.AppImage", "/i.svg");
    assert_eq!(entry_update(Some(&text), "/opt/Silo.AppImage", "/i.svg"), None);
    assert_eq!(
        entry_update(Some(&text), "/new/Silo.AppImage", "/i.svg"),
        Some(desktop_entry_text("/new/Silo.AppImage", "/i.svg"))
    );
    assert_eq!(entry_update(None, "/opt/Silo.AppImage", "/i.svg"), Some(text.clone()));
    assert_eq!(entry_update(Some("garbage"), "/opt/Silo.AppImage", "/i.svg"), Some(text));
}
