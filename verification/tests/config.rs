use silo::config::{
    add_data_path, default_db_dir, default_db_path, init, load, remove_data_path, replace_excludes,
    set_rsync_dest_path, update_exclude, ConfigError, SettingsStore,
};

fn fresh() -> SettingsStore {
    init(None)
}

#[test]
fn init_creates_an_empty_store_with_one_destination_row() {
    let store = fresh();
    assert!(store.silo_data_paths.is_empty());
    assert!(store.exclude.is_empty());
    assert_eq!(store.rsync_dest_path, vec![None]);
    let settings = load(&store);
    assert!(settings.silo_data_paths.is_empty());
    assert!(settings.excludes.is_empty());
    assert_eq!(settings.rsync_dest_path, None);
}

#[test]
fn init_is_idempotent_and_keeps_settings() {
    let mut store = fresh();
    add_data_path(&mut store, "/home/u/photos");
    replace_excludes(&mut store, &vec!["*.log".to_string()]);
    set_rsync_dest_path(&mut store, Some("/mnt/backup"));
    let again = init(Some(store));
    let settings = load(&again);
    assert_eq!(settings.silo_data_paths, vec!["/home/u/photos".to_string()]);
    assert_eq!(settings.excludes, vec!["*.log".to_string()]);
    assert_eq!(settings.rsync_dest_path, Some("/mnt/backup".to_string()));
    let twice = init(Some(again));
    assert_eq!(twice.rsync_dest_path.len(), 1);
}

#[test]
fn init_seeds_a_missing_destination_row() {
    let store = SettingsStore { silo_data_paths: vec![], exclude: vec![], rsync_dest_path: vec![] };
    let store = init(Some(store));
    assert_eq!(store.rsync_dest_path, vec![None]);
}

#[test]
fn added_folders_load_back_in_order_without_duplicates() {
    let mut store = fresh();
    add_data_path(&mut store, "/a");
    add_data_path(&mut store, "/b");
    add_data_path(&mut store, "/a");
    assert_eq!(load(&store).silo_data_paths, vec!["/a".to_string(), "/b".to_string()]);
}

#[test]
fn removed_folders_no_longer_load() {
    let mut store = fresh();
    add_data_path(&mut store, "/a");
    add_data_path(&mut store, "/b");
    add_data_path(&mut store, "/c");
    remove_data_path(&mut store, "/b");
    assert_eq!(load(&store).silo_data_paths, vec!["/a".to_string(), "/c".to_string()]);
    remove_data_path(&mut store, "/missing");
    assert_eq!(load(&store).silo_data_paths, vec!["/a".to_string(), "/c".to_string()]);
}

#[test]
fn replaced_excludes_load_back_including_empty_ones() {
    let mut store = fresh();
    let patterns = vec!["node_modules".to_string(), String::new(), ".mov".to_string()];
    replace_excludes(&mut store, &patterns);
    assert_eq!(load(&store).excludes, patterns);
    replace_excludes(&mut store, &vec![]);
    assert!(load(&store).excludes.is_empty());
}

#[test]
fn update_exclude_changes_one_row() {
    let mut store = fresh();
    replace_excludes(&mut store, &vec!["a".to_string(), "b".to_string(), "c".to_string()]);
    update_exclude(&mut store, 1, "B");
    assert_eq!(load(&store).excludes, vec!["a".to_string(), "B".to_string(), "c".to_string()]);
    update_exclude(&mut store, 7, "ignored");
    assert_eq!(load(&store).excludes, vec!["a".to_string(), "B".to_string(), "c".to_string()]);
}

#[test]
fn destination_set_and_cleared() {
    let mut store = fresh();
    set_rsync_dest_path(&mut store, Some("/mnt/x"));
    assert_eq!(load(&store).rsync_dest_path, Some("/mnt/x".to_string()));
    set_rsync_dest_path(&mut store, Some("/mnt/y"));
    assert_eq!(store.rsync_dest_path.len(), 1);
    assert_eq!(load(&store).rsync_dest_path, Some("/mnt/y".to_string()));
    set_rsync_dest_path(&mut store, None);
    assert_eq!(load(&store).rsync_dest_path, None);
}

#[test]
fn settings_directory_follows_xdg_data_home() {
    assert_eq!(default_db_dir(Some("/xdg"), Some("/home/u")).unwrap(), "/xdg/silo");
    assert_eq!(default_db_dir(Some(""), Some("/home/u")).unwrap(), "/home/u/.local/share/silo");
    assert_eq!(default_db_dir(None, Some("/home/u/")).unwrap(), "/home/u/.local/share/silo");
    assert!(matches!(default_db_dir(None, None), Err(ConfigError::HomeDirNotFound)));
    assert_eq!(default_db_path(Some("/xdg"), None).unwrap(), "/xdg/silo/silo.db");
}

#[test]
fn config_error_messages() {
    assert_eq!(ConfigError::HomeDirNotFound.message(), "HOME environment variable is not set");
    assert_eq!(
        ConfigError::CreateDir("denied".to_string()).message(),
        "failed to create the settings directory: denied"
    );
    assert_eq!(ConfigError::Sql("locked".to_string()).message(), "settings database error: locked");
}
