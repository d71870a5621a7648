//! Config: the silo settings store.
//!
//! The settings live in a SQLite database with one table per setting:
//! `silo_data_paths` (one row per source folder, unique), `exclude` (one row
//! per exclude pattern, in row order), and `rsync_dest_path` (a single row
//! holding the destination, or no destination). The program reads and writes
//! the database file; this module holds the tables' contents as
//! [`SettingsStore`] and decides every change the settings operations make
//! to them, so the rules of the store are checked here.
//!
//! The store keeps settings only: source folder paths, exclude patterns, and
//! the rsync destination. It never stores the data files themselves.

use vstd::prelude::*;
use crate::paths::{join, join_str};
use crate::text::{chars_of, extend_chars, owned, string_of};

verus! {

/// Errors produced by the config store.
#[derive(Debug)]
pub enum ConfigError {
    /// The `HOME` environment variable is not set.
    HomeDirNotFound,
    /// The settings directory could not be created; carries the reason.
    CreateDir(String),
    /// A database read, write, or schema operation failed; carries the
    /// reason.
    Sql(String),
}

/// The view of a [`ConfigError`], with its texts as character sequences.
pub enum ConfigErrorView {
    HomeDirNotFound,
    CreateDir(Seq<char>),
    Sql(Seq<char>),
}

impl View for ConfigError {
    type V = ConfigErrorView;

    open spec fn view(&self) -> ConfigErrorView {
        match self {
            ConfigError::HomeDirNotFound => ConfigErrorView::HomeDirNotFound,
            ConfigError::CreateDir(s) => ConfigErrorView::CreateDir(s@),
            ConfigError::Sql(s) => ConfigErrorView::Sql(s@),
        }
    }
}

/// The texts of a sequence of strings.
pub open spec fn texts(v: Seq<String>) -> Seq<Seq<char>> {
    v.map_values(|s: String| s@)
}

/// The texts of a sequence grow by one text when a string is pushed.
pub proof fn lemma_texts_push(v: Seq<String>, x: String)
    ensures
        texts(v.push(x)) == texts(v).push(x@),
{
    assert(texts(v.push(x)) =~= texts(v).push(x@));
}

/// The text of an optional string.
pub open spec fn opt_text(o: Option<String>) -> Option<Seq<char>> {
    match o {
        Some(s) => Some(s@),
        None => None,
    }
}

/// The silo settings as the program uses them.
#[derive(Debug)]
pub struct SiloSettings {
    /// Selected source folders, in the order they were added.
    pub silo_data_paths: Vec<String>,
    /// Exclude patterns, in row order.
    pub excludes: Vec<String>,
    /// Destination folder for rsync, or `None` until the user picks one.
    pub rsync_dest_path: Option<String>,
}

/// The view of [`SiloSettings`].
pub struct SiloSettingsView {
    pub silo_data_paths: Seq<Seq<char>>,
    pub excludes: Seq<Seq<char>>,
    pub rsync_dest_path: Option<Seq<char>>,
}

impl View for SiloSettings {
    type V = SiloSettingsView;

    open spec fn view(&self) -> SiloSettingsView {
        SiloSettingsView {
            silo_data_paths: texts(self.silo_data_paths@),
            excludes: texts(self.excludes@),
            rsync_dest_path: opt_text(self.rsync_dest_path),
        }
    }
}

/// The contents of the three settings tables, each in row order.
#[derive(Debug)]
pub struct SettingsStore {
    /// The `silo_data_paths` table: one row per source folder.
    pub silo_data_paths: Vec<String>,
    /// The `exclude` table: one row per exclude pattern.
    pub exclude: Vec<String>,
    /// The `rsync_dest_path` table: its rows, `None` for a NULL path.
    pub rsync_dest_path: Vec<Option<String>>,
}

/// The view of [`SettingsStore`].
pub struct SettingsStoreView {
    pub silo_data_paths: Seq<Seq<char>>,
    pub exclude: Seq<Seq<char>>,
    pub rsync_dest_path: Seq<Option<Seq<char>>>,
}

impl View for SettingsStore {
    type V = SettingsStoreView;

    open spec fn view(&self) -> SettingsStoreView {
        SettingsStoreView {
            silo_data_paths: texts(self.silo_data_paths@),
            exclude: texts(self.exclude@),
            rsync_dest_path: self.rsync_dest_path@.map_values(|o: Option<String>| opt_text(o)),
        }
    }
}

impl SettingsStoreView {
    /// The unique index on `silo_data_paths.path`: no folder is stored
    /// twice.
    pub open spec fn wf(self) -> bool {
        self.silo_data_paths.no_duplicates()
    }
}

/// The tables after schema creation: existing tables keep their rows, and
/// an empty `rsync_dest_path` table gets its single NULL row.
pub open spec fn init_spec(store: Option<SettingsStoreView>) -> SettingsStoreView {
    match store {
        None => SettingsStoreView {
            silo_data_paths: Seq::empty(),
            exclude: Seq::empty(),
            rsync_dest_path: seq![None],
        },
        Some(s) => if s.rsync_dest_path.len() == 0 {
            SettingsStoreView { rsync_dest_path: seq![None], ..s }
        } else {
            s
        },
    }
}

/// The settings read from the tables: both lists in row order, and the path
/// of the first destination row (none when that row is NULL or the table is
/// empty).
pub open spec fn load_spec(s: SettingsStoreView) -> SiloSettingsView {
    SiloSettingsView {
        silo_data_paths: s.silo_data_paths,
        excludes: s.exclude,
        rsync_dest_path: if s.rsync_dest_path.len() > 0 { s.rsync_dest_path[0] } else { None },
    }
}

/// A copy of a list of strings.
pub fn clone_strings(v: &Vec<String>) -> (r: Vec<String>)
    ensures
        texts(r@) == texts(v@),
{
    let mut r: Vec<String> = Vec::new();
    let mut i: usize = 0;
    while i < v.len()
        invariant
            i <= v@.len(),
            texts(r@) == texts(v@.take(i as int)),
        decreases v@.len() - i,
    {
        let c = v[i].clone();
        proof {
            lemma_texts_push(r@, c);
            lemma_texts_push(v@.take(i as int), v@[i as int]);
        }
        r.push(c);
        assert(v@.take(i as int + 1) == v@.take(i as int).push(v@[i as int]));
        i += 1;
    }
    assert(v@.take(v@.len() as int) == v@);
    r
}

fn clone_opt(o: &Option<String>) -> (r: Option<String>)
    ensures
        opt_text(r) == opt_text(*o),
{
    match o {
        Some(s) => Some(s.clone()),
        None => None,
    }
}

/// Ensure that the tables and the singleton destination row exist.
///
/// `None` stands for a database without the tables. Creating the schema is
/// idempotent and never deletes existing settings.
pub fn init(store: Option<SettingsStore>) -> (r: SettingsStore)
    ensures
        r@ == init_spec(match store { Some(s) => Some(s@), None => None }),
{
    match store {
        None => {
            let mut dest: Vec<Option<String>> = Vec::new();
            dest.push(None);
            let r = SettingsStore {
                silo_data_paths: Vec::new(),
                exclude: Vec::new(),
                rsync_dest_path: dest,
            };
            assert(r@.rsync_dest_path == seq![None::<Seq<char>>]);
            assert(r@.silo_data_paths == Seq::<Seq<char>>::empty());
            assert(r@.exclude == Seq::<Seq<char>>::empty());
            r
        },
        Some(mut s) => {
            if s.rsync_dest_path.len() == 0 {
                s.rsync_dest_path.push(None);
                assert(s@.rsync_dest_path == seq![None::<Seq<char>>]);
            }
            s
        },
    }
}

/// Load the silo settings from the tables.
pub fn load(store: &SettingsStore) -> (r: SiloSettings)
    ensures
        r@ == load_spec(store@),
{
    let dest = if store.rsync_dest_path.len() > 0 {
        clone_opt(&store.rsync_dest_path[0])
    } else {
        None
    };
    SiloSettings {
        silo_data_paths: clone_strings(&store.silo_data_paths),
        excludes: clone_strings(&store.exclude),
        rsync_dest_path: dest,
    }
}

fn position_of(v: &Vec<String>, path: &str) -> (r: Option<usize>)
    ensures
        r matches Some(i) ==> i < v@.len() && v@[i as int]@ == path@,
        r is None ==> !texts(v@).contains(path@),
{
    let target = owned(path);
    let mut i: usize = 0;
    while i < v.len()
        invariant
            i <= v@.len(),
            target@ == path@,
            forall|k: int| 0 <= k < i ==> v@[k]@ != path@,
        decreases v@.len() - i,
    {
        if v[i] == target {
            return Some(i);
        }
        i += 1;
    }
    assert forall|k: int| 0 <= k < texts(v@).len() implies texts(v@)[k] != path@ by {
        assert(texts(v@)[k] == v@[k]@);
    }
    None
}

/// Append one selected source folder.
///
/// The folder is stored as its own row. Existing rows are kept; nothing is
/// replaced. A path that already has a row is ignored, so the same folder
/// cannot be stored twice.
pub fn add_data_path(store: &mut SettingsStore, path: &str)
    ensures
        final(store)@.exclude == old(store)@.exclude,
        final(store)@.rsync_dest_path == old(store)@.rsync_dest_path,
        final(store)@.silo_data_paths == if old(store)@.silo_data_paths.contains(path@) {
            old(store)@.silo_data_paths
        } else {
            old(store)@.silo_data_paths.push(path@)
        },
{
    match position_of(&store.silo_data_paths, path) {
        Some(i) => {
            assert(texts(store.silo_data_paths@)[i as int] == path@);
        },
        None => {
            store.silo_data_paths.push(owned(path));
            assert(texts(store.silo_data_paths@) == texts(old(store).silo_data_paths@).push(path@));
        },
    }
}

/// Whether a stored folder is not `path`.
pub open spec fn other_than(path: Seq<char>) -> spec_fn(Seq<char>) -> bool {
    |p: Seq<char>| p != path
}

/// Remove one selected source folder.
///
/// Deletes every row holding the folder's path; other rows keep their
/// order. A path that has no row is a no-op.
pub fn remove_data_path(store: &mut SettingsStore, path: &str)
    ensures
        final(store)@.exclude == old(store)@.exclude,
        final(store)@.rsync_dest_path == old(store)@.rsync_dest_path,
        final(store)@.silo_data_paths == old(store)@.silo_data_paths.filter(other_than(path@)),
{
    let target = owned(path);
    let ghost pred = other_than(path@);
    let old_paths = clone_strings(&store.silo_data_paths);
    let mut kept: Vec<String> = Vec::new();
    let mut i: usize = 0;
    while i < old_paths.len()
        invariant
            i <= old_paths@.len(),
            target@ == path@,
            pred == other_than(path@),
            texts(old_paths@) == texts(old(store).silo_data_paths@),
            texts(kept@) == texts(old_paths@).take(i as int).filter(pred),
        decreases old_paths@.len() - i,
    {
        let ghost before = texts(old_paths@).take(i as int);
        let ghost x = old_paths@[i as int]@;
        assert(texts(old_paths@).take(i as int + 1) =~= before.push(x));
        proof {
            reveal(Seq::filter);
            assert(before.push(x).drop_last() =~= before);
            assert(before.push(x).filter(pred) == if pred(x) { before.filter(pred).push(x) } else { before.filter(pred) });
        }
        if !(old_paths[i] == target) {
            let c = old_paths[i].clone();
            proof {
                lemma_texts_push(kept@, c);
            }
            kept.push(c);
            assert(pred(x));
            assert(texts(kept@) =~= before.filter(pred).push(x));
        } else {
            assert(x == path@);
            assert(!pred(x));
        }
        assert(texts(kept@) == before.push(x).filter(pred));
        i += 1;
    }
    assert(texts(old_paths@).take(old_paths@.len() as int) == texts(old_paths@));
    store.silo_data_paths = kept;
}

/// Replace all exclude patterns.
///
/// Deletes every row, then inserts one row per pattern, in order. Empty
/// patterns are stored too, so the table mirrors the given list exactly and
/// row `k + 1` holds pattern `k`.
pub fn replace_excludes(store: &mut SettingsStore, excludes: &Vec<String>)
    ensures
        final(store)@.silo_data_paths == old(store)@.silo_data_paths,
        final(store)@.rsync_dest_path == old(store)@.rsync_dest_path,
        final(store)@.exclude == texts(excludes@),
{
    store.exclude = clone_strings(excludes);
}

/// Update one exclude pattern, without touching the other rows.
///
/// `index` is 0-based in row order, matching the order [`load`] returns.
/// An index past the last row changes nothing.
pub fn update_exclude(store: &mut SettingsStore, index: usize, pattern: &str)
    requires
        index as int != i64::MAX as int,
    ensures
        final(store)@.silo_data_paths == old(store)@.silo_data_paths,
        final(store)@.rsync_dest_path == old(store)@.rsync_dest_path,
        final(store)@.exclude == if index < old(store)@.exclude.len() {
            old(store)@.exclude.update(index as int, pattern@)
        } else {
            old(store)@.exclude
        },
{
    if index < store.exclude.len() {
        store.exclude.set(index, owned(pattern));
        assert(texts(store.exclude@) == texts(old(store).exclude@).update(index as int, pattern@));
    }
}

/// Set the rsync destination path.
///
/// Deletes the existing rows, then inserts the new path, so the table
/// always holds exactly one row. `None` clears the destination.
pub fn set_rsync_dest_path(store: &mut SettingsStore, path: Option<&str>)
    ensures
        final(store)@.silo_data_paths == old(store)@.silo_data_paths,
        final(store)@.exclude == old(store)@.exclude,
        final(store)@.rsync_dest_path == seq![match path { Some(p) => Some(p@), None => None }],
{
    let value = match path {
        Some(p) => Some(owned(p)),
        None => None,
    };
    let mut rows: Vec<Option<String>> = Vec::new();
    rows.push(value);
    store.rsync_dest_path = rows;
    assert(store@.rsync_dest_path == seq![match path { Some(p) => Some(p@), None => None }]);
}

/// The settings directory, following the XDG data home convention.
///
/// `xdg_data_home` and `home` are the values of the `XDG_DATA_HOME` and
/// `HOME` environment variables. Uses `$XDG_DATA_HOME/silo` when
/// `XDG_DATA_HOME` is set and not empty, and falls back to
/// `$HOME/.local/share/silo` otherwise.
pub fn default_db_dir(xdg_data_home: Option<&str>, home: Option<&str>) -> (r: Result<String, ConfigError>)
    ensures
        match xdg_data_home {
            Some(x) if x@.len() > 0 => r matches Ok(d) && d@ == join(x@, "silo"@),
            _ => match home {
                Some(h) => r matches Ok(d) && d@ == join(h@, ".local/share/silo"@),
                None => r matches Err(ConfigError::HomeDirNotFound),
            },
        },
{
    if let Some(x) = xdg_data_home {
        if !x.is_empty() {
            return Ok(join_str(x, "silo"));
        }
    }
    match home {
        Some(h) => Ok(join_str(h, ".local/share/silo")),
        None => Err(ConfigError::HomeDirNotFound),
    }
}

/// The settings database path inside the settings directory.
pub fn default_db_path(xdg_data_home: Option<&str>, home: Option<&str>) -> (r: Result<String, ConfigError>)
    ensures
        match xdg_data_home {
            Some(x) if x@.len() > 0 => r matches Ok(d) && d@ == join(join(x@, "silo"@), "silo.db"@),
            _ => match home {
                Some(h) => r matches Ok(d) && d@ == join(join(h@, ".local/share/silo"@), "silo.db"@),
                None => r matches Err(ConfigError::HomeDirNotFound),
            },
        },
{
    let dir = default_db_dir(xdg_data_home, home)?;
    Ok(join_str(dir.as_str(), "silo.db"))
}

} // verus!

verus! {

/// Creating the schema is idempotent: running it on tables it already
/// created changes nothing.
pub proof fn lemma_init_idempotent(store: Option<SettingsStoreView>)
    ensures
        init_spec(Some(init_spec(store))) == init_spec(store),
{
}

/// Creating the schema never deletes existing settings: the folders, the
/// exclude patterns, and any destination row are kept.
pub proof fn lemma_init_keeps_settings(s: SettingsStoreView)
    ensures
        init_spec(Some(s)).silo_data_paths == s.silo_data_paths,
        init_spec(Some(s)).exclude == s.exclude,
        s.rsync_dest_path.len() > 0 ==> init_spec(Some(s)).rsync_dest_path == s.rsync_dest_path,
        load_spec(init_spec(Some(s))) == load_spec(s),
{
}

/// A fresh store loads as empty settings with no destination.
pub proof fn lemma_init_empty()
    ensures
        load_spec(init_spec(None)) == (SiloSettingsView {
            silo_data_paths: Seq::empty(),
            excludes: Seq::empty(),
            rsync_dest_path: None,
        }),
{
}

/// The store after adding `path` to the source folders.
pub open spec fn with_data_path(s: SettingsStoreView, path: Seq<char>) -> SettingsStoreView {
    SettingsStoreView {
        silo_data_paths: if s.silo_data_paths.contains(path) {
            s.silo_data_paths
        } else {
            s.silo_data_paths.push(path)
        },
        ..s
    }
}

/// The store after removing `path` from the source folders.
pub open spec fn without_data_path(s: SettingsStoreView, path: Seq<char>) -> SettingsStoreView {
    SettingsStoreView { silo_data_paths: s.silo_data_paths.filter(other_than(path)), ..s }
}

/// A folder added is loaded back, after the folders already stored, and
/// adding it again changes nothing; the store never holds a folder twice.
pub proof fn lemma_add_then_load(s: SettingsStoreView, path: Seq<char>)
    requires
        s.wf(),
    ensures
        load_spec(with_data_path(s, path)).silo_data_paths.contains(path),
        !s.silo_data_paths.contains(path) ==> load_spec(with_data_path(s, path)).silo_data_paths == s.silo_data_paths.push(path),
        with_data_path(with_data_path(s, path), path) == with_data_path(s, path),
        with_data_path(s, path).wf(),
{
    if !s.silo_data_paths.contains(path) {
        let t = s.silo_data_paths.push(path);
        assert(t[t.len() - 1] == path);
        assert(t.contains(path));
        assert forall|i: int, j: int| 0 <= i < t.len() && 0 <= j < t.len() && i != j implies t[i] != t[j] by {
            if i < t.len() - 1 && j < t.len() - 1 {
                assert(t[i] == s.silo_data_paths[i] && t[j] == s.silo_data_paths[j]);
            } else if i == t.len() - 1 {
                assert(t[j] == s.silo_data_paths[j]);
                assert(s.silo_data_paths.contains(t[j]));
            } else {
                assert(t[i] == s.silo_data_paths[i]);
                assert(s.silo_data_paths.contains(t[i]));
            }
        }
    }
}

/// A folder removed is no longer loaded, the other folders keep their
/// order, and removing a folder just added restores the store it was added
/// to.
pub proof fn lemma_remove_then_load(s: SettingsStoreView, path: Seq<char>)
    requires
        s.wf(),
    ensures
        !load_spec(without_data_path(s, path)).silo_data_paths.contains(path),
        without_data_path(s, path).wf(),
        !s.silo_data_paths.contains(path) ==> without_data_path(with_data_path(s, path), path) == s,
{
    let pred = other_than(path);
    let f = s.silo_data_paths.filter(pred);
    assert(!f.contains(path)) by {
        if f.contains(path) {
            let k = choose|k: int| 0 <= k < f.len() && f[k] == path;
            s.silo_data_paths.lemma_filter_pred(pred, k);
        }
    }
    lemma_filter_no_duplicates(s.silo_data_paths, pred);
    if !s.silo_data_paths.contains(path) {
        lemma_filter_keeps_all(s.silo_data_paths, path);
        reveal(Seq::filter);
        let t = s.silo_data_paths.push(path);
        assert(t.drop_last() =~= s.silo_data_paths);
        assert(t.filter(pred) == t.drop_last().filter(pred));
        assert(without_data_path(with_data_path(s, path), path).silo_data_paths =~= s.silo_data_paths);
    }
}

proof fn lemma_filter_keeps_all(v: Seq<Seq<char>>, path: Seq<char>)
    requires
        !v.contains(path),
    ensures
        v.filter(other_than(path)) == v,
    decreases v.len(),
{
    reveal(Seq::filter);
    if v.len() > 0 {
        assert(!v.drop_last().contains(path)) by {
            if v.drop_last().contains(path) {
                let k = choose|k: int| 0 <= k < v.drop_last().len() && v.drop_last()[k] == path;
                assert(v[k] == path);
            }
        }
        lemma_filter_keeps_all(v.drop_last(), path);
        assert(v.last() != path) by {
            assert(v[v.len() - 1] == v.last());
        }
        assert(v.drop_last().push(v.last()) =~= v);
    } else {
        assert(v.filter(other_than(path)) =~= v);
    }
}

proof fn lemma_filter_no_duplicates(v: Seq<Seq<char>>, pred: spec_fn(Seq<char>) -> bool)
    requires
        v.no_duplicates(),
    ensures
        v.filter(pred).no_duplicates(),
    decreases v.len(),
{
    reveal(Seq::filter);
    if v.len() > 0 {
        let d = v.drop_last();
        assert(d.no_duplicates()) by {
            assert forall|i: int, j: int| 0 <= i < d.len() && 0 <= j < d.len() && i != j implies d[i] != d[j] by {
                assert(d[i] == v[i] && d[j] == v[j]);
            }
        }
        lemma_filter_no_duplicates(d, pred);
        if pred(v.last()) {
            let f = d.filter(pred);
            let t = f.push(v.last());
            assert(!f.contains(v.last())) by {
                if f.contains(v.last()) {
                    d.lemma_filter_contains_rev(pred, v.last());
                    let k = choose|k: int| 0 <= k < d.len() && d[k] == v.last();
                    assert(v[k] == v[v.len() - 1]);
                }
            }
            assert forall|i: int, j: int| 0 <= i < t.len() && 0 <= j < t.len() && i != j implies t[i] != t[j] by {
                if i < f.len() && j < f.len() {
                } else if i == f.len() {
                    assert(f.contains(t[j]));
                } else {
                    assert(f.contains(t[i]));
                }
            }
        }
    }
}

/// The destination set is the destination loaded, whatever the table held
/// before.
pub proof fn lemma_set_dest_then_load(s: SettingsStoreView, path: Option<Seq<char>>)
    ensures
        load_spec(SettingsStoreView { rsync_dest_path: seq![path], ..s }).rsync_dest_path == path,
        load_spec(SettingsStoreView { rsync_dest_path: seq![path], ..s }).silo_data_paths == load_spec(s).silo_data_paths,
        load_spec(SettingsStoreView { rsync_dest_path: seq![path], ..s }).excludes == load_spec(s).excludes,
{
}

/// The exclude patterns written are the patterns loaded, in order and
/// including empty ones; updating one pattern changes only that one.
pub proof fn lemma_excludes_then_load(s: SettingsStoreView, patterns: Seq<Seq<char>>, index: int, pattern: Seq<char>)
    requires
        0 <= index < patterns.len(),
    ensures
        load_spec(SettingsStoreView { exclude: patterns, ..s }).excludes == patterns,
        load_spec(SettingsStoreView { exclude: patterns.update(index, pattern), ..s }).excludes[index] == pattern,
        forall|k: int| 0 <= k < patterns.len() && k != index
            ==> #[trigger] load_spec(SettingsStoreView { exclude: patterns.update(index, pattern), ..s }).excludes[k] == patterns[k],
{
}

} // verus!

verus! {

/// The sentence that describes a settings error.
pub open spec fn config_error_text(e: ConfigErrorView) -> Seq<char> {
    match e {
        ConfigErrorView::HomeDirNotFound => "HOME environment variable is not set"@,
        ConfigErrorView::CreateDir(d) => "failed to create the settings directory: "@ + d,
        ConfigErrorView::Sql(d) => "settings database error: "@ + d,
    }
}

impl ConfigError {
    /// The error as a sentence for the user.
    pub fn message(&self) -> (r: String)
        ensures
            r@ == config_error_text(self@),
    {
        let (prefix, detail) = match self {
            ConfigError::HomeDirNotFound => ("HOME environment variable is not set", ""),
            ConfigError::CreateDir(d) => ("failed to create the settings directory: ", d.as_str()),
            ConfigError::Sql(d) => ("settings database error: ", d.as_str()),
        };
        let mut v = chars_of(prefix);
        let d = chars_of(detail);
        extend_chars(&mut v, &d);
        proof {
            reveal_strlit("");
        }
        string_of(&v)
    }
}

} // verus!
