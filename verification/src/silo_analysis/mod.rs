//! SiloAnalysis: the analysis of a silo folder.
//!
//! The analysis reports statistics about every file and directory inside a
//! silo folder, recursively:
//! - total size of the silo
//! - largest and smallest file
//! - oldest and newest file
//! - average file size
//! - empty folders and zero-byte files
//! - file types by extension and their share of the total silo size
//!
//! The folder is read by the program into a [`SiloScan`]; the walk over it
//! ([`walk`]), the statistics, and the per-extension breakdown
//! ([`file_type_allocation`]) are computed here.

pub mod file_type_allocation;
pub mod walk;
pub mod stats;


use vstd::prelude::*;
use crate::config::texts;
use crate::scan::{RootState, SiloScan};
use crate::silo_analysis::file_type_allocation::{
    compute_file_types, extension_of, is_breakdown, item_views, lemma_breakdown_unique, stat_views,
    FileTypeStat, FileTypeStatView,
};
use crate::silo_analysis::stats::{
    compute_stats, lemma_items_total, lemma_size_sum_monotone, size_sum, stats_of, type_items,
};
use crate::silo_analysis::walk::{dirs_upto, empties_upto, errors_upto, files_upto, walk_dir};
use crate::text::{chars_of, extend_chars, string_of};

verus! {

/// Errors produced by the silo analysis.
///
/// Individual unreadable sub-entries inside the silo are not errors; they
/// are recorded in [`AnalysisReport::scan_errors`] instead.
#[derive(Debug)]
pub enum AnalysisError {
    /// The path to analyze does not exist on disk.
    PathDoesNotExist(String),
    /// The path to analyze exists but is not a directory.
    PathNotADirectory(String),
    /// The root directory could not be listed; carries the reason.
    WalkRoot(String),
}

/// The view of an [`AnalysisError`].
pub enum AnalysisErrorView {
    PathDoesNotExist(Seq<char>),
    PathNotADirectory(Seq<char>),
    WalkRoot(Seq<char>),
}

impl View for AnalysisError {
    type V = AnalysisErrorView;

    open spec fn view(&self) -> AnalysisErrorView {
        match self {
            AnalysisError::PathDoesNotExist(p) => AnalysisErrorView::PathDoesNotExist(p@),
            AnalysisError::PathNotADirectory(p) => AnalysisErrorView::PathNotADirectory(p@),
            AnalysisError::WalkRoot(e) => AnalysisErrorView::WalkRoot(e@),
        }
    }
}

/// A single file found inside the silo.
#[derive(Debug)]
pub struct FileEntry {
    /// The file name, for example `report.pdf`.
    pub name: String,
    /// The path of the file relative to the silo root, for example
    /// `docs/report.pdf`.
    pub relative_path: String,
    /// The size of the file in bytes.
    pub size_bytes: u64,
    /// The last-modified timestamp of the file, in Unix epoch seconds.
    pub modified: Option<i64>,
}

/// The view of a [`FileEntry`].
pub struct FileEntryView {
    pub name: Seq<char>,
    pub relative_path: Seq<char>,
    pub size_bytes: u64,
    pub modified: Option<i64>,
}

impl View for FileEntry {
    type V = FileEntryView;

    open spec fn view(&self) -> FileEntryView {
        FileEntryView {
            name: self.name@,
            relative_path: self.relative_path@,
            size_bytes: self.size_bytes,
            modified: self.modified,
        }
    }
}

/// A single directory found inside the silo.
#[derive(Debug)]
pub struct DirEntry {
    /// The directory name, for example `docs`.
    pub name: String,
    /// The path of the directory relative to the silo root, for example
    /// `docs/sub`.
    pub relative_path: String,
}

/// The view of a [`DirEntry`].
pub struct DirEntryView {
    pub name: Seq<char>,
    pub relative_path: Seq<char>,
}

impl View for DirEntry {
    type V = DirEntryView;

    open spec fn view(&self) -> DirEntryView {
        DirEntryView { name: self.name@, relative_path: self.relative_path@ }
    }
}

/// A reference to a file used by the largest/smallest/oldest/newest file
/// statistics and the zero-byte file list.
#[derive(Debug, PartialEq)]
pub struct FileRef {
    /// The file name.
    pub name: String,
    /// The silo root the file was found under.
    pub root: String,
    /// The path of the file relative to the silo root.
    pub relative_path: String,
    /// The size of the file in bytes.
    pub size_bytes: u64,
    /// The last-modified timestamp of the file, in Unix epoch seconds.
    pub modified: Option<i64>,
}

/// The view of a [`FileRef`].
pub struct FileRefView {
    pub name: Seq<char>,
    pub root: Seq<char>,
    pub relative_path: Seq<char>,
    pub size_bytes: u64,
    pub modified: Option<i64>,
}

impl View for FileRef {
    type V = FileRefView;

    open spec fn view(&self) -> FileRefView {
        FileRefView {
            name: self.name@,
            root: self.root@,
            relative_path: self.relative_path@,
            size_bytes: self.size_bytes,
            modified: self.modified,
        }
    }
}

/// The view of an optional [`FileRef`].
pub open spec fn opt_ref_view(o: Option<FileRef>) -> Option<FileRefView> {
    match o {
        Some(r) => Some(r@),
        None => None,
    }
}

/// Summary statistics for the analyzed silo.
#[derive(Debug)]
pub struct Stats {
    /// Total number of files inside the silo.
    pub total_files: u64,
    /// Total number of directories inside the silo (excluding the root).
    pub total_dirs: u64,
    /// The full paths of the directories with no counted content.
    pub empty_folder_paths: Vec<String>,
    /// Total size of all files in bytes.
    pub total_size_bytes: u64,
    /// The files of zero bytes, in scan order.
    pub zero_byte_files: Vec<FileRef>,
    /// The largest file, or `None` if the silo has no files.
    pub largest_file: Option<FileRef>,
    /// The smallest file, or `None` if the silo has no files.
    pub smallest_file: Option<FileRef>,
    /// The average file size in bytes (rounded down), or `None` if the silo
    /// has no files.
    pub average_file_size_bytes: Option<u64>,
    /// The oldest file by last-modified time, or `None` if the silo has no
    /// files with a readable timestamp.
    pub oldest_file: Option<FileRef>,
    /// The newest file by last-modified time, or `None` if the silo has no
    /// files with a readable timestamp.
    pub newest_file: Option<FileRef>,
    /// File types by extension, ordered by total bytes descending.
    pub file_types: Vec<FileTypeStat>,
}

/// The full result of analyzing a silo.
#[derive(Debug)]
pub struct AnalysisReport {
    /// The silo root path that was analyzed.
    pub root: String,
    /// Summary statistics for the silo.
    pub stats: Stats,
    /// Every file found, in scan order.
    pub files: Vec<FileEntry>,
    /// Every directory found, in scan order.
    pub dirs: Vec<DirEntry>,
    /// Per-entry errors encountered during the walk. A failed entry does not
    /// abort the whole scan; it is recorded here instead.
    pub scan_errors: Vec<String>,
}

/// The views of a sequence of file entries.
pub open spec fn file_views(v: Seq<FileEntry>) -> Seq<FileEntryView> {
    v.map_values(|f: FileEntry| f@)
}

/// The views of a sequence of directory entries.
pub open spec fn dir_views(v: Seq<DirEntry>) -> Seq<DirEntryView> {
    v.map_values(|d: DirEntry| d@)
}

/// The views of a sequence of file references.
pub open spec fn ref_views(v: Seq<FileRef>) -> Seq<FileRefView> {
    v.map_values(|f: FileRef| f@)
}

} // verus!

verus! {

impl AnalysisError {
    /// The error as a sentence for the user.
    pub fn message(&self) -> (r: String)
        ensures
            r@ == analysis_error_text(self@),
    {
        let (prefix, detail) = match self {
            AnalysisError::PathDoesNotExist(p) => ("path to analyze does not exist: ", p.as_str()),
            AnalysisError::PathNotADirectory(p) => ("path to analyze is not a directory: ", p.as_str()),
            AnalysisError::WalkRoot(e) => ("failed to walk the silo root: ", e.as_str()),
        };
        let mut v = chars_of(prefix);
        let d = chars_of(detail);
        extend_chars(&mut v, &d);
        string_of(&v)
    }
}

/// The sentence that describes an analysis error.
pub open spec fn analysis_error_text(e: AnalysisErrorView) -> Seq<char> {
    match e {
        AnalysisErrorView::PathDoesNotExist(p) => "path to analyze does not exist: "@ + p,
        AnalysisErrorView::PathNotADirectory(p) => "path to analyze is not a directory: "@ + p,
        AnalysisErrorView::WalkRoot(e) => "failed to walk the silo root: "@ + e,
    }
}

/// Whether the analysis of a scan succeeds: its root was listed. Failures
/// below the root never end it.
pub open spec fn walk_completes(scan: SiloScan, ex: Seq<String>) -> bool {
    scan.state is Listed
}

/// The files the analysis of a scan collects, or none when it fails.
pub open spec fn analyzed_files(scan: SiloScan, ex: Seq<String>) -> Seq<FileEntryView> {
    if walk_completes(scan, ex) {
        files_upto(scan.entries@, ex, scan.entries@.len() as int)
    } else {
        Seq::empty()
    }
}

/// Whether the sizes of the files a scan's analysis collects add up to a
/// value that fits in a `u64`.
pub open spec fn analysis_fits(scan: SiloScan, ex: Seq<String>) -> bool {
    let fs = analyzed_files(scan, ex);
    size_sum(fs, fs.len() as int) <= u64::MAX
}

/// Whether `rep` is the report of a complete walk of `scan`.
pub open spec fn report_of(rep: AnalysisReport, scan: SiloScan, ex: Seq<String>) -> bool {
    let es = scan.entries@;
    let n = es.len() as int;
    &&& rep.root@ == scan.root@
    &&& file_views(rep.files@) == files_upto(es, ex, n)
    &&& dir_views(rep.dirs@) == dirs_upto(es, ex, n)
    &&& texts(rep.scan_errors@) == errors_upto(scan.root@, es, ex, n)
    &&& stats_of(rep.stats, scan.root@, files_upto(es, ex, n), dirs_upto(es, ex, n).len() as u64,
            empties_upto(scan.root@, es, ex, n))
}

/// What the analysis of `scan` returns: the report of the walk, or the
/// error of a root that is missing, not a directory, or unreadable.
pub open spec fn analysis_outcome(r: Result<AnalysisReport, AnalysisError>, scan: SiloScan, ex: Seq<String>) -> bool {
    let es = scan.entries@;
    match scan.state {
        RootState::Missing => r matches Err(e) && e@ == AnalysisErrorView::PathDoesNotExist(scan.root@),
        RootState::NotADirectory => r matches Err(e) && e@ == AnalysisErrorView::PathNotADirectory(scan.root@),
        RootState::Unreadable { error } => r matches Err(e) && e@ == AnalysisErrorView::WalkRoot(error@),
        RootState::Listed => r matches Ok(rep) && report_of(rep, scan, ex),
    }
}

/// Analyze a silo: walk every file and directory of its scan and compute
/// statistics about it.
///
/// The root must exist and be a directory. `excludes` holds the exclude
/// patterns; excluded directories and files are skipped, matching the silo
/// size computation. Returns [`AnalysisError`] for validation failures and
/// for a root that cannot be listed. Individual unreadable sub-entries,
/// directories below the root that cannot be listed among them, are
/// recorded in [`AnalysisReport::scan_errors`] and do not abort the scan.
pub fn analyze(scan: &SiloScan, excludes: &Vec<String>) -> (r: Result<AnalysisReport, AnalysisError>)
    requires
        analysis_fits(*scan, excludes@),
    ensures
        analysis_outcome(r, *scan, excludes@),
{
    match &scan.state {
        RootState::Missing => {
            return Err(AnalysisError::PathDoesNotExist(scan.root.clone()));
        },
        RootState::NotADirectory => {
            return Err(AnalysisError::PathNotADirectory(scan.root.clone()));
        },
        RootState::Unreadable { error } => {
            return Err(AnalysisError::WalkRoot(error.clone()));
        },
        RootState::Listed => {},
    }
    let w = walk_dir(scan.root.as_str(), &scan.entries, excludes);
    let ghost es = scan.entries@;
    let ghost n = es.len() as int;
    assert(file_views(w.files@) == files_upto(es, excludes@, n));
    assert(dir_views(w.dirs@) =~= dirs_upto(es, excludes@, n));
    assert(w.dirs@.len() == dirs_upto(es, excludes@, n).len());
    let total_dirs = w.dirs.len() as u64;
    let stats = compute_stats(scan.root.as_str(), &w.files, total_dirs, w.empty_folders);
    Ok(AnalysisReport {
        root: scan.root.clone(),
        stats,
        files: w.files,
        dirs: w.dirs,
        scan_errors: w.scan_errors,
    })
}

/// The files the analyses of the first `n` scans collect, in order.
pub open spec fn merged_files(scans: Seq<SiloScan>, ex: Seq<String>, n: int) -> Seq<FileEntryView>
    decreases n,
{
    if n <= 0 {
        Seq::empty()
    } else {
        merged_files(scans, ex, n - 1) + analyzed_files(scans[n - 1], ex)
    }
}

/// The total size of the files of `a + b` is that of `a` plus that of `b`.
pub proof fn lemma_size_sum_concat(a: Seq<FileEntryView>, b: Seq<FileEntryView>)
    ensures
        size_sum(a + b, (a + b).len() as int) == size_sum(a, a.len() as int) + size_sum(b, b.len() as int),
    decreases b.len(),
{
    if b.len() == 0 {
        assert(a + b =~= a);
    } else {
        let b0 = b.drop_last();
        lemma_size_sum_concat(a, b0);
        assert((a + b).drop_last() =~= a + b0);
        lemma_size_sum_prefix(a + b, (a + b).len() as int - 1);
        lemma_size_sum_prefix(b, b.len() as int - 1);
    }
}

/// The total size of the first `n` files depends only on those files.
proof fn lemma_size_sum_prefix(fs: Seq<FileEntryView>, n: int)
    requires
        0 <= n <= fs.len(),
    ensures
        size_sum(fs, n) == size_sum(fs.take(n), n),
        n < fs.len() ==> size_sum(fs, n + 1) == size_sum(fs.drop_last(), n) + fs[n].size_bytes,
    decreases n,
{
    if n > 0 {
        lemma_size_sum_prefix(fs, n - 1);
        lemma_size_sum_prefix(fs.take(n), n - 1);
        assert(fs.take(n).take(n - 1) =~= fs.take(n - 1));
    }
    if n < fs.len() {
        lemma_size_sum_same(fs, fs.drop_last(), n);
    }
}

/// Two sequences that agree on their first `n` files have the same total
/// size over them.
proof fn lemma_size_sum_same(a: Seq<FileEntryView>, b: Seq<FileEntryView>, n: int)
    requires
        0 <= n <= a.len(),
        n <= b.len(),
        forall|k: int| 0 <= k < n ==> a[k] == b[k],
    ensures
        size_sum(a, n) == size_sum(b, n),
    decreases n,
{
    if n > 0 {
        lemma_size_sum_same(a, b, n - 1);
    }
}

/// The merged files of more scans have a total size no smaller.
proof fn lemma_merged_monotone(scans: Seq<SiloScan>, ex: Seq<String>, n: int, m: int)
    requires
        0 <= n <= m,
    ensures
        size_sum(merged_files(scans, ex, n), merged_files(scans, ex, n).len() as int)
            <= size_sum(merged_files(scans, ex, m), merged_files(scans, ex, m).len() as int),
    decreases m - n,
{
    if n < m {
        lemma_merged_monotone(scans, ex, n, m - 1);
        lemma_size_sum_concat(merged_files(scans, ex, m - 1), analyzed_files(scans[m - 1], ex));
    }
}

/// The files the analysis of `scan` collects; none when it fails.
fn analyzed_entries(scan: &SiloScan, excludes: &Vec<String>) -> (r: Vec<FileEntry>)
    requires
        analysis_fits(*scan, excludes@),
    ensures
        file_views(r@) == analyzed_files(*scan, excludes@),
{
    let r = analyze(scan, excludes);
    assert(analysis_outcome(r, *scan, excludes@));
    match r {
        Ok(report) => {
            assert(report_of(report, *scan, excludes@));
            report.files
        },
        Err(_) => {
            let v: Vec<FileEntry> = Vec::new();
            assert(file_views(v@) =~= Seq::<FileEntryView>::empty());
            v
        },
    }
}

/// Merge the file-type allocation of several silo folders into one list.
///
/// Analyzes every scan with the same exclude patterns and collects the file
/// entries. A folder that cannot be analyzed is skipped, so one bad folder
/// does not empty the whole chart. The merged result is ordered by total
/// bytes descending, matching the per-folder allocation.
pub fn merged_file_types(scans: &Vec<SiloScan>, excludes: &Vec<String>) -> (r: Vec<FileTypeStat>)
    requires
        ({
            let fs = merged_files(scans@, excludes@, scans@.len() as int);
            size_sum(fs, fs.len() as int) <= u64::MAX
        }),
    ensures
        ({
            let fs = merged_files(scans@, excludes@, scans@.len() as int);
            is_breakdown(stat_views(r@), type_items(fs), size_sum(fs, fs.len() as int))
        }),
{
    let ghost all = merged_files(scans@, excludes@, scans@.len() as int);
    let mut files: Vec<FileEntry> = Vec::new();
    let mut i: usize = 0;
    while i < scans.len()
        invariant
            i <= scans@.len(),
            all == merged_files(scans@, excludes@, scans@.len() as int),
            size_sum(all, all.len() as int) <= u64::MAX,
            file_views(files@) == merged_files(scans@, excludes@, i as int),
        decreases scans@.len() - i,
    {
        let ghost before = files@;
        proof {
            lemma_merged_monotone(scans@, excludes@, i as int + 1, scans@.len() as int);
            lemma_size_sum_concat(merged_files(scans@, excludes@, i as int), analyzed_files(scans@[i as int], excludes@));
        }
        let mut found = analyzed_entries(&scans[i], excludes);
        let ghost rf = found@;
        files.append(&mut found);
        assert(files@ == before + rf);
        assert(file_views(files@) =~= file_views(before) + analyzed_files(scans@[i as int], excludes@));
        i += 1;
    }
    let ghost fs = file_views(files@);
    let mut items: Vec<(String, u64)> = Vec::new();
    let mut total: u64 = 0;
    let mut j: usize = 0;
    while j < files.len()
        invariant
            fs == file_views(files@),
            fs == all,
            size_sum(fs, fs.len() as int) <= u64::MAX,
            j <= fs.len(),
            total == size_sum(fs, j as int),
            item_views(items@) == type_items(fs).take(j as int),
        decreases fs.len() - j,
    {
        let f = &files[j];
        proof {
            lemma_size_sum_monotone(fs, j as int + 1, fs.len() as int);
        }
        total = total + f.size_bytes;
        let ext = extension_of(f.name.as_str());
        let ghost old_items = items@;
        items.push((ext, f.size_bytes));
        proof {
            assert(item_views(items@) =~= item_views(old_items).push((ext@, f.size_bytes as nat)));
            assert(type_items(fs).take(j as int + 1) =~= type_items(fs).take(j as int).push(type_items(fs)[j as int]));
        }
        j += 1;
    }
    assert(type_items(fs).take(fs.len() as int) =~= type_items(fs));
    proof {
        lemma_items_total(fs, fs.len() as int);
    }
    compute_file_types(&items, total)
}

} // verus!

verus! {

/// The analysis skips what the size computation skips: on a scan without
/// symbolic links, the files the analysis collects add up to the size the
/// silo size computation gives for the same exclude patterns.
pub proof fn lemma_analysis_matches_size(es: Seq<crate::scan::ScanEntry>, ex: Seq<String>, n: int)
    requires
        0 <= n <= es.len(),
        forall|i: int| 0 <= i < es.len() ==> !(es[i].kind is Symlink),
    ensures
        size_sum(files_upto(es, ex, n), files_upto(es, ex, n).len() as int) == crate::silo_size::size_sum(es, ex, n),
    decreases n,
{
    if n > 0 {
        lemma_analysis_matches_size(es, ex, n - 1);
        let prev = files_upto(es, ex, n - 1);
        let add = if crate::scan::visited(es, ex, n - 1) {
            crate::silo_analysis::walk::opt_seq(crate::silo_analysis::walk::file_of(es, ex, n - 1))
        } else {
            Seq::empty()
        };
        assert(files_upto(es, ex, n) == prev + add);
        lemma_size_sum_concat(prev, add);
        assert(!(es[n - 1].kind is Symlink));
        assert(size_sum(add, 0) == 0);
        if add.len() == 1 {
            assert(size_sum(add, 1) == add[0].size_bytes);
        }
    }
}

} // verus!

verus! {

/// `merged_file_types` gives what `compute_file_types` gives on the files of
/// the folders that could be analyzed, taken in folder order, with their
/// total size: both results are breakdowns of those items (their
/// `ensures`), and a breakdown of given items is one list only.
pub proof fn lemma_merged_equals_direct(
    scans: Seq<SiloScan>,
    ex: Seq<String>,
    merged: Seq<FileTypeStatView>,
    direct: Seq<FileTypeStatView>,
)
    requires
        ({
            let fs = merged_files(scans, ex, scans.len() as int);
            &&& is_breakdown(merged, type_items(fs), size_sum(fs, fs.len() as int))
            &&& is_breakdown(direct, type_items(fs), size_sum(fs, fs.len() as int))
        }),
    ensures
        merged == direct,
{
    let fs = merged_files(scans, ex, scans.len() as int);
    lemma_breakdown_unique(merged, direct, type_items(fs), size_sum(fs, fs.len() as int));
}

} // verus!
