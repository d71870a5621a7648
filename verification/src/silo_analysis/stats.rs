//! Summary statistics over the files a walk collected.

use vstd::prelude::*;
use crate::config::texts;
use crate::silo_analysis::file_type_allocation::{
    bytes_total, compute_file_types, extension_group, extension_of, is_breakdown, item_views,
    stat_views,
};
use crate::silo_analysis::{file_views, opt_ref_view, ref_views, FileEntry, FileEntryView, FileRef, FileRefView, Stats};

verus! {

/// The reference to file `f` found under `root`.
pub open spec fn ref_of(root: Seq<char>, f: FileEntryView) -> FileRefView {
    FileRefView {
        name: f.name,
        root: root,
        relative_path: f.relative_path,
        size_bytes: f.size_bytes,
        modified: f.modified,
    }
}

/// The total size of the first `n` files.
pub open spec fn size_sum(fs: Seq<FileEntryView>, n: int) -> nat
    decreases n,
{
    if n <= 0 { 0 } else { size_sum(fs, n - 1) + fs[n - 1].size_bytes as nat }
}

/// The references to the zero-byte files among the first `n` files.
pub open spec fn zero_refs(root: Seq<char>, fs: Seq<FileEntryView>, n: int) -> Seq<FileRefView>
    decreases n,
{
    if n <= 0 {
        Seq::empty()
    } else {
        zero_refs(root, fs, n - 1) + if fs[n - 1].size_bytes == 0 { seq![ref_of(root, fs[n - 1])] } else { Seq::empty() }
    }
}

/// File `k` is the largest file: no file is larger, and every later file
/// is smaller (the last of several equally large files wins).
pub open spec fn is_largest(fs: Seq<FileEntryView>, k: int) -> bool {
    &&& 0 <= k < fs.len()
    &&& forall|j: int| 0 <= j < fs.len() ==> #[trigger] fs[j].size_bytes <= fs[k].size_bytes
    &&& forall|j: int| k < j < fs.len() ==> #[trigger] fs[j].size_bytes < fs[k].size_bytes
}

/// File `k` is the smallest file: no file is smaller, and every earlier
/// file is larger (the first of several equally small files wins).
pub open spec fn is_smallest(fs: Seq<FileEntryView>, k: int) -> bool {
    &&& 0 <= k < fs.len()
    &&& forall|j: int| 0 <= j < fs.len() ==> fs[k].size_bytes <= #[trigger] fs[j].size_bytes
    &&& forall|j: int| 0 <= j < k ==> fs[k].size_bytes < #[trigger] fs[j].size_bytes
}

/// File `k` is the oldest file with a timestamp: no timestamped file is
/// older, and every earlier one is newer (the first wins).
pub open spec fn is_oldest(fs: Seq<FileEntryView>, k: int) -> bool {
    &&& 0 <= k < fs.len()
    &&& fs[k].modified is Some
    &&& forall|j: int| 0 <= j < fs.len() && (#[trigger] fs[j].modified) is Some ==> fs[k].modified->0 <= fs[j].modified->0
    &&& forall|j: int| 0 <= j < k && (#[trigger] fs[j].modified) is Some ==> fs[k].modified->0 < fs[j].modified->0
}

/// File `k` is the newest file with a timestamp: no timestamped file is
/// newer, and every later one is older (the last wins).
pub open spec fn is_newest(fs: Seq<FileEntryView>, k: int) -> bool {
    &&& 0 <= k < fs.len()
    &&& fs[k].modified is Some
    &&& forall|j: int| 0 <= j < fs.len() && (#[trigger] fs[j].modified) is Some ==> fs[j].modified->0 <= fs[k].modified->0
    &&& forall|j: int| k < j < fs.len() && (#[trigger] fs[j].modified) is Some ==> fs[j].modified->0 < fs[k].modified->0
}

/// `o` is the reference to the file that `pick` selects, or `None` exactly
/// when no file qualifies.
pub open spec fn picks(o: Option<FileRefView>, root: Seq<char>, fs: Seq<FileEntryView>, pick: spec_fn(Seq<FileEntryView>, int) -> bool, any: bool) -> bool {
    match o {
        None => !any,
        Some(r) => exists|k: int| pick(fs, k) && r == ref_of(root, fs[k]),
    }
}

/// The extensions and sizes the file-type breakdown groups.
pub open spec fn type_items(fs: Seq<FileEntryView>) -> Seq<(Seq<char>, nat)> {
    fs.map_values(|f: FileEntryView| (extension_group(f.name), f.size_bytes as nat))
}

/// Whether `s` holds the statistics of files `fs` found under `root`, with
/// `total_dirs` directories and the given empty folders.
pub open spec fn stats_of(s: Stats, root: Seq<char>, fs: Seq<FileEntryView>, total_dirs: u64, empties: Seq<Seq<char>>) -> bool {
    let n = fs.len() as int;
    &&& s.total_files == fs.len()
    &&& s.total_dirs == total_dirs
    &&& texts(s.empty_folder_paths@) == empties
    &&& s.total_size_bytes == size_sum(fs, n)
    &&& ref_views(s.zero_byte_files@) == zero_refs(root, fs, n)
    &&& picks(opt_ref_view(s.largest_file), root, fs, |f: Seq<FileEntryView>, k: int| is_largest(f, k), n > 0)
    &&& picks(opt_ref_view(s.smallest_file), root, fs, |f: Seq<FileEntryView>, k: int| is_smallest(f, k), n > 0)
    &&& s.average_file_size_bytes == if n == 0 { None } else { Some((size_sum(fs, n) / (n as nat)) as u64) }
    &&& picks(opt_ref_view(s.oldest_file), root, fs, |f: Seq<FileEntryView>, k: int| is_oldest(f, k),
            exists|j: int| 0 <= j < n && fs[j].modified is Some)
    &&& picks(opt_ref_view(s.newest_file), root, fs, |f: Seq<FileEntryView>, k: int| is_newest(f, k),
            exists|j: int| 0 <= j < n && fs[j].modified is Some)
    &&& is_breakdown(stat_views(s.file_types@), type_items(fs), size_sum(fs, n))
}

/// Build a `FileRef` from a file entry.
pub fn file_ref(root: &str, entry: &FileEntry) -> (r: FileRef)
    ensures
        r@ == ref_of(root@, entry@),
{
    FileRef {
        name: entry.name.clone(),
        root: root.to_owned(),
        relative_path: entry.relative_path.clone(),
        size_bytes: entry.size_bytes,
        modified: entry.modified,
    }
}

/// The total size of the first `a` files is at most that of the first `b`.
pub proof fn lemma_size_sum_monotone(fs: Seq<FileEntryView>, a: int, b: int)
    requires
        a <= b,
    ensures
        size_sum(fs, a) <= size_sum(fs, b),
    decreases b - a,
{
    if a < b {
        lemma_size_sum_monotone(fs, a, b - 1);
    }
}

proof fn lemma_ref_views_push(v: Seq<FileRef>, x: FileRef)
    ensures
        ref_views(v.push(x)) == ref_views(v).push(x@),
{
    assert(ref_views(v.push(x)) =~= ref_views(v).push(x@));
}

/// The bytes the breakdown groups add up to the total size of the files.
pub proof fn lemma_items_total(fs: Seq<FileEntryView>, n: int)
    requires
        0 <= n <= fs.len(),
    ensures
        bytes_total(type_items(fs), n) == size_sum(fs, n),
    decreases n,
{
    if n > 0 {
        lemma_items_total(fs, n - 1);
        assert(type_items(fs)[n - 1].1 == fs[n - 1].size_bytes as nat);
    }
}

/// Compute summary statistics from the collected files.
pub fn compute_stats(root: &str, files: &Vec<FileEntry>, total_dirs: u64, empty_folders: Vec<String>) -> (s: Stats)
    requires
        size_sum(file_views(files@), files@.len() as int) <= u64::MAX,
    ensures
        stats_of(s, root@, file_views(files@), total_dirs, texts(empty_folders@)),
{
    let ghost fs = file_views(files@);
    let ghost n = files@.len() as int;
    let mut total: u64 = 0;
    let mut zero: Vec<FileRef> = Vec::new();
    let mut largest: Option<usize> = None;
    let mut smallest: Option<usize> = None;
    let mut oldest: Option<usize> = None;
    let mut newest: Option<usize> = None;
    let mut items: Vec<(String, u64)> = Vec::new();
    let mut j: usize = 0;
    while j < files.len()
        invariant
            fs == file_views(files@),
            n == files@.len(),
            size_sum(fs, n) <= u64::MAX,
            j <= n,
            total == size_sum(fs, j as int),
            ref_views(zero@) == zero_refs(root@, fs, j as int),
            item_views(items@) == type_items(fs).take(j as int),
            match largest { None => j == 0, Some(k) => is_largest(fs.take(j as int), k as int) },
            match smallest { None => j == 0, Some(k) => is_smallest(fs.take(j as int), k as int) },
            match oldest {
                None => forall|q: int| 0 <= q < j ==> fs[q].modified is None,
                Some(k) => is_oldest(fs.take(j as int), k as int),
            },
            match newest {
                None => forall|q: int| 0 <= q < j ==> fs[q].modified is None,
                Some(k) => is_newest(fs.take(j as int), k as int),
            },
        decreases n - j,
    {
        let f = &files[j];
        let ghost fj = fs[j as int];
        assert(fj == f@);
        let ghost pre = fs.take(j as int);
        let ghost post = fs.take(j as int + 1);
        assert(post =~= pre.push(fj));
        proof {
            lemma_size_sum_monotone(fs, j as int + 1, n);
        }
        total = total + f.size_bytes;
        if f.size_bytes == 0 {
            let r = file_ref(root, f);
            proof { lemma_ref_views_push(zero@, r); }
            zero.push(r);
        }
        let ext = extension_of(f.name.as_str());
        let ghost old_items = items@;
        items.push((ext, f.size_bytes));
        proof {
            assert(item_views(items@) =~= item_views(old_items).push((ext@, f.size_bytes as nat)));
            assert(type_items(fs)[j as int] == (extension_group(fj.name), fj.size_bytes as nat));
            assert(type_items(fs).take(j as int + 1) =~= type_items(fs).take(j as int).push(type_items(fs)[j as int]));
        }
        largest = match largest {
            None => Some(j),
            Some(k) => if f.size_bytes >= files[k].size_bytes { Some(j) } else { Some(k) },
        };
        smallest = match smallest {
            None => Some(j),
            Some(k) => if f.size_bytes < files[k].size_bytes { Some(j) } else { Some(k) },
        };
        match f.modified {
            Some(t) => {
                oldest = match oldest {
                    None => Some(j),
                    Some(k) => match files[k].modified {
                        Some(u) => if t < u { Some(j) } else { Some(k) },
                        None => Some(j),
                    },
                };
                newest = match newest {
                    None => Some(j),
                    Some(k) => match files[k].modified {
                        Some(u) => if t >= u { Some(j) } else { Some(k) },
                        None => Some(j),
                    },
                };
            },
            None => {},
        }
        proof {
            match largest {
                Some(k) => {
                    assert(is_largest(post, k as int));
                },
                None => {},
            }
            match smallest {
                Some(k) => {
                    assert(is_smallest(post, k as int));
                },
                None => {},
            }
        }
        j += 1;
    }
    assert(fs.take(n) =~= fs);
    assert(type_items(fs).take(n) =~= type_items(fs));
    proof {
        lemma_items_total(fs, n);
    }
    let file_types = compute_file_types(&items, total);
    let largest_file = match largest { Some(k) => Some(file_ref(root, &files[k])), None => None };
    let smallest_file = match smallest { Some(k) => Some(file_ref(root, &files[k])), None => None };
    let oldest_file = match oldest { Some(k) => Some(file_ref(root, &files[k])), None => None };
    let newest_file = match newest { Some(k) => Some(file_ref(root, &files[k])), None => None };
    let count = files.len() as u64;
    let average = if count == 0 { None } else { Some(total / count) };
    let s = Stats {
        total_files: count,
        total_dirs,
        empty_folder_paths: empty_folders,
        total_size_bytes: total,
        zero_byte_files: zero,
        largest_file,
        smallest_file,
        average_file_size_bytes: average,
        oldest_file,
        newest_file,
        file_types,
    };
    proof {
        match largest { Some(k) => { assert(is_largest(fs, k as int)); }, None => {} }
        match smallest { Some(k) => { assert(is_smallest(fs, k as int)); }, None => {} }
        match oldest { Some(k) => { assert(is_oldest(fs, k as int)); }, None => {} }
        match newest { Some(k) => { assert(is_newest(fs, k as int)); }, None => {} }
    }
    s
}

} // verus!
