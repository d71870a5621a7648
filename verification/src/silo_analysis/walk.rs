//! The walk of a silo scan: which files and directories the analysis
//! collects, which sub-entry failures it records, and which folders are
//! empty.
//!
//! Failure policy: an unreadable sub-entry, a directory that cannot be
//! listed among them, is recorded in the report's scan errors and the walk
//! continues. Only a root that cannot be listed aborts the analysis.

use vstd::prelude::*;
use crate::paths::{join, join_chars};
use crate::scan::{enters, visit_flags, visited, ScanEntry, ScanKind};
use crate::silo_analysis::{dir_views, file_views, DirEntry, DirEntryView, FileEntry, FileEntryView};
use crate::silo_size::{excluded, inside, is_excluded, lemma_excluded_dir_prunes};
use crate::text::{chars_of, extend_chars, string_of, sub_chars};
use crate::config::{lemma_texts_push, texts};

verus! {

/// The full path of entry `i`: its directory's path joined with its name.
pub open spec fn full_path(root: Seq<char>, es: Seq<ScanEntry>, i: int) -> Seq<char>
    decreases i,
{
    if 0 <= i < es.len() {
        let p = es[i].parent as int;
        let base = if p >= 1 && p - 1 < i { full_path(root, es, p - 1) } else { root };
        join(base, es[i].name@)
    } else {
        root
    }
}

/// The path of the directory that entry `i` sits in.
pub open spec fn parent_dir(root: Seq<char>, es: Seq<ScanEntry>, i: int) -> Seq<char> {
    let p = es[i].parent as int;
    if p >= 1 && p - 1 < i { full_path(root, es, p - 1) } else { root }
}

/// The path of entry `i` relative to the silo root.
pub open spec fn rel_path(es: Seq<ScanEntry>, i: int) -> Seq<char>
    decreases i,
{
    if 0 <= i < es.len() {
        let p = es[i].parent as int;
        if p >= 1 && p - 1 < i { join(rel_path(es, p - 1), es[i].name@) } else { es[i].name@ }
    } else {
        Seq::empty()
    }
}

/// `prefix`, the path, `": "`, and the reason, as one message.
pub open spec fn message(prefix: Seq<char>, path: Seq<char>, err: Seq<char>) -> Seq<char> {
    prefix + path + ": "@ + err
}

/// The scan error the walk records for entry `i`, if any: an entry that
/// could not be read, an entry whose type could not be determined, a
/// non-excluded directory that could not be listed, or a non-excluded file
/// or link whose metadata could not be read.
pub open spec fn scan_error_of(root: Seq<char>, es: Seq<ScanEntry>, ex: Seq<String>, i: int) -> Option<Seq<char>> {
    match es[i].kind {
        ScanKind::EntryError { error } => Some(message("could not read an entry in "@, parent_dir(root, es, i), error@)),
        ScanKind::TypeError { error } => Some(message("could not inspect "@, full_path(root, es, i), error@)),
        ScanKind::Dir { read_error: Some(e) } => if excluded(es[i].name@, true, ex) {
            None
        } else {
            Some(message("could not read directory "@, full_path(root, es, i), e@))
        },
        ScanKind::File { meta: Err(e) } => if excluded(es[i].name@, false, ex) {
            None
        } else {
            Some(message("could not read metadata for "@, full_path(root, es, i), e@))
        },
        ScanKind::Symlink { target: Err(e) } => if excluded(es[i].name@, false, ex) {
            None
        } else {
            Some(message("could not read metadata for "@, full_path(root, es, i), e@))
        },
        _ => None,
    }
}

/// The file the walk records for entry `i`, if any: a non-excluded regular
/// file, or a non-excluded link to something other than a directory, whose
/// metadata was read.
pub open spec fn file_of(es: Seq<ScanEntry>, ex: Seq<String>, i: int) -> Option<FileEntryView> {
    if excluded(es[i].name@, false, ex) {
        None
    } else {
        match es[i].kind {
            ScanKind::File { meta: Ok(m) } => Some(FileEntryView {
                name: es[i].name@,
                relative_path: rel_path(es, i),
                size_bytes: m.len,
                modified: m.modified,
            }),
            ScanKind::Symlink { target: Ok(t) } => if t.is_dir {
                None
            } else {
                Some(FileEntryView {
                    name: es[i].name@,
                    relative_path: rel_path(es, i),
                    size_bytes: t.meta.len,
                    modified: t.meta.modified,
                })
            },
            _ => None,
        }
    }
}

/// The directory the walk records for entry `i`, if any: a non-excluded
/// directory.
pub open spec fn dir_of(es: Seq<ScanEntry>, ex: Seq<String>, i: int) -> Option<DirEntryView> {
    if es[i].kind is Dir && !excluded(es[i].name@, true, ex) {
        Some(DirEntryView { name: es[i].name@, relative_path: rel_path(es, i) })
    } else {
        None
    }
}

/// The one-element sequence holding `o`'s value, or the empty sequence.
pub open spec fn opt_seq<T>(o: Option<T>) -> Seq<T> {
    match o {
        Some(x) => seq![x],
        None => Seq::empty(),
    }
}

/// The files recorded for the first `n` entries.
pub open spec fn files_upto(es: Seq<ScanEntry>, ex: Seq<String>, n: int) -> Seq<FileEntryView>
    decreases n,
{
    if n <= 0 {
        Seq::empty()
    } else {
        files_upto(es, ex, n - 1) + if visited(es, ex, n - 1) { opt_seq(file_of(es, ex, n - 1)) } else { Seq::empty() }
    }
}

/// The directories recorded for the first `n` entries.
pub open spec fn dirs_upto(es: Seq<ScanEntry>, ex: Seq<String>, n: int) -> Seq<DirEntryView>
    decreases n,
{
    if n <= 0 {
        Seq::empty()
    } else {
        dirs_upto(es, ex, n - 1) + if visited(es, ex, n - 1) { opt_seq(dir_of(es, ex, n - 1)) } else { Seq::empty() }
    }
}

/// The scan errors recorded for the first `n` entries.
pub open spec fn errors_upto(root: Seq<char>, es: Seq<ScanEntry>, ex: Seq<String>, n: int) -> Seq<Seq<char>>
    decreases n,
{
    if n <= 0 {
        Seq::empty()
    } else {
        errors_upto(root, es, ex, n - 1) + if visited(es, ex, n - 1) { opt_seq(scan_error_of(root, es, ex, n - 1)) } else { Seq::empty() }
    }
}

/// Whether entry `j` counts as content of its directory: the walk reaches it
/// and records it as a directory or a file.
pub open spec fn counted(es: Seq<ScanEntry>, ex: Seq<String>, j: int) -> bool {
    visited(es, ex, j) && (dir_of(es, ex, j) is Some || file_of(es, ex, j) is Some)
}

/// How many of the first `n` entries are counted content of entry `d`.
pub open spec fn child_count(es: Seq<ScanEntry>, ex: Seq<String>, d: int, n: int) -> nat
    decreases n,
{
    if n <= 0 {
        0
    } else {
        child_count(es, ex, d, n - 1) + if es[n - 1].parent as int == d + 1 && counted(es, ex, n - 1) { 1nat } else { 0nat }
    }
}

/// Whether entry `d` is an empty folder: a directory the walk enters that
/// holds no counted content.
pub open spec fn is_empty_folder(es: Seq<ScanEntry>, ex: Seq<String>, d: int) -> bool {
    visited(es, ex, d) && enters(es, ex, d) && child_count(es, ex, d, es.len() as int) == 0
}

/// The full paths of the empty folders among the first `n` entries.
pub open spec fn empties_upto(root: Seq<char>, es: Seq<ScanEntry>, ex: Seq<String>, n: int) -> Seq<Seq<char>>
    decreases n,
{
    if n <= 0 {
        Seq::empty()
    } else {
        empties_upto(root, es, ex, n - 1) + if is_empty_folder(es, ex, n - 1) { seq![full_path(root, es, n - 1)] } else { Seq::empty() }
    }
}

/// What a complete walk collects.
pub struct Walked {
    /// Every file found, in scan order.
    pub files: Vec<FileEntry>,
    /// Every directory found, in scan order.
    pub dirs: Vec<DirEntry>,
    /// Per-entry errors, in scan order.
    pub scan_errors: Vec<String>,
    /// The full paths of the empty folders, in scan order.
    pub empty_folders: Vec<String>,
}

/// Whether `w` is what the walk of the entries collects.
pub open spec fn walked_as(w: Walked, root: Seq<char>, es: Seq<ScanEntry>, ex: Seq<String>) -> bool {
    let n = es.len() as int;
    &&& file_views(w.files@) == files_upto(es, ex, n)
    &&& dir_views(w.dirs@) == dirs_upto(es, ex, n)
    &&& texts(w.scan_errors@) == errors_upto(root, es, ex, n)
    &&& texts(w.empty_folders@) == empties_upto(root, es, ex, n)
}

proof fn lemma_child_count_bound(es: Seq<ScanEntry>, ex: Seq<String>, d: int, n: int)
    requires
        n >= 0,
    ensures
        child_count(es, ex, d, n) <= n,
    decreases n,
{
    if n > 0 {
        lemma_child_count_bound(es, ex, d, n - 1);
    }
}

fn message_text(prefix: &str, path: &[char], err: &str) -> (r: String)
    ensures
        r@ == message(prefix@, path@, err@),
{
    let mut v = chars_of(prefix);
    extend_chars(&mut v, path);
    let sep = chars_of(": ");
    extend_chars(&mut v, &sep);
    let e = chars_of(err);
    extend_chars(&mut v, &e);
    string_of(&v)
}

fn copy_chars(v: &Vec<char>) -> (r: Vec<char>)
    ensures
        r@ == v@,
{
    let r = sub_chars(v, 0, v.len());
    assert(v@.subrange(0, v@.len() as int) =~= v@);
    r
}

} // verus!

verus! {

/// The accumulators of the walk after some entries.
pub struct WalkState {
    pub fulls: Vec<Vec<char>>,
    pub rels: Vec<Vec<char>>,
    pub files: Vec<FileEntry>,
    pub dirs: Vec<DirEntry>,
    pub scan_errors: Vec<String>,
    pub counts: Vec<usize>,
}

/// Whether `st` holds what the walk has collected after the first `i`
/// entries.
pub open spec fn walk_state_at(st: WalkState, root: Seq<char>, es: Seq<ScanEntry>, ex: Seq<String>, i: int) -> bool {
    &&& 0 <= i <= es.len()
    &&& st.fulls@.len() == i
    &&& st.rels@.len() == i
    &&& forall|k: int| 0 <= k < i ==> (#[trigger] st.fulls@[k])@ == full_path(root, es, k)
    &&& forall|k: int| 0 <= k < i ==> (#[trigger] st.rels@[k])@ == rel_path(es, k)
    &&& file_views(st.files@) == files_upto(es, ex, i)
    &&& dir_views(st.dirs@) == dirs_upto(es, ex, i)
    &&& texts(st.scan_errors@) == errors_upto(root, es, ex, i)
    &&& st.counts@.len() == es.len()
    &&& forall|d: int| 0 <= d < es.len() ==> (#[trigger] st.counts@[d]) as nat == child_count(es, ex, d, i)
}

proof fn lemma_file_views_push(v: Seq<FileEntry>, x: FileEntry)
    ensures
        file_views(v.push(x)) == file_views(v).push(x@),
{
    assert(file_views(v.push(x)) =~= file_views(v).push(x@));
}

proof fn lemma_dir_views_push(v: Seq<DirEntry>, x: DirEntry)
    ensures
        dir_views(v.push(x)) == dir_views(v).push(x@),
{
    assert(dir_views(v.push(x)) =~= dir_views(v).push(x@));
}

/// One step of the walk: processes entry `i`.
#[verifier::rlimit(80)]
fn walk_step(
    rootc: &Vec<char>,
    es: &Vec<ScanEntry>,
    excludes: &Vec<String>,
    vis: &Vec<bool>,
    st: &mut WalkState,
    i: usize,
)
    requires
        i < es@.len(),
        vis@.len() == es@.len(),
        forall|k: int| 0 <= k < es@.len() ==> vis@[k] == visited(es@, excludes@, k),
        walk_state_at(*old(st), rootc@, es@, excludes@, i as int),
    ensures
        walk_state_at(*final(st), rootc@, es@, excludes@, i + 1),
{
    let ghost ex = excludes@;
    let ghost root = rootc@;
    let ghost esv = es@;
    let ghost n = i as int;
    let e = &es[i];
    let name = chars_of(e.name.as_str());
    let p = e.parent;
    let has_parent = p >= 1 && p - 1 < i;
    let full = if has_parent { join_chars(&st.fulls[p - 1], &name) } else { join_chars(rootc, &name) };
    let rel = if has_parent { join_chars(&st.rels[p - 1], &name) } else { copy_chars(&name) };
    assert(full@ == full_path(root, esv, n));
    assert(rel@ == rel_path(esv, n));
    let mut counted_here = false;
    if vis[i] {
        match &e.kind {
            ScanKind::EntryError { error } => {
                let dir = if has_parent { copy_chars(&st.fulls[p - 1]) } else { copy_chars(rootc) };
                assert(dir@ == parent_dir(root, esv, n));
                let m = message_text("could not read an entry in ", &dir, error.as_str());
                proof { lemma_texts_push(st.scan_errors@, m); }
                st.scan_errors.push(m);
            },
            ScanKind::TypeError { error } => {
                let m = message_text("could not inspect ", &full, error.as_str());
                proof { lemma_texts_push(st.scan_errors@, m); }
                st.scan_errors.push(m);
            },
            ScanKind::Dir { read_error } => {
                if !is_excluded(e.name.as_str(), true, excludes) {
                    match read_error {
                        Some(err) => {
                            let m = message_text("could not read directory ", &full, err.as_str());
                            proof { lemma_texts_push(st.scan_errors@, m); }
                            st.scan_errors.push(m);
                        },
                        None => {},
                    }
                    let d = DirEntry { name: e.name.clone(), relative_path: string_of(&rel) };
                    proof { lemma_dir_views_push(st.dirs@, d); }
                    st.dirs.push(d);
                    counted_here = true;
                }
            },
            ScanKind::File { meta } => {
                if !is_excluded(e.name.as_str(), false, excludes) {
                    match meta {
                        Ok(m) => {
                            let f = FileEntry {
                                name: e.name.clone(),
                                relative_path: string_of(&rel),
                                size_bytes: m.len,
                                modified: m.modified,
                            };
                            proof { lemma_file_views_push(st.files@, f); }
                            st.files.push(f);
                            counted_here = true;
                        },
                        Err(err) => {
                            let msg = message_text("could not read metadata for ", &full, err.as_str());
                            proof { lemma_texts_push(st.scan_errors@, msg); }
                            st.scan_errors.push(msg);
                        },
                    }
                }
            },
            ScanKind::Symlink { target } => {
                if !is_excluded(e.name.as_str(), false, excludes) {
                    match target {
                        Ok(t) => {
                            if !t.is_dir {
                                let f = FileEntry {
                                    name: e.name.clone(),
                                    relative_path: string_of(&rel),
                                    size_bytes: t.meta.len,
                                    modified: t.meta.modified,
                                };
                                proof { lemma_file_views_push(st.files@, f); }
                                st.files.push(f);
                                counted_here = true;
                            }
                        },
                        Err(err) => {
                            let msg = message_text("could not read metadata for ", &full, err.as_str());
                            proof { lemma_texts_push(st.scan_errors@, msg); }
                            st.scan_errors.push(msg);
                        },
                    }
                }
            },
            ScanKind::Other => {},
        }
        assert(counted_here == counted(esv, ex, n));
        if counted_here && p >= 1 {
            proof {
                lemma_child_count_bound(esv, ex, p - 1, n);
            }
            let c = st.counts[p - 1];
            assert(st.counts@ == old(st).counts@);
            assert(c as nat == child_count(esv, ex, p - 1, n));
            assert(c < es.len());
            st.counts.set(p - 1, c + 1);
        }
    }
    let ghost old_fulls = st.fulls@;
    st.fulls.push(full);
    st.rels.push(rel);
    proof {
        assert forall|d: int| 0 <= d < esv.len() implies (#[trigger] st.counts@[d]) as nat == child_count(esv, ex, d, n + 1) by {
            assert(child_count(esv, ex, d, n + 1) == child_count(esv, ex, d, n) + if esv[n].parent as int == d + 1 && counted(esv, ex, n) { 1nat } else { 0nat });
        }
        assert forall|k: int| 0 <= k < n + 1 implies (#[trigger] st.fulls@[k])@ == full_path(root, esv, k) by {
            if k < n {
                assert(st.fulls@[k] == old_fulls[k]);
            }
        }
        assert(files_upto(esv, ex, n + 1) == files_upto(esv, ex, n) + if visited(esv, ex, n) { opt_seq(file_of(esv, ex, n)) } else { Seq::empty() });
        assert(dirs_upto(esv, ex, n + 1) == dirs_upto(esv, ex, n) + if visited(esv, ex, n) { opt_seq(dir_of(esv, ex, n)) } else { Seq::empty() });
        assert(errors_upto(root, esv, ex, n + 1) == errors_upto(root, esv, ex, n) + if visited(esv, ex, n) { opt_seq(scan_error_of(root, esv, ex, n)) } else { Seq::empty() });
        assert(file_views(st.files@) == files_upto(esv, ex, n + 1));
        assert(dir_views(st.dirs@) == dirs_upto(esv, ex, n + 1));
        assert(texts(st.scan_errors@) == errors_upto(root, esv, ex, n + 1));
        assert forall|k: int| 0 <= k < n + 1 implies (#[trigger] st.rels@[k])@ == rel_path(esv, k) by {
        }
    }
}

} // verus!

verus! {

/// Walk the entries of a listed silo root and collect every file and
/// directory under it.
///
/// Excluded directories are skipped entirely, so their subtree never counts;
/// excluded files are skipped too. A directory with no counted children is
/// recorded as empty. A failed sub-entry, a directory that cannot be
/// listed among them, is recorded in the scan errors and the walk
/// continues.
pub fn walk_dir(root: &str, es: &Vec<ScanEntry>, excludes: &Vec<String>) -> (w: Walked)
    ensures
        walked_as(w, root@, es@, excludes@),
{
    let rootc = chars_of(root);
    let (vis, ent) = visit_flags(es, excludes);
    let mut counts: Vec<usize> = Vec::new();
    let mut k: usize = 0;
    while k < es.len()
        invariant
            k <= es@.len(),
            counts@.len() == k,
            forall|d: int| 0 <= d < k ==> counts@[d] == 0,
        decreases es@.len() - k,
    {
        counts.push(0);
        k += 1;
    }
    let mut st = WalkState {
        fulls: Vec::new(),
        rels: Vec::new(),
        files: Vec::new(),
        dirs: Vec::new(),
        scan_errors: Vec::new(),
        counts,
    };
    proof {
        assert(file_views(st.files@) =~= Seq::<FileEntryView>::empty());
        assert(dir_views(st.dirs@) =~= Seq::<DirEntryView>::empty());
        assert(texts(st.scan_errors@) =~= Seq::<Seq<char>>::empty());
    }
    let mut i: usize = 0;
    while i < es.len()
        invariant
            vis@.len() == es@.len(),
            ent@.len() == es@.len(),
            forall|k2: int| 0 <= k2 < es@.len() ==> vis@[k2] == visited(es@, excludes@, k2),
            forall|k2: int| 0 <= k2 < es@.len() ==> ent@[k2] == enters(es@, excludes@, k2),
            rootc@ == root@,
            walk_state_at(st, rootc@, es@, excludes@, i as int),
        decreases es@.len() - i,
    {
        walk_step(&rootc, es, excludes, &vis, &mut st, i);
        i += 1;
    }
    let mut empty_folders: Vec<String> = Vec::new();
    let mut d: usize = 0;
    while d < es.len()
        invariant
            vis@.len() == es@.len(),
            ent@.len() == es@.len(),
            forall|k2: int| 0 <= k2 < es@.len() ==> vis@[k2] == visited(es@, excludes@, k2),
            forall|k2: int| 0 <= k2 < es@.len() ==> ent@[k2] == enters(es@, excludes@, k2),
            walk_state_at(st, rootc@, es@, excludes@, es@.len() as int),
            d <= es@.len(),
            texts(empty_folders@) == empties_upto(rootc@, es@, excludes@, d as int),
        decreases es@.len() - d,
    {
        if vis[d] && ent[d] && st.counts[d] == 0 {
            let path = string_of(&st.fulls[d]);
            proof {
                lemma_texts_push(empty_folders@, path);
            }
            empty_folders.push(path);
        }
        d += 1;
    }
    Walked {
        files: st.files,
        dirs: st.dirs,
        scan_errors: st.scan_errors,
        empty_folders,
    }
}

} // verus!

verus! {

/// Whether every read recorded in the scan succeeded.
pub open spec fn clean_scan(es: Seq<ScanEntry>) -> bool {
    forall|i: int| 0 <= i < es.len() ==> {
        &&& !(#[trigger] es[i].kind is EntryError)
        &&& !(es[i].kind is TypeError)
        &&& !(es[i].kind matches ScanKind::Dir { read_error: Some(_) })
        &&& !(es[i].kind matches ScanKind::File { meta: Err(_) })
        &&& !(es[i].kind matches ScanKind::Symlink { target: Err(_) })
    }
}

/// On a tree where every read succeeded, the analysis records no scan
/// error, and no file or directory it records is excluded or lies inside
/// an excluded directory.
pub proof fn lemma_clean_analysis(root: Seq<char>, es: Seq<ScanEntry>, ex: Seq<String>, n: int)
    requires
        clean_scan(es),
        0 <= n <= es.len(),
    ensures
        errors_upto(root, es, ex, n) == Seq::<Seq<char>>::empty(),
        forall|i: int| 0 <= i < n && visited(es, ex, i) && (#[trigger] file_of(es, ex, i)) is Some ==> {
            &&& !excluded(es[i].name@, false, ex)
            &&& forall|d: int| 0 <= d < es.len() && inside(es, d, i) ==> !excluded(es[d].name@, true, ex)
        },
        forall|i: int| 0 <= i < n && visited(es, ex, i) && (#[trigger] dir_of(es, ex, i)) is Some ==> {
            &&& !excluded(es[i].name@, true, ex)
            &&& forall|d: int| 0 <= d < es.len() && inside(es, d, i) ==> !excluded(es[d].name@, true, ex)
        },
    decreases n,
{
    if n > 0 {
        lemma_clean_analysis(root, es, ex, n - 1);
        assert(!(es[n - 1].kind is EntryError));
        assert(scan_error_of(root, es, ex, n - 1) is None);
        assert(errors_upto(root, es, ex, n) =~= Seq::<Seq<char>>::empty());
    }
    assert forall|i: int, d: int| 0 <= i < n && visited(es, ex, i) && 0 <= d < es.len() && inside(es, d, i)
        implies !excluded(es[d].name@, true, ex) by {
        if excluded(es[d].name@, true, ex) {
            lemma_excluded_dir_prunes(es, ex, d, i);
        }
    }
}

/// Every entry of the scan has a name a directory listing gives: not
/// empty, and without a `/`.
pub open spec fn plain_names(es: Seq<ScanEntry>) -> bool {
    forall|k: int| 0 <= k < es.len() ==> (#[trigger] es[k].name@).len() > 0 && !es[k].name@.contains('/')
}

/// With plain names, a relative path is not empty, and neither starts nor
/// ends with a `/`.
proof fn lemma_rel_path_shape(es: Seq<ScanEntry>, i: int)
    requires
        plain_names(es),
        0 <= i < es.len(),
    ensures
        rel_path(es, i).len() > 0,
        rel_path(es, i)[0] != '/',
        rel_path(es, i).last() != '/',
    decreases i,
{
    let n = es[i].name@;
    assert(n.len() > 0 && !n.contains('/'));
    assert(n[0] != '/') by {
        if n[0] == '/' {
            assert(n.contains('/'));
        }
    }
    assert(n.last() != '/') by {
        if n.last() == '/' {
            assert(n[n.len() - 1] == '/');
        }
    }
    let p = es[i].parent as int;
    if p >= 1 && p - 1 < i {
        lemma_rel_path_shape(es, p - 1);
        let r = rel_path(es, p - 1);
        assert(rel_path(es, i) == r + seq!['/'] + n);
        assert((r + seq!['/'] + n)[0] == r[0]);
        assert((r + seq!['/'] + n).last() == n.last());
    }
}

/// The relative path of an entry names every folder between the root and
/// the entry, outermost first, then the entry itself, separated by `/`: an
/// entry directly in the root has its name as its path, and any other
/// entry has its parent's relative path, a `/`, and its name.
pub proof fn lemma_relative_path_chains_names(es: Seq<ScanEntry>, i: int)
    requires
        plain_names(es),
        0 <= i < es.len(),
    ensures
        ({
            let p = es[i].parent as int;
            &&& (p >= 1 && p - 1 < i) ==> rel_path(es, i) == rel_path(es, p - 1) + seq!['/'] + es[i].name@
            &&& !(p >= 1 && p - 1 < i) ==> rel_path(es, i) == es[i].name@
        }),
{
    let p = es[i].parent as int;
    assert(es[i].name@.len() > 0 && !es[i].name@.contains('/'));
    if es[i].name@[0] == '/' {
        assert(es[i].name@.contains('/'));
    }
    if p >= 1 && p - 1 < i {
        lemma_rel_path_shape(es, p - 1);
    }
}

/// The silo root joined with an entry's relative path is the entry's full
/// path, the path the walk reads it at.
pub proof fn lemma_root_and_relative_path(root: Seq<char>, es: Seq<ScanEntry>, i: int)
    requires
        plain_names(es),
        0 <= i < es.len(),
    ensures
        join(root, rel_path(es, i)) == full_path(root, es, i),
    decreases i,
{
    lemma_rel_path_shape(es, i);
    lemma_relative_path_chains_names(es, i);
    let n = es[i].name@;
    let p = es[i].parent as int;
    if p >= 1 && p - 1 < i {
        lemma_root_and_relative_path(root, es, p - 1);
        lemma_rel_path_shape(es, p - 1);
        let r = rel_path(es, p - 1);
        let f = full_path(root, es, p - 1);
        assert(n[0] != '/') by {
            if n[0] == '/' {
                assert(n.contains('/'));
            }
        }
        assert(f == join(root, r));
        assert(f.len() > 0 && f.last() == r.last()) by {
            if root.len() == 0 {
            } else if root.last() == '/' {
                assert((root + r).last() == r.last());
            } else {
                assert((root + seq!['/'] + r).last() == r.last());
            }
        }
        assert(full_path(root, es, i) == join(f, n));
        assert(join(f, n) == f + seq!['/'] + n);
        if root.len() == 0 {
            assert(join(root, r + seq!['/'] + n) == r + seq!['/'] + n);
        } else if root.last() == '/' {
            assert(join(root, r + seq!['/'] + n) =~= root + r + seq!['/'] + n);
        } else {
            assert(join(root, r + seq!['/'] + n) =~= root + seq!['/'] + r + seq!['/'] + n);
        }
    } else {
        assert(n[0] != '/') by {
            if n[0] == '/' {
                assert(n.contains('/'));
            }
        }
    }
}

/// A file or folder the analysis records carries the entry's own name, and
/// its relative path joined to the silo root is the full path the walk
/// read it at.
pub proof fn lemma_recorded_paths(root: Seq<char>, es: Seq<ScanEntry>, ex: Seq<String>, i: int)
    requires
        plain_names(es),
        0 <= i < es.len(),
    ensures
        file_of(es, ex, i) matches Some(f) ==> f.name == es[i].name@ && join(root, f.relative_path) == full_path(root, es, i),
        dir_of(es, ex, i) matches Some(d) ==> d.name == es[i].name@ && join(root, d.relative_path) == full_path(root, es, i),
{
    lemma_root_and_relative_path(root, es, i);
}

/// A directory's count of content is zero exactly when none of the
/// entries counted holds content directly in it.
proof fn lemma_child_count_zero(es: Seq<ScanEntry>, ex: Seq<String>, d: int, n: int)
    requires
        0 <= n <= es.len(),
    ensures
        (child_count(es, ex, d, n) == 0) <==> forall|j: int|
            0 <= j < n ==> !(es[j].parent as int == d + 1 && #[trigger] counted(es, ex, j)),
    decreases n,
{
    if n > 0 {
        lemma_child_count_zero(es, ex, d, n - 1);
    }
}

/// A folder the walk enters is reported empty exactly when no file or
/// directory the analysis records sits directly in it: one recorded child
/// makes it non-empty, and excluded or unreadable children do not count.
pub proof fn lemma_empty_folder(es: Seq<ScanEntry>, ex: Seq<String>, d: int)
    requires
        0 <= d < es.len(),
    ensures
        is_empty_folder(es, ex, d) <==> {
            &&& visited(es, ex, d)
            &&& enters(es, ex, d)
            &&& forall|j: int| 0 <= j < es.len() && es[j].parent as int == d + 1 ==> {
                &&& !(visited(es, ex, j) && #[trigger] dir_of(es, ex, j) is Some)
                &&& !(visited(es, ex, j) && file_of(es, ex, j) is Some)
            }
        },
{
    lemma_child_count_zero(es, ex, d, es.len() as int);
    let none = forall|j: int| 0 <= j < es.len() ==> !(es[j].parent as int == d + 1 && #[trigger] counted(es, ex, j));
    let rec = forall|j: int| 0 <= j < es.len() && es[j].parent as int == d + 1 ==> {
        &&& !(visited(es, ex, j) && #[trigger] dir_of(es, ex, j) is Some)
        &&& !(visited(es, ex, j) && file_of(es, ex, j) is Some)
    };
    assert(none ==> rec) by {
        if none {
            assert forall|j: int| 0 <= j < es.len() && es[j].parent as int == d + 1 implies {
                &&& !(visited(es, ex, j) && #[trigger] dir_of(es, ex, j) is Some)
                &&& !(visited(es, ex, j) && file_of(es, ex, j) is Some)
            } by {
                assert(!counted(es, ex, j));
            }
        }
    }
    assert(rec ==> none) by {
        if rec {
            assert forall|j: int| 0 <= j < es.len() implies !(es[j].parent as int == d + 1 && #[trigger] counted(es, ex, j)) by {
                if es[j].parent as int == d + 1 {
                    assert(!(visited(es, ex, j) && dir_of(es, ex, j) is Some));
                }
            }
        }
    }
}

} // verus!
