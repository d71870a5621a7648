//! The size of one source folder, as the folder list shows it.
//!
//! Every directory is entered (exclude patterns do not apply here) and every
//! regular file counts; symbolic links are skipped, so directory links
//! cannot loop back and file links are not counted twice. A read failure
//! below the root does not stop the walk, but it is returned in place of
//! the size once the walk is over, so the list can show `N/A` instead.

use vstd::prelude::*;
use crate::scan::{visit_flags, visited, RootState, ScanEntry, ScanKind, SiloScan};
use crate::silo_size::{human_size, human_size_text, size_result_view, SiloSizeError, SiloSizeErrorView};
use crate::text::string_of;

verus! {

/// Whether reading this entry failed.
pub open spec fn read_failed(k: ScanKind) -> bool {
    match k {
        ScanKind::EntryError { .. } => true,
        ScanKind::TypeError { .. } => true,
        ScanKind::Dir { read_error: Some(_) } => true,
        ScanKind::File { meta: Err(_) } => true,
        _ => false,
    }
}

/// The size a regular file adds; zero for anything else.
pub open spec fn file_size(k: ScanKind) -> nat {
    match k {
        ScanKind::File { meta: Ok(m) } => m.len as nat,
        _ => 0,
    }
}

/// The total size of the regular files among the first `n` entries that
/// the walk reaches.
pub open spec fn folder_sum(es: Seq<ScanEntry>, n: int) -> nat
    decreases n,
{
    if n <= 0 {
        0
    } else {
        folder_sum(es, n - 1) + if visited(es, Seq::empty(), n - 1) { file_size(es[n - 1].kind) } else { 0 }
    }
}

/// The reason reading this entry failed.
pub open spec fn failure_text(k: ScanKind) -> Seq<char> {
    match k {
        ScanKind::EntryError { error } => error@,
        ScanKind::TypeError { error } => error@,
        ScanKind::Dir { read_error: Some(e) } => e@,
        ScanKind::File { meta: Err(e) } => e@,
        _ => Seq::empty(),
    }
}

/// Whether the walk reaches entry `i` and reading it failed.
pub open spec fn fails_at(es: Seq<ScanEntry>, i: int) -> bool {
    visited(es, Seq::empty(), i) && read_failed(es[i].kind)
}

/// The first entry, in walk order, whose read failed, if any.
pub open spec fn first_failure(es: Seq<ScanEntry>) -> Option<int> {
    if exists|i: int| 0 <= i < es.len() && fails_at(es, i) {
        Some(choose|i: int| 0 <= i < es.len() && fails_at(es, i) && forall|j: int| 0 <= j < i ==> !fails_at(es, j))
    } else {
        None
    }
}

/// The size of a folder in bytes (kept modulo 2^64, as the running total
/// wraps), or the error that makes it unknown: the root's, when it is
/// missing, not a directory, or unreadable; otherwise the first read
/// failure the walk met below it.
pub open spec fn folder_size_of(scan: SiloScan) -> Result<nat, SiloSizeErrorView> {
    let es = scan.entries@;
    match scan.state {
        RootState::Missing => Err(SiloSizeErrorView::PathDoesNotExist(scan.root@)),
        RootState::NotADirectory => Err(SiloSizeErrorView::PathNotADirectory(scan.root@)),
        RootState::Unreadable { error } => Err(SiloSizeErrorView::Walk(scan.root@, error@)),
        RootState::Listed => match first_failure(es) {
            Some(i) => Err(SiloSizeErrorView::Walk(scan.root@, failure_text(es[i].kind))),
            None => Ok(folder_sum(es, es.len() as int) % 0x1_0000_0000_0000_0000),
        },
    }
}

/// The total size of the folder in bytes, including all nested files. The
/// whole tree is walked; a read failure below the root is returned after
/// the walk, the first one met.
pub fn folder_size_bytes(scan: &SiloScan) -> (r: Result<u64, SiloSizeError>)
    ensures
        size_result_view(r) == folder_size_of(*scan),
{
    match &scan.state {
        RootState::Missing => {
            return Err(SiloSizeError::PathDoesNotExist(scan.root.clone()));
        },
        RootState::NotADirectory => {
            return Err(SiloSizeError::PathNotADirectory(scan.root.clone()));
        },
        RootState::Unreadable { error } => {
            return Err(SiloSizeError::Walk(scan.root.clone(), error.clone()));
        },
        RootState::Listed => {},
    }
    let none: Vec<String> = Vec::new();
    let (vis, _ent) = visit_flags(&scan.entries, &none);
    assert(none@ =~= Seq::<String>::empty());
    let ghost es = scan.entries@;
    let mut total: u64 = 0;
    let mut first: Option<usize> = None;
    let mut i: usize = 0;
    while i < scan.entries.len()
        invariant
            i <= es.len(),
            es == scan.entries@,
            vis@.len() == es.len(),
            forall|k: int| 0 <= k < es.len() ==> vis@[k] == visited(es, Seq::empty(), k),
            total == folder_sum(es, i as int) % 0x1_0000_0000_0000_0000,
            match first {
                Some(k) => k < i && fails_at(es, k as int) && forall|j: int| 0 <= j < k ==> !fails_at(es, j),
                None => forall|j: int| 0 <= j < i ==> !fails_at(es, j),
            },
        decreases es.len() - i,
    {
        if vis[i] {
            let failed = match &scan.entries[i].kind {
                ScanKind::EntryError { .. } => true,
                ScanKind::TypeError { .. } => true,
                ScanKind::Dir { read_error: Some(_) } => true,
                ScanKind::File { meta: Err(_) } => true,
                _ => false,
            };
            assert(failed == read_failed(es[i as int].kind));
            if failed && first.is_none() {
                first = Some(i);
            }
            let size: u64 = match &scan.entries[i].kind {
                ScanKind::File { meta: Ok(m) } => m.len,
                _ => 0,
            };
            assert(size == file_size(es[i as int].kind));
            total = total.wrapping_add(size);
            proof {
                assert(folder_sum(es, i as int + 1) == folder_sum(es, i as int) + size);
            }
        }
        i += 1;
    }
    match first {
        Some(k) => {
            proof {
                let c = choose|c: int| 0 <= c < es.len() && fails_at(es, c) && forall|j: int| 0 <= j < c ==> !fails_at(es, j);
                if c < k {
                    assert(!fails_at(es, c));
                } else if c > k {
                    assert(!fails_at(es, k as int));
                }
                assert(first_failure(es) == Some(k as int));
            }
            let reason = match &scan.entries[k].kind {
                ScanKind::EntryError { error } => error.clone(),
                ScanKind::TypeError { error } => error.clone(),
                ScanKind::Dir { read_error: Some(e) } => e.clone(),
                ScanKind::File { meta: Err(e) } => e.clone(),
                _ => String::new(),
            };
            Err(SiloSizeError::Walk(scan.root.clone(), reason))
        },
        None => {
            assert(first_failure(es) is None);
            Ok(total)
        },
    }
}

/// The folder's size label: its human-readable size, or `N/A` when it
/// cannot be read.
pub fn folder_size_label(scan: &SiloScan) -> (r: String)
    ensures
        r@ == match folder_size_of(*scan) {
            Ok(b) => human_size_text(b),
            Err(_) => seq!['N', '/', 'A'],
        },
{
    match folder_size_bytes(scan) {
        Ok(b) => human_size(b),
        Err(_) => {
            let mut v: Vec<char> = Vec::new();
            v.push('N');
            v.push('/');
            v.push('A');
            string_of(&v)
        },
    }
}

} // verus!
