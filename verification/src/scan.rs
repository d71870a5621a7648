//! The filesystem scan of one silo folder, as plain values.
//!
//! Reading a folder tree is I/O, so the program reads it and hands the
//! library the result: the state of the root and every entry found, in the
//! order a depth-first walk meets them (a directory before its contents).
//! Each entry names its parent: `0` for the root, `k` for `entries[k - 1]`.
//!
//! The walks of the library (the silo size, the silo analysis, the folder
//! size) decide from this record which entries they enter, count, and
//! report. A directory is entered only when its parent is entered, it was
//! listed without error, and no exclude pattern matches it.

use vstd::prelude::*;
use crate::silo_size::{excluded, is_excluded};

verus! {

/// Size and modification time of a file, as its metadata reports them.
#[derive(Clone, Copy, Debug)]
pub struct FileMeta {
    /// The size in bytes.
    pub len: u64,
    /// The last-modified time in Unix epoch seconds, when readable.
    pub modified: Option<i64>,
}

/// What a symbolic link points to, as the metadata of its target reports it.
#[derive(Clone, Copy, Debug)]
pub struct LinkTarget {
    /// Whether the target is a directory.
    pub is_dir: bool,
    /// The target's size and modification time.
    pub meta: FileMeta,
}

/// The kind of one directory entry, with what reading it produced.
#[derive(Debug)]
pub enum ScanKind {
    /// The entry itself could not be read from its directory.
    EntryError { error: String },
    /// The entry's file type could not be determined.
    TypeError { error: String },
    /// A directory. `read_error` holds the reason listing it failed.
    Dir { read_error: Option<String> },
    /// A regular file, with its metadata or the reason reading it failed.
    File { meta: Result<FileMeta, String> },
    /// A symbolic link, with its target's metadata or the reason reading
    /// that failed.
    Symlink { target: Result<LinkTarget, String> },
    /// Any other kind of entry (socket, device, pipe).
    Other,
}

/// One entry found under a silo root.
#[derive(Debug)]
pub struct ScanEntry {
    /// `0` when the entry sits directly in the root, `k` when it sits in
    /// `entries[k - 1]`.
    pub parent: usize,
    /// The entry's file name (empty for an [`ScanKind::EntryError`]).
    pub name: String,
    /// What the entry is.
    pub kind: ScanKind,
}

/// The state of a silo root before its contents are read.
#[derive(Debug)]
pub enum RootState {
    /// The root does not exist.
    Missing,
    /// The root exists but is not a directory.
    NotADirectory,
    /// The root is a directory that could not be listed.
    Unreadable { error: String },
    /// The root was listed; its contents are the scan's entries.
    Listed,
}

/// The record of reading one silo folder.
#[derive(Debug)]
pub struct SiloScan {
    /// The folder's path.
    pub root: String,
    /// What was found at the root.
    pub state: RootState,
    /// Every entry found below the root, in depth-first order.
    pub entries: Vec<ScanEntry>,
}

/// Whether a directory entry is listed without error.
pub open spec fn kind_is_listed_dir(k: ScanKind) -> bool {
    k matches ScanKind::Dir { read_error: None }
}

} // verus!

verus! {

/// Whether a walk enters directory entry `d`: it is a directory that was
/// listed without error and no exclude pattern matches its name.
pub open spec fn enters(es: Seq<ScanEntry>, ex: Seq<String>, d: int) -> bool {
    &&& kind_is_listed_dir(es[d].kind)
    &&& !excluded(es[d].name@, true, ex)
}

/// Whether a walk reaches entry `i`: its parent is the root, or an earlier
/// entry that the walk reaches and enters.
pub open spec fn visited(es: Seq<ScanEntry>, ex: Seq<String>, i: int) -> bool
    decreases i,
{
    if 0 <= i < es.len() {
        let p = es[i].parent as int;
        p == 0 || (p - 1 < i && visited(es, ex, p - 1) && enters(es, ex, p - 1))
    } else {
        false
    }
}

/// Which entries a walk reaches and which directories it enters.
pub fn visit_flags(es: &Vec<ScanEntry>, ex: &Vec<String>) -> (r: (Vec<bool>, Vec<bool>))
    ensures
        r.0@.len() == es@.len(),
        r.1@.len() == es@.len(),
        forall|k: int| 0 <= k < es@.len() ==> r.0@[k] == visited(es@, ex@, k),
        forall|k: int| 0 <= k < es@.len() ==> r.1@[k] == enters(es@, ex@, k),
{
    let mut vis: Vec<bool> = Vec::new();
    let mut ent: Vec<bool> = Vec::new();
    let mut i: usize = 0;
    while i < es.len()
        invariant
            i <= es@.len(),
            vis@.len() == i,
            ent@.len() == i,
            forall|k: int| 0 <= k < i ==> vis@[k] == visited(es@, ex@, k),
            forall|k: int| 0 <= k < i ==> ent@[k] == enters(es@, ex@, k),
        decreases es@.len() - i,
    {
        let e = &es[i];
        let listed = match &e.kind {
            ScanKind::Dir { read_error: None } => true,
            _ => false,
        };
        let en = listed && !is_excluded(e.name.as_str(), true, ex);
        let p = e.parent;
        let v = p == 0 || (p - 1 < i && vis[p - 1] && ent[p - 1]);
        vis.push(v);
        ent.push(en);
        i += 1;
    }
    (vis, ent)
}

} // verus!
