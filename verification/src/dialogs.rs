//! The state the dialogs keep and the decisions they take.
//!
//! The CONFIG. SILO dialog keeps the selected folders with their size
//! labels and the exclude patterns, mirroring the settings store while it is
//! open, and which chip the pointer is over and which row menu is open. The SYNC SILO dialog builds the sync plan and reports the runs in
//! its STATUS box. The ALLOCATION chart expands one extension at a time.
//! Drawing, pickers, and background tasks belong to the program; the state
//! changes are here.

use vstd::prelude::*;
use crate::config::{clone_strings, lemma_texts_push, texts};
use crate::status_format::{line_views, StatusKind, StatusLine};
use crate::sync_engine::{sync_error_text, SyncError, SyncPlan};
use crate::text::{chars_of, extend_chars, owned, string_of};

verus! {

/// The size label a folder shows while its size is computed.
pub open spec fn pending_label() -> Seq<char> {
    seq!['.', '.', '.']
}

fn pending_text() -> (r: String)
    ensures
        r@ == pending_label(),
{
    let mut v: Vec<char> = Vec::new();
    v.push('.');
    v.push('.');
    v.push('.');
    string_of(&v)
}

/// The selected source folders and their size labels, in parallel.
#[derive(Debug)]
pub struct FolderList {
    /// The folder paths, in the order they were added.
    pub paths: Vec<String>,
    /// The size label of each folder.
    pub sizes: Vec<String>,
}

impl FolderList {
    /// The lists stay parallel, and no folder is listed twice.
    pub open spec fn wf(&self) -> bool {
        &&& self.paths@.len() == self.sizes@.len()
        &&& texts(self.paths@).no_duplicates()
    }

    /// The folders loaded when the dialog opens, each with the pending size
    /// label.
    pub fn open(paths: &Vec<String>) -> (r: FolderList)
        requires
            texts(paths@).no_duplicates(),
        ensures
            r.wf(),
            texts(r.paths@) == texts(paths@),
            forall|k: int| 0 <= k < r.sizes@.len() ==> #[trigger] r.sizes@[k]@ == pending_label(),
    {
        let copy = clone_strings(paths);
        let mut sizes: Vec<String> = Vec::new();
        let mut i: usize = 0;
        while i < paths.len()
            invariant
                i <= paths@.len(),
                sizes@.len() == i,
                forall|k: int| 0 <= k < i ==> #[trigger] sizes@[k]@ == pending_label(),
            decreases paths@.len() - i,
        {
            sizes.push(pending_text());
            i += 1;
        }
        assert(copy@.len() == texts(copy@).len());
        FolderList { paths: copy, sizes }
    }

    /// Add a picked folder after it was stored. A folder already listed is
    /// skipped, mirroring the store; returns whether it was added, so its
    /// size can be computed.
    pub fn add(&mut self, path: &str) -> (added: bool)
        requires
            old(self).wf(),
        ensures
            final(self).wf(),
            added == !texts(old(self).paths@).contains(path@),
            texts(final(self).paths@) == if added { texts(old(self).paths@).push(path@) } else { texts(old(self).paths@) },
            final(self).sizes@.len() == final(self).paths@.len(),
            forall|k: int| 0 <= k < old(self).sizes@.len() ==> #[trigger] final(self).sizes@[k] == old(self).sizes@[k],
            added ==> final(self).sizes@[final(self).sizes@.len() - 1]@ == pending_label(),
    {
        let mut i: usize = 0;
        while i < self.paths.len()
            invariant
                i <= self.paths@.len(),
                self.paths@ == old(self).paths@,
                self.sizes@ == old(self).sizes@,
                self.wf(),
                forall|k: int| 0 <= k < i ==> self.paths@[k]@ != path@,
            decreases self.paths@.len() - i,
        {
            let p = chars_of(self.paths[i].as_str());
            let q = chars_of(path);
            if crate::text::chars_eq(&p, &q) {
                assert(texts(self.paths@)[i as int] == path@);
                return false;
            }
            i += 1;
        }
        assert(!texts(self.paths@).contains(path@)) by {
            if texts(self.paths@).contains(path@) {
                let k = choose|k: int| 0 <= k < texts(self.paths@).len() && texts(self.paths@)[k] == path@;
                assert(self.paths@[k]@ == path@);
            }
        }
        let ghost before = self.paths@;
        let s = owned(path);
        proof {
            lemma_texts_push(before, s);
        }
        self.paths.push(s);
        self.sizes.push(pending_text());
        proof {
            let t = texts(self.paths@);
            assert forall|a: int, b: int| 0 <= a < t.len() && 0 <= b < t.len() && a != b implies t[a] != t[b] by {
                if a < t.len() - 1 && b < t.len() - 1 {
                    assert(t[a] == texts(before)[a] && t[b] == texts(before)[b]);
                } else if a == t.len() - 1 {
                    assert(t[b] == texts(before)[b]);
                    assert(texts(before).contains(t[b]));
                } else {
                    assert(t[a] == texts(before)[a]);
                    assert(texts(before).contains(t[a]));
                }
            }
        }
        true
    }

    /// Record the size label computed for `path`. The folder is looked up
    /// by path, since the list may have changed while its size was
    /// computed; a folder no longer listed is ignored.
    pub fn size_computed(&mut self, path: &str, label: String)
        requires
            old(self).wf(),
        ensures
            final(self).wf(),
            final(self).paths@ == old(self).paths@,
            forall|k: int| 0 <= k < old(self).sizes@.len() ==> (#[trigger] final(self).sizes@[k])@ == if old(self).paths@[k]@ == path@ {
                label@
            } else {
                old(self).sizes@[k]@
            },
    {
        let q = chars_of(path);
        let mut i: usize = 0;
        while i < self.paths.len()
            invariant
                i <= self.paths@.len(),
                self.paths@ == old(self).paths@,
                self.sizes@ == old(self).sizes@,
                self.wf(),
                q@ == path@,
                forall|k: int| 0 <= k < i ==> self.paths@[k]@ != path@,
            decreases self.paths@.len() - i,
        {
            let p = chars_of(self.paths[i].as_str());
            if crate::text::chars_eq(&p, &q) {
                self.sizes.set(i, label);
                proof {
                    assert forall|k: int| 0 <= k < old(self).sizes@.len() && k != i implies old(self).paths@[k]@ != path@ by {
                        if old(self).paths@[k]@ == path@ {
                            assert(texts(self.paths@)[k] == texts(self.paths@)[i as int]);
                        }
                    }
                }
                return;
            }
            i += 1;
        }
    }

    /// Drop the folder at `index` after it was removed from the store;
    /// returns its path, or `None` (and changes nothing) when there is no
    /// such folder.
    pub fn remove(&mut self, index: usize) -> (r: Option<String>)
        requires
            old(self).wf(),
        ensures
            final(self).wf(),
            index < old(self).paths@.len() ==> (r matches Some(p) && p@ == old(self).paths@[index as int]@
                && final(self).paths@ == old(self).paths@.remove(index as int)
                && final(self).sizes@ == old(self).sizes@.remove(index as int)),
            index >= old(self).paths@.len() ==> r is None && final(self).paths@ == old(self).paths@
                && final(self).sizes@ == old(self).sizes@,
    {
        if index >= self.paths.len() {
            return None;
        }
        let ghost before = self.paths@;
        let p = self.paths.remove(index);
        self.sizes.remove(index);
        proof {
            let t = texts(self.paths@);
            let o = texts(before);
            assert forall|a: int, b: int| 0 <= a < t.len() && 0 <= b < t.len() && a != b implies t[a] != t[b] by {
                let oa = if a < index { a } else { a + 1 };
                let ob = if b < index { b } else { b + 1 };
                assert(t[a] == o[oa] && t[b] == o[ob]);
            }
        }
        Some(p)
    }
}

/// The menu a right-press on row `index` leaves open: pressing the row
/// whose menu is open closes it; any other row opens its own.
pub fn toggle_menu(open: Option<usize>, index: usize) -> (r: Option<usize>)
    ensures
        r == if open == Some(index) { None } else { Some(index) },
{
    match open {
        Some(i) if i == index => None,
        _ => Some(index),
    }
}

/// The chip under the pointer after the pointer entered (`hovered`) or
/// left chip `index`: leaving another chip than the hovered one changes
/// nothing.
pub fn chip_hover(current: Option<usize>, index: usize, hovered: bool) -> (r: Option<usize>)
    ensures
        r == if hovered { Some(index) } else if current == Some(index) { None } else { current },
{
    if hovered {
        Some(index)
    } else {
        match current {
            Some(c) if c == index => None,
            _ => current,
        }
    }
}

/// Where the pointer is and which row menus are open in the CONFIG. SILO
/// dialog.
#[derive(Debug, Clone, Copy, PartialEq, Eq, Structural)]
pub struct ConfigFlags {
    /// Whether the pointer is over the add-folder button.
    pub plus_hovered: bool,
    /// The folder chip under the pointer.
    pub hovered_chip: Option<usize>,
    /// The folder chip whose remove menu is open.
    pub chip_menu: Option<usize>,
    /// Whether the pointer is over the open folder menu.
    pub menu_hovered: bool,
    /// Whether the pointer is over the add-pattern button.
    pub exclude_plus_hovered: bool,
    /// The exclude pattern whose delete menu is open.
    pub exclude_menu: Option<usize>,
    /// Whether the pointer is over the open exclude menu.
    pub exclude_menu_hovered: bool,
}

/// What the pointer did in the CONFIG. SILO dialog, as far as the flags
/// are concerned.
#[derive(Debug, Clone, Copy, PartialEq, Eq, Structural)]
pub enum PointerEvent {
    /// The pointer entered (`true`) or left the add-folder button.
    PlusHovered(bool),
    /// The pointer entered or left folder chip `index`.
    ChipHovered(usize, bool),
    /// A folder chip was pressed, which opens the folder.
    ChipPressed,
    /// A folder chip was right-pressed.
    ChipMenuRequested(usize),
    /// A folder was removed from its menu.
    FolderRemoved,
    /// The folder menu was dismissed.
    CloseChipMenu,
    /// The pointer entered or left the open folder menu.
    MenuHovered(bool),
    /// The pointer entered or left the add-pattern button.
    ExcludePlusHovered(bool),
    /// An exclude pattern chip was right-pressed.
    ExcludeMenuRequested(usize),
    /// An exclude pattern was deleted from its menu.
    ExcludePatternRemoved,
    /// The exclude menu was dismissed.
    CloseExcludeMenu,
    /// The pointer entered or left the open exclude menu.
    ExcludeMenuHovered(bool),
}

/// The flags when the dialog opens or closes: nothing hovered, no menu open.
pub open spec fn cleared_flags() -> ConfigFlags {
    ConfigFlags {
        plus_hovered: false,
        hovered_chip: None,
        chip_menu: None,
        menu_hovered: false,
        exclude_plus_hovered: false,
        exclude_menu: None,
        exclude_menu_hovered: false,
    }
}

/// The flags after `event`: a hover sets its own flag; opening, pressing,
/// removing, or dismissing on a row menu settles which menu is open and
/// clears the pointer-over-menu flag; removing a folder also forgets the
/// hovered chip, whose index may now name another folder.
pub open spec fn flags_after(f: ConfigFlags, event: PointerEvent) -> ConfigFlags {
    match event {
        PointerEvent::PlusHovered(h) => ConfigFlags { plus_hovered: h, ..f },
        PointerEvent::ChipHovered(index, h) => ConfigFlags {
            hovered_chip: if h {
                Some(index)
            } else if f.hovered_chip == Some(index) {
                None
            } else {
                f.hovered_chip
            },
            ..f
        },
        PointerEvent::ChipPressed => ConfigFlags { chip_menu: None, menu_hovered: false, ..f },
        PointerEvent::ChipMenuRequested(index) => ConfigFlags {
            chip_menu: if f.chip_menu == Some(index) { None } else { Some(index) },
            menu_hovered: false,
            ..f
        },
        PointerEvent::FolderRemoved => ConfigFlags {
            chip_menu: None,
            hovered_chip: None,
            menu_hovered: false,
            ..f
        },
        PointerEvent::CloseChipMenu => ConfigFlags { chip_menu: None, menu_hovered: false, ..f },
        PointerEvent::MenuHovered(h) => ConfigFlags { menu_hovered: h, ..f },
        PointerEvent::ExcludePlusHovered(h) => ConfigFlags { exclude_plus_hovered: h, ..f },
        PointerEvent::ExcludeMenuRequested(index) => ConfigFlags {
            exclude_menu: if f.exclude_menu == Some(index) { None } else { Some(index) },
            exclude_menu_hovered: false,
            ..f
        },
        PointerEvent::ExcludePatternRemoved => ConfigFlags {
            exclude_menu: None,
            exclude_menu_hovered: false,
            ..f
        },
        PointerEvent::CloseExcludeMenu => ConfigFlags {
            exclude_menu: None,
            exclude_menu_hovered: false,
            ..f
        },
        PointerEvent::ExcludeMenuHovered(h) => ConfigFlags { exclude_menu_hovered: h, ..f },
    }
}

impl ConfigFlags {
    /// Nothing hovered, no menu open.
    pub fn new() -> (r: ConfigFlags)
        ensures
            r == cleared_flags(),
    {
        ConfigFlags {
            plus_hovered: false,
            hovered_chip: None,
            chip_menu: None,
            menu_hovered: false,
            exclude_plus_hovered: false,
            exclude_menu: None,
            exclude_menu_hovered: false,
        }
    }

    /// Clears every flag, as when the dialog opens or closes.
    pub fn reset(&mut self)
        ensures
            *final(self) == cleared_flags(),
    {
        *self = ConfigFlags::new();
    }

    /// Updates the flags for `event`.
    pub fn apply(&mut self, event: PointerEvent)
        ensures
            *final(self) == flags_after(*old(self), event),
    {
        match event {
            PointerEvent::PlusHovered(h) => self.plus_hovered = h,
            PointerEvent::ChipHovered(index, h) => {
                self.hovered_chip = chip_hover(self.hovered_chip, index, h);
            },
            PointerEvent::ChipPressed | PointerEvent::CloseChipMenu => {
                self.chip_menu = None;
                self.menu_hovered = false;
            },
            PointerEvent::ChipMenuRequested(index) => {
                self.chip_menu = toggle_menu(self.chip_menu, index);
                self.menu_hovered = false;
            },
            PointerEvent::FolderRemoved => {
                self.chip_menu = None;
                self.hovered_chip = None;
                self.menu_hovered = false;
            },
            PointerEvent::MenuHovered(h) => self.menu_hovered = h,
            PointerEvent::ExcludePlusHovered(h) => self.exclude_plus_hovered = h,
            PointerEvent::ExcludeMenuRequested(index) => {
                self.exclude_menu = toggle_menu(self.exclude_menu, index);
                self.exclude_menu_hovered = false;
            },
            PointerEvent::ExcludePatternRemoved | PointerEvent::CloseExcludeMenu => {
                self.exclude_menu = None;
                self.exclude_menu_hovered = false;
            },
            PointerEvent::ExcludeMenuHovered(h) => self.exclude_menu_hovered = h,
        }
    }
}

/// Right-pressing the chip whose menu the last right-press opened closes
/// that menu again, for folder chips and exclude chips alike.
pub proof fn lemma_second_press_closes_menu(f: ConfigFlags, index: usize)
    ensures
        flags_after(f, PointerEvent::ChipMenuRequested(index)).chip_menu == Some(index) ==> flags_after(
            flags_after(f, PointerEvent::ChipMenuRequested(index)),
            PointerEvent::ChipMenuRequested(index),
        ).chip_menu is None,
        flags_after(f, PointerEvent::ExcludeMenuRequested(index)).exclude_menu == Some(index)
            ==> flags_after(
            flags_after(f, PointerEvent::ExcludeMenuRequested(index)),
            PointerEvent::ExcludeMenuRequested(index),
        ).exclude_menu is None,
{
}

/// Which extension of the ALLOCATION chart is expanded, and which one is
/// waiting for its breakdown to be prepared.
#[derive(Debug)]
pub struct ChartSelection {
    /// The extension whose breakdown is shown.
    pub expanded: Option<String>,
    /// The extension whose breakdown is being prepared.
    pub pending: Option<String>,
}

/// The view of an optional extension.
pub open spec fn opt_view(o: Option<String>) -> Option<Seq<char>> {
    match o {
        Some(s) => Some(s@),
        None => None,
    }
}

fn same_text(o: &Option<String>, e: &str) -> (r: bool)
    ensures
        r == (opt_view(*o) == Some(e@)),
{
    match o {
        Some(s) => {
            let a = chars_of(s.as_str());
            let b = chars_of(e);
            crate::text::chars_eq(&a, &b)
        },
        None => false,
    }
}

impl ChartSelection {
    /// Nothing expanded, nothing pending.
    pub fn new() -> (r: Self)
        ensures
            opt_view(r.expanded) is None,
            opt_view(r.pending) is None,
    {
        ChartSelection { expanded: None, pending: None }
    }

    /// New chart data arrived: the prepared breakdowns are stale, so
    /// nothing stays expanded or pending.
    pub fn reset(&mut self)
        ensures
            opt_view(final(self).expanded) is None,
            opt_view(final(self).pending) is None,
    {
        self.expanded = None;
        self.pending = None;
    }

    /// A press on the row of `extension`, whose breakdown is `prepared` or
    /// not. Pressing the open (or pending) row collapses it; a prepared row
    /// expands at once; any other row becomes pending. Returns whether its
    /// breakdown must be prepared.
    pub fn press(&mut self, extension: &str, prepared: bool) -> (prepare: bool)
        ensures
            ({
                let is_open = opt_view(old(self).expanded) == Some(extension@)
                    || opt_view(old(self).pending) == Some(extension@);
                if is_open {
                    !prepare && opt_view(final(self).expanded) is None && opt_view(final(self).pending) is None
                } else if prepared {
                    !prepare && opt_view(final(self).expanded) == Some(extension@) && opt_view(final(self).pending) is None
                } else {
                    prepare && opt_view(final(self).pending) == Some(extension@)
                        && opt_view(final(self).expanded) == opt_view(old(self).expanded)
                }
            }),
    {
        let is_open = same_text(&self.expanded, extension) || same_text(&self.pending, extension);
        if is_open {
            self.expanded = None;
            self.pending = None;
            false
        } else if prepared {
            self.expanded = Some(owned(extension));
            self.pending = None;
            false
        } else {
            self.pending = Some(owned(extension));
            true
        }
    }

    /// The breakdown of `extension` is ready. It expands only when the user
    /// still waits on that extension; returns whether it did.
    pub fn prepared(&mut self, extension: &str) -> (applied: bool)
        ensures
            applied == (opt_view(old(self).pending) == Some(extension@)),
            applied ==> opt_view(final(self).expanded) == Some(extension@) && opt_view(final(self).pending) is None,
            !applied ==> opt_view(final(self).expanded) == opt_view(old(self).expanded)
                && opt_view(final(self).pending) == opt_view(old(self).pending),
    {
        if same_text(&self.pending, extension) {
            self.expanded = Some(owned(extension));
            self.pending = None;
            true
        } else {
            false
        }
    }
}

/// Build the sync plan from the dialog state: the source folders, the
/// exclude patterns, the destination, and the rsync binary. `None` when no
/// destination is selected.
pub fn build_sync_plan(folders: &Vec<String>, excludes: &Vec<String>, destination: &Option<String>, binary: &str) -> (r: Option<SyncPlan>)
    ensures
        match destination {
            None => r is None,
            Some(d) => r matches Some(p) && p@.sources == texts(folders@) && p@.excludes == texts(excludes@)
                && p.destination@ == d@ && p.binary@ == binary@,
        },
{
    match destination {
        None => None,
        Some(d) => Some(SyncPlan::new(clone_strings(folders), clone_strings(excludes), d.clone(), owned(binary))),
    }
}

fn push_status(lines: &mut Vec<StatusLine>, kind: StatusKind, text: &str)
    ensures
        line_views(final(lines)@) == line_views(old(lines)@).push((kind, text@)),
{
    let ghost before = lines@;
    lines.push(StatusLine { kind, text: owned(text) });
    assert(line_views(lines@) =~= line_views(before).push((kind, text@)));
}

/// The DRY-RUN button was pressed: report that the dry run starts, or that
/// it cannot without a destination. Returns the plan to run.
pub fn start_dry_run(status: &mut Vec<StatusLine>, plan: Option<SyncPlan>) -> (r: Option<SyncPlan>)
    ensures
        r == plan,
        line_views(final(status)@) == line_views(old(status)@).push((StatusKind::Info, "Dry run in progress..."@))
            + if plan is None {
                seq![(StatusKind::Error, "Dry run failed: no sync destination selected"@)]
            } else {
                Seq::empty()
            },
{
    push_status(status, StatusKind::Info, "Dry run in progress...");
    let ghost mid = line_views(status@);
    if plan.is_none() {
        push_status(status, StatusKind::Error, "Dry run failed: no sync destination selected");
    } else {
        assert(mid + Seq::<(StatusKind, Seq<char>)>::empty() =~= mid);
    }
    plan
}

/// The SYNC button was pressed: report that the sync is prepared, or that
/// it cannot run without a destination. Returns the plan to run.
pub fn start_sync(status: &mut Vec<StatusLine>, plan: Option<SyncPlan>) -> (r: Option<SyncPlan>)
    ensures
        r == plan,
        line_views(final(status)@) == line_views(old(status)@).push((StatusKind::Info, "Preparing sync..."@))
            + if plan is None {
                seq![(StatusKind::Error, "Sync failed: no sync destination selected"@)]
            } else {
                Seq::empty()
            },
{
    push_status(status, StatusKind::Info, "Preparing sync...");
    let ghost mid = line_views(status@);
    if plan.is_none() {
        push_status(status, StatusKind::Error, "Sync failed: no sync destination selected");
    } else {
        assert(mid + Seq::<(StatusKind, Seq<char>)>::empty() =~= mid);
    }
    plan
}

/// The sync task starts: report that the sync is in progress.
pub fn sync_started(status: &mut Vec<StatusLine>)
    ensures
        line_views(final(status)@) == line_views(old(status)@).push((StatusKind::Info, "Sync in progress..."@)),
{
    push_status(status, StatusKind::Info, "Sync in progress...");
}

/// The line reporting a dry run that could not run.
pub fn dry_run_error_lines(err: &SyncError) -> (r: Vec<StatusLine>)
    ensures
        line_views(r@) == seq![(StatusKind::Error, "Dry run failed: "@ + sync_error_text(err@))],
{
    let mut v = chars_of("Dry run failed: ");
    let m = err.message();
    let mc = chars_of(m.as_str());
    extend_chars(&mut v, &mc);
    let mut lines: Vec<StatusLine> = Vec::new();
    lines.push(StatusLine { kind: StatusKind::Error, text: string_of(&v) });
    assert(line_views(lines@) =~= seq![(StatusKind::Error, "Dry run failed: "@ + sync_error_text(err@))]);
    lines
}

} // verus!
