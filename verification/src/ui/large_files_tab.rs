//! The tab that finds large files.

use vstd::prelude::*;

use crate::dnd;
use crate::dnd::Dropped;
use crate::large_files::{FileEntry, LargeFileEvent, LargeFilesOptions};
use crate::paths;
use crate::paths::{FilePath, PathView};
use crate::text;
use crate::ui;
use crate::ui::listing;
use crate::ui::listing::SortBy;
use crate::ui::selection;
use crate::ui::selection::Selection;
use crate::util;
use crate::util::Log;

verus! {

/// What the tab remembers.
#[derive(Debug)]
pub struct LargeFilesTab {
    pub roots: Vec<FilePath>,
    pub search: String,
    pub sort_by: SortBy,
    pub running: bool,
    pub files_scanned: usize,
    pub results: Vec<FileEntry>,
    pub selected: Selection,
    pub total_bytes: u64,
    pub log: Log,
}

impl Default for LargeFilesTab {
    fn default() -> (r: LargeFilesTab)
        ensures
            r.wf(),
            r.is_new(),
    {
        LargeFilesTab {
            roots: Vec::new(),
            search: "".to_owned(),
            sort_by: SortBy::SizeDesc,
            running: false,
            files_scanned: 0,
            results: Vec::new(),
            selected: Selection::new(),
            total_bytes: 0,
            log: Log::default(),
        }
    }
}

impl LargeFilesTab {
    /// Nothing is chosen, found or running yet.
    pub open spec fn is_new(self) -> bool {
        &&& self.roots@.len() == 0
        &&& self.search@ == ""@
        &&& self.sort_by is SizeDesc
        &&& !self.running
        &&& self.files_scanned == 0
        &&& self.results@.len() == 0
        &&& self.selected@.len() == 0
        &&& self.total_bytes == 0
        &&& self.log@.len() == 0
        &&& self.log.cap() == 200
    }

    pub open spec fn wf(self) -> bool {
        self.selected.wf() && self.log.wf()
    }

    pub fn is_running(&self) -> (r: bool)
        ensures
            r == self.running,
    {
        self.running
    }

    pub fn add_dropped(&mut self, dropped: &Vec<Dropped>)
        requires
            old(self).wf(),
        ensures
            final(self).wf(),
            *final(self) == (LargeFilesTab { roots: final(self).roots, ..*old(self) }),
            paths::views(final(self).roots@) == dnd::with_folders(
                paths::views(old(self).roots@),
                dropped@,
                dropped@.len() as int,
            ),
    {
        dnd::add_folders(&mut self.roots, dropped);
    }

    /// The search tells about its progress.
    pub fn on_event(&mut self, event: LargeFileEvent)
        requires
            old(self).wf(),
        ensures
            final(self).wf(),
            match event {
                LargeFileEvent::Scanning { files_scanned } => *final(self) == (LargeFilesTab {
                    files_scanned,
                    ..*old(self)
                }),
                LargeFileEvent::Found(entry) => {
                    &&& final(self).results@ == old(self).results@.push(entry)
                    &&& *final(self) == (LargeFilesTab {
                        results: final(self).results,
                        total_bytes: old(self).total_bytes.wrapping_add(entry.size),
                        ..*old(self)
                    })
                },
                LargeFileEvent::Finished { count, total_bytes } => {
                    &&& ui::wrote(
                        old(self).log,
                        final(self).log,
                        "Found "@ + text::dec(count as nat) + " file(s) over the threshold, "@
                            + util::readable(total_bytes),
                    )
                    &&& *final(self) == (LargeFilesTab {
                        running: false,
                        total_bytes,
                        log: final(self).log,
                        ..*old(self)
                    })
                },
                LargeFileEvent::Cancelled => {
                    &&& ui::wrote(old(self).log, final(self).log, "Cancelled."@)
                    &&& *final(self) == (LargeFilesTab {
                        running: false,
                        log: final(self).log,
                        ..*old(self)
                    })
                },
            },
    {
        match event {
            LargeFileEvent::Scanning { files_scanned } => {
                self.files_scanned = files_scanned;
            },
            LargeFileEvent::Found(entry) => {
                self.total_bytes = self.total_bytes.wrapping_add(entry.size);
                self.results.push(entry);
            },
            LargeFileEvent::Finished { count, total_bytes } => {
                self.total_bytes = total_bytes;
                let mut line = "Found ".to_owned();
                line.append(text::decimal(count as u64).as_str());
                line.append(" file(s) over the threshold, ");
                line.append(util::human_bytes(total_bytes).as_str());
                self.log.push(line);
                self.running = false;
            },
            LargeFileEvent::Cancelled => {
                self.log.push("Cancelled.".to_owned());
                self.running = false;
            },
        }
    }

    /// Starts a search for files of at least `min_size` bytes: where, and for
    /// what.
    pub fn start(&mut self, min_size: u64) -> (r: Option<(Vec<FilePath>, LargeFilesOptions)>)
        requires
            old(self).wf(),
        ensures
            final(self).wf(),
            old(self).roots@.len() == 0 ==> {
                &&& r is None
                &&& ui::wrote(
                    old(self).log,
                    final(self).log,
                    "Add at least one folder to scan first."@,
                )
                &&& *final(self) == (LargeFilesTab { log: final(self).log, ..*old(self) })
            },
            old(self).roots@.len() > 0 ==> {
                &&& r matches Some((roots, options))
                &&& paths::views(roots@) == paths::views(old(self).roots@)
                &&& options.min_size == min_size
                &&& final(self).results@.len() == 0
                &&& final(self).selected@.len() == 0
                &&& ui::emptied(old(self).log, final(self).log)
                &&& *final(self) == (LargeFilesTab {
                    results: final(self).results,
                    selected: final(self).selected,
                    total_bytes: 0,
                    files_scanned: 0,
                    running: true,
                    log: final(self).log,
                    ..*old(self)
                })
            },
    {
        if self.roots.len() == 0 {
            self.log.push("Add at least one folder to scan first.".to_owned());
            return None;
        }
        self.results.clear();
        self.selected.clear();
        self.total_bytes = 0;
        self.files_scanned = 0;
        self.log.clear();
        self.running = true;
        Some((paths::clone_paths(&self.roots), LargeFilesOptions { min_size }))
    }

    /// The positions of the results that the search text leaves, in the chosen
    /// order.
    pub fn filtered_sorted(&self) -> (list: Vec<usize>)
        ensures
            listing::is_listing(self.results@, self.search@, self.sort_by, list@),
            forall|a: int| 0 <= a < list@.len() ==> #[trigger] list@[a] < self.results@.len(),
    {
        listing::listing(&self.results, self.search.as_str(), self.sort_by)
    }

    /// What to send to the trash, if something is ticked.
    pub fn delete_selected(&self) -> (r: Option<Vec<FilePath>>)
        ensures
            self.selected@.len() == 0 ==> r is None,
            self.selected@.len() > 0 ==> r is Some && paths::views(r->0@) == self.selected@,
    {
        if self.selected.is_empty() {
            return None;
        }
        Some(self.selected.paths())
    }

    /// The trash has answered.
    pub fn on_deleted(&mut self, result: Result<(), String>)
        requires
            old(self).wf(),
        ensures
            final(self).wf(),
            match result {
                Ok(_) => {
                    &&& ui::wrote(
                        old(self).log,
                        final(self).log,
                        "Moved "@ + text::dec(old(self).selected@.len()) + " file(s) to trash."@,
                    )
                    &&& final(self).results@ == listing::still_listed(
                        old(self).results@,
                        old(self).selected@,
                    )
                    &&& final(self).selected@ == Seq::<PathView>::empty()
                    &&& *final(self) == (LargeFilesTab {
                        results: final(self).results,
                        selected: final(self).selected,
                        log: final(self).log,
                        ..*old(self)
                    })
                },
                Err(e) => {
                    &&& ui::wrote(old(self).log, final(self).log, "Delete failed: "@ + e@)
                    &&& *final(self) == (LargeFilesTab { log: final(self).log, ..*old(self) })
                },
            },
    {
        match result {
            Ok(_) => {
                let gone = self.selected.paths();
                let mut line = "Moved ".to_owned();
                line.append(text::decimal(gone.len() as u64).as_str());
                line.append(" file(s) to trash.");
                self.log.push(line);
                let mut results: Vec<FileEntry> = Vec::new();
                std::mem::swap(&mut results, &mut self.results);
                self.results = listing::forget(results, &gone);
                self.selected.clear();
            },
            Err(e) => {
                let mut line = "Delete failed: ".to_owned();
                line.append(e.as_str());
                self.log.push(line);
            },
        }
    }

    /// Ticks the results that are shown.
    pub fn select_shown(&mut self, shown: &Vec<usize>)
        requires
            old(self).wf(),
            forall|a: int|
                0 <= a < shown@.len() ==> #[trigger] shown@[a] < old(self).results@.len(),
        ensures
            final(self).wf(),
            final(self).selected@ == selection::with_all(
                old(self).selected@,
                listing::paths_at(old(self).results@, shown@),
                shown@.len() as int,
            ),
            *final(self) == (LargeFilesTab { selected: final(self).selected, ..*old(self) }),
    {
        listing::select_shown(&mut self.selected, &self.results, shown);
    }

    /// Ticks a result, or takes the tick away.
    pub fn tick(&mut self, i: usize, checked: bool)
        requires
            old(self).wf(),
            i < old(self).results@.len(),
        ensures
            final(self).wf(),
            final(self).selected@ == (if checked {
                selection::with(old(self).selected@, old(self).results@[i as int].path@)
            } else {
                selection::without(old(self).selected@, seq![old(self).results@[i as int].path@])
            }),
            *final(self) == (LargeFilesTab { selected: final(self).selected, ..*old(self) }),
    {
        listing::tick(&mut self.selected, &self.results[i].path, checked);
    }

    pub fn progress_label(&self) -> (r: String)
        ensures
            r@ == "Scanning… "@ + text::dec(self.files_scanned as nat) + " files checked, "@
                + text::dec(self.results@.len()) + " match so far"@,
    {
        let mut r = "Scanning… ".to_owned();
        r.append(text::decimal(self.files_scanned as u64).as_str());
        r.append(" files checked, ");
        r.append(text::decimal(self.results.len() as u64).as_str());
        r.append(" match so far");
        r
    }

    /// How many results are shown, and what they all take up.
    pub fn results_label(&self, shown: usize) -> (r: String)
        ensures
            r@ == text::dec(shown as nat) + " of "@ + text::dec(self.results@.len())
                + " file(s) — "@ + util::readable(self.total_bytes) + " total"@,
    {
        let mut r = ui::counted(shown, " of ");
        r.append(text::decimal(self.results.len() as u64).as_str());
        r.append(" file(s) — ");
        r.append(util::human_bytes(self.total_bytes).as_str());
        r.append(" total");
        r
    }
}

/// A search looks in the roots for files of at least the size that was asked
/// for, and starts with nothing found and nothing ticked.
pub proof fn law_large_files_are_sought_as_asked(
    tab: &mut LargeFilesTab,
    min_size: u64,
    r: Option<(Vec<FilePath>, LargeFilesOptions)>,
)
    requires
        tab.wf(),
        call_ensures(LargeFilesTab::start, (tab, min_size), r),
    ensures
        r is Some <==> old(tab).roots@.len() > 0,
        r matches Some((roots, options)) ==> {
            &&& paths::views(roots@) == paths::views(old(tab).roots@)
            &&& options.min_size == min_size
            &&& final(tab).results@.len() == 0
            &&& final(tab).selected@.len() == 0
            &&& final(tab).total_bytes == 0
            &&& final(tab).running
        },
{
}

/// What is found is shown and counts with its size.
pub proof fn law_found_files_count(tab: &mut LargeFilesTab, entry: FileEntry, u: ())
    requires
        tab.wf(),
        tab.total_bytes + entry.size <= u64::MAX,
        call_ensures(LargeFilesTab::on_event, (tab, LargeFileEvent::Found(entry)), u),
    ensures
        final(tab).results@ == old(tab).results@.push(entry),
        final(tab).total_bytes == old(tab).total_bytes + entry.size,
        final(tab).selected == old(tab).selected,
        final(tab).running == old(tab).running,
{
}

/// What went to the trash is what was ticked: that is forgotten and nothing
/// else; where the trash refused, all stays.
pub proof fn law_deleted_files_are_forgotten(
    tab: &mut LargeFilesTab,
    result: Result<(), String>,
    u: (),
    entry: FileEntry,
)
    requires
        tab.wf(),
        call_ensures(LargeFilesTab::on_deleted, (tab, result), u),
    ensures
        result is Ok ==> (final(tab).results@.contains(entry) <==> old(tab).results@.contains(entry)
            && !old(tab).selected@.contains(entry.path@)),
        result is Ok ==> final(tab).selected@.len() == 0,
        result is Err ==> final(tab).results == old(tab).results && final(tab).selected == old(tab).selected,
{
    listing::law_forget_spares_the_rest(tab.results@, tab.selected@, entry);
}

/// A folder that is dropped is looked in from then on, beside those that were.
pub proof fn law_dropped_folders_are_roots(tab: &mut LargeFilesTab, dropped: &Vec<Dropped>, u: (), i: int, k: int)
    requires
        tab.wf(),
        0 <= i < dropped@.len(),
        dropped@[i].is_dir,
        call_ensures(LargeFilesTab::add_dropped, (tab, dropped), u),
    ensures
        paths::views(final(tab).roots@).contains(dropped@[i].path@),
        0 <= k < old(tab).roots@.len() ==> k < final(tab).roots@.len() && final(tab).roots@[k]@
            == old(tab).roots@[k]@,
        final(tab).selected == old(tab).selected,
        final(tab).running == old(tab).running,
{
    let a = paths::views(tab.roots@);
    let b = paths::views(final(tab).roots@);
    dnd::lemma_with_folders(a, dropped@, dropped@.len() as int);
    assert(a.len() == tab.roots@.len() && b.len() == final(tab).roots@.len());
    assert(dnd::folder_of(dropped@[i].path@, dropped@[i].is_dir) == Some(dropped@[i].path@));
    if 0 <= k < tab.roots@.len() {
        assert(b[k] == a[k]);
        assert(a[k] == tab.roots@[k]@);
        assert(b[k] == final(tab).roots@[k]@);
    }
}

} // verus!
