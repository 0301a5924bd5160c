//! The tab that finds out which folders take up space.

use vstd::prelude::*;

use crate::big_folders::{BigFolderEvent, BigFoldersOptions, FolderEntry};
use crate::dialog::DeferredPicker;
use crate::dnd;
use crate::dnd::Dropped;
use crate::paths;
use crate::paths::{FilePath, PathView};
use crate::text;
use crate::ui;
use crate::ui::listing;
use crate::ui::listing::SortBy;
use crate::ui::selection;
use crate::ui::selection::Selection;
use crate::ui::Notice;
use crate::util::Log;

verus! {

/// What a list was made for: the search text, the order, and how many results
/// there were.
#[derive(Debug)]
pub struct FilterKey {
    pub search: String,
    pub sort_by: SortBy,
    pub count: usize,
}

/// What the tab remembers.
#[derive(Debug)]
pub struct BigFoldersTab {
    pub roots: Vec<FilePath>,
    pub search: String,
    pub sort_by: SortBy,
    pub running: bool,
    pub files_scanned: usize,
    pub results: Vec<FolderEntry>,
    /// The positions of the results that are shown, kept until what they were
    /// made for changes.
    pub filtered_indices: Vec<usize>,
    pub filtered_cache_key: Option<FilterKey>,
    pub selected: Selection,
    /// What is on its way to the trash.
    pub deleting: Option<Vec<FilePath>>,
    pub picker: DeferredPicker,
    pub log: Log,
}

impl Default for BigFoldersTab {
    fn default() -> (r: BigFoldersTab)
        ensures
            r.wf(),
            r.is_new(),
    {
        BigFoldersTab {
            roots: Vec::new(),
            search: "".to_owned(),
            sort_by: SortBy::SizeDesc,
            running: false,
            files_scanned: 0,
            results: Vec::new(),
            filtered_indices: Vec::new(),
            filtered_cache_key: None,
            selected: Selection::new(),
            deleting: None,
            picker: DeferredPicker::default(),
            log: Log::default(),
        }
    }
}

impl BigFoldersTab {
    /// Nothing is chosen, found or running yet.
    pub open spec fn is_new(self) -> bool {
        &&& self.roots@.len() == 0
        &&& self.search@ == ""@
        &&& self.sort_by is SizeDesc
        &&& !self.running
        &&& self.files_scanned == 0
        &&& self.results@.len() == 0
        &&& self.filtered_indices@.len() == 0
        &&& self.filtered_cache_key is None
        &&& self.selected@.len() == 0
        &&& self.deleting is None
        &&& self.picker.requested is None
        &&& self.log@.len() == 0
        &&& self.log.cap() == 200
    }

    /// The positions that are kept were there when the list was made.
    pub open spec fn wf(self) -> bool {
        &&& self.selected.wf()
        &&& self.log.wf()
        &&& self.filtered_cache_key matches Some(key) ==> forall|a: int|
            0 <= a < self.filtered_indices@.len() ==> #[trigger] self.filtered_indices@[a]
                < key.count
    }

    /// Whether the list was made for what there is now.
    pub open spec fn is_current(self) -> bool {
        &&& self.filtered_cache_key matches Some(key)
        &&& key.search@ == self.search@
        &&& key.sort_by == self.sort_by
        &&& key.count == self.results@.len()
    }

    pub fn is_running(&self) -> (r: bool)
        ensures
            r == self.running,
    {
        self.running
    }

    pub fn add_dropped(&mut self, dropped: &Vec<Dropped>)
        requires
            old(self).wf(),
        ensures
            final(self).wf(),
            *final(self) == (BigFoldersTab { roots: final(self).roots, ..*old(self) }),
            paths::views(final(self).roots@) == dnd::with_folders(
                paths::views(old(self).roots@),
                dropped@,
                dropped@.len() as int,
            ),
    {
        dnd::add_folders(&mut self.roots, dropped);
    }

    /// The trash has answered.
    pub fn on_deleted(&mut self, result: Result<usize, String>)
        requires
            old(self).wf(),
        ensures
            final(self).wf(),
            old(self).deleting is None ==> *final(self) == *old(self),
            old(self).deleting matches Some(asked) ==> {
                &&& *final(self) == (BigFoldersTab {
                    results: final(self).results,
                    selected: final(self).selected,
                    deleting: None,
                    log: final(self).log,
                    ..*old(self)
                })
                &&& match result {
                    Ok(count) => {
                        &&& ui::wrote(
                            old(self).log,
                            final(self).log,
                            "Moved "@ + text::dec(count as nat) + " folder(s) to trash."@,
                        )
                        &&& final(self).results@ == listing::still_listed(
                            old(self).results@,
                            paths::views(asked@),
                        )
                        &&& final(self).selected@ == selection::without(
                            old(self).selected@,
                            paths::views(asked@),
                        )
                    },
                    Err(e) => {
                        &&& ui::wrote(old(self).log, final(self).log, "Delete failed: "@ + e@)
                        &&& final(self).results == old(self).results
                        &&& final(self).selected == old(self).selected
                    },
                }
            },
    {
        let asked = match self.deleting.take() {
            Some(asked) => asked,
            None => return,
        };
        match result {
            Ok(count) => {
                let mut line = "Moved ".to_owned();
                line.append(text::decimal(count as u64).as_str());
                line.append(" folder(s) to trash.");
                self.log.push(line);
                let mut results: Vec<FolderEntry> = Vec::new();
                std::mem::swap(&mut results, &mut self.results);
                self.results = listing::forget(results, &asked);
                self.selected.remove_all(&asked);
            },
            Err(e) => {
                let mut line = "Delete failed: ".to_owned();
                line.append(e.as_str());
                self.log.push(line);
            },
        }
    }

    /// The search tells about its progress. `elapsed` is how long it has taken.
    pub fn on_event(&mut self, event: BigFolderEvent, elapsed: &str) -> (notice: Option<Notice>)
        requires
            old(self).wf(),
        ensures
            final(self).wf(),
            match event {
                BigFolderEvent::Scanning { files_scanned } => {
                    &&& *final(self) == (BigFoldersTab { files_scanned, ..*old(self) })
                    &&& notice is None
                },
                BigFolderEvent::Found(entry) => {
                    &&& final(self).results@ == old(self).results@.push(entry)
                    &&& *final(self) == (BigFoldersTab {
                        results: final(self).results,
                        ..*old(self)
                    })
                    &&& notice is None
                },
                BigFolderEvent::Finished { count } => {
                    &&& ui::wrote(
                        old(self).log,
                        final(self).log,
                        "Found "@ + text::dec(count as nat) + " folder(s) over the threshold — "@
                            + elapsed@,
                    )
                    &&& *final(self) == (BigFoldersTab {
                        running: false,
                        log: final(self).log,
                        ..*old(self)
                    })
                    &&& notice is Some
                    &&& notice->0.says(
                        "Big Folders scan finished"@,
                        text::dec(count as nat) + " folder(s) found"@,
                    )
                },
                BigFolderEvent::Cancelled => {
                    &&& ui::wrote(old(self).log, final(self).log, "Cancelled."@)
                    &&& *final(self) == (BigFoldersTab {
                        running: false,
                        log: final(self).log,
                        ..*old(self)
                    })
                    &&& notice is None
                },
            },
    {
        match event {
            BigFolderEvent::Scanning { files_scanned } => {
                self.files_scanned = files_scanned;
                None
            },
            BigFolderEvent::Found(entry) => {
                self.results.push(entry);
                None
            },
            BigFolderEvent::Finished { count } => {
                let mut line = "Found ".to_owned();
                line.append(text::decimal(count as u64).as_str());
                line.append(" folder(s) over the threshold — ");
                line.append(elapsed);
                self.log.push(line);
                self.running = false;
                let body = ui::counted(count, " folder(s) found");
                Some(Notice { summary: "Big Folders scan finished".to_owned(), body })
            },
            BigFolderEvent::Cancelled => {
                self.log.push("Cancelled.".to_owned());
                self.running = false;
                None
            },
        }
    }

    /// Whether a search with these roots was started, or refused for want of
    /// any.
    pub open spec fn starts(
        self,
        after: BigFoldersTab,
        roots: Seq<PathView>,
        min_size: u64,
        r: Option<(Vec<FilePath>, BigFoldersOptions)>,
    ) -> bool {
        if roots.len() == 0 {
            &&& r is None
            &&& ui::wrote(self.log, after.log, "Add at least one folder to scan first."@)
            &&& after == (BigFoldersTab { roots: after.roots, log: after.log, ..self })
        } else {
            &&& r matches Some((where_to, options))
            &&& paths::views(where_to@) == roots
            &&& options.min_size == min_size
            &&& after.results@.len() == 0
            &&& after.selected@.len() == 0
            &&& ui::emptied(self.log, after.log)
            &&& after == (BigFoldersTab {
                roots: after.roots,
                results: after.results,
                selected: after.selected,
                files_scanned: 0,
                running: true,
                log: after.log,
                ..self
            })
        }
    }

    /// Starts a search for folders of at least `min_size` bytes: where, and for
    /// what.
    pub fn start(&mut self, min_size: u64) -> (r: Option<(Vec<FilePath>, BigFoldersOptions)>)
        requires
            old(self).wf(),
        ensures
            final(self).wf(),
            final(self).roots == old(self).roots,
            old(self).starts(*final(self), paths::views(old(self).roots@), min_size, r),
    {
        if self.roots.len() == 0 {
            self.log.push("Add at least one folder to scan first.".to_owned());
            return None;
        }
        self.results.clear();
        self.selected.clear();
        self.files_scanned = 0;
        self.log.clear();
        self.running = true;
        Some((paths::clone_paths(&self.roots), BigFoldersOptions { min_size }))
    }

    /// Starts a search of all drives.
    pub fn scan_entire_disk(&mut self, drives: Vec<FilePath>, min_size: u64) -> (r: Option<
        (Vec<FilePath>, BigFoldersOptions),
    >)
        requires
            old(self).wf(),
        ensures
            final(self).wf(),
            final(self).roots@ == drives@,
            old(self).starts(*final(self), paths::views(drives@), min_size, r),
    {
        self.roots = drives;
        self.start(min_size)
    }

    /// Makes the list anew if the search text, the order or the number of
    /// results has changed since it was made.
    pub fn refresh_filtered(&mut self)
        requires
            old(self).wf(),
        ensures
            final(self).wf(),
            final(self).is_current(),
            forall|a: int|
                0 <= a < final(self).filtered_indices@.len() ==> #[trigger] final(self).filtered_indices@[a] < final(self).results@.len(),
            old(self).is_current() ==> *final(self) == *old(self),
            !old(self).is_current() ==> listing::is_listing(
                old(self).results@,
                old(self).search@,
                old(self).sort_by,
                final(self).filtered_indices@,
            ) && *final(self) == (BigFoldersTab {
                filtered_indices: final(self).filtered_indices,
                filtered_cache_key: final(self).filtered_cache_key,
                ..*old(self)
            }),
    {
        let current = match &self.filtered_cache_key {
            Some(key) => text::same_text(key.search.as_str(), self.search.as_str()) && key.sort_by
                == self.sort_by && key.count == self.results.len(),
            None => false,
        };
        if current {
            return;
        }
        self.filtered_indices = listing::listing(
            &self.results,
            self.search.as_str(),
            self.sort_by,
        );
        self.filtered_cache_key = Some(
            FilterKey {
                search: self.search.clone(),
                sort_by: self.sort_by,
                count: self.results.len(),
            },
        );
    }

    /// What to send to the trash, if something is ticked and nothing is on its
    /// way there.
    pub fn delete_selected(&mut self) -> (r: Option<Vec<FilePath>>)
        requires
            old(self).wf(),
        ensures
            final(self).wf(),
            ({
                let go = old(self).selected@.len() > 0 && old(self).deleting is None;
                &&& !go ==> r is None && *final(self) == *old(self)
                &&& go ==> {
                    &&& r is Some
                    &&& paths::views(r->0@) == old(self).selected@
                    &&& final(self).deleting is Some
                    &&& paths::views(final(self).deleting->0@) == old(self).selected@
                    &&& *final(self) == (BigFoldersTab {
                        deleting: final(self).deleting,
                        ..*old(self)
                    })
                }
            }),
    {
        if !self.can_delete() {
            return None;
        }
        self.deleting = Some(self.selected.paths());
        Some(self.selected.paths())
    }

    pub fn can_delete(&self) -> (r: bool)
        ensures
            r == (self.selected@.len() > 0 && self.deleting is None),
    {
        !self.selected.is_empty() && self.deleting.is_none()
    }

    /// Ticks the results that are shown.
    pub fn select_shown(&mut self)
        requires
            old(self).wf(),
            old(self).is_current(),
        ensures
            final(self).wf(),
            final(self).selected@ == selection::with_all(
                old(self).selected@,
                listing::paths_at(old(self).results@, old(self).filtered_indices@),
                old(self).filtered_indices@.len() as int,
            ),
            *final(self) == (BigFoldersTab { selected: final(self).selected, ..*old(self) }),
    {
        listing::select_shown(&mut self.selected, &self.results, &self.filtered_indices);
    }

    /// Ticks a result, or takes the tick away.
    pub fn tick(&mut self, i: usize, checked: bool)
        requires
            old(self).wf(),
            i < old(self).results@.len(),
        ensures
            final(self).wf(),
            final(self).selected@ == (if checked {
                selection::with(old(self).selected@, old(self).results@[i as int].path@)
            } else {
                selection::without(old(self).selected@, seq![old(self).results@[i as int].path@])
            }),
            *final(self) == (BigFoldersTab { selected: final(self).selected, ..*old(self) }),
    {
        listing::tick(&mut self.selected, &self.results[i].path, checked);
    }

    pub fn progress_label(&self, elapsed: &str) -> (r: String)
        ensures
            r@ == "Scanning… "@ + text::dec(self.files_scanned as nat) + " files checked — "@
                + elapsed@ + " elapsed"@,
    {
        let mut r = "Scanning… ".to_owned();
        r.append(text::decimal(self.files_scanned as u64).as_str());
        r.append(" files checked — ");
        r.append(elapsed);
        r.append(" elapsed");
        r
    }

    pub fn results_label(&self) -> (r: String)
        ensures
            r@ == text::dec(self.filtered_indices@.len()) + " of "@ + text::dec(
                self.results@.len(),
            ) + " folder(s)"@,
    {
        let mut r = ui::counted(self.filtered_indices.len(), " of ");
        r.append(text::decimal(self.results.len() as u64).as_str());
        r.append(" folder(s)");
        r
    }

    /// The line for a folder that could not be opened.
    pub fn reveal_failed(&mut self, message: &str)
        requires
            old(self).wf(),
        ensures
            final(self).wf(),
            ui::wrote(old(self).log, final(self).log, "Couldn't open folder: "@ + message@),
            *final(self) == (BigFoldersTab { log: final(self).log, ..*old(self) }),
    {
        let mut line = "Couldn't open folder: ".to_owned();
        line.append(message);
        self.log.push(line);
    }
}

/// How many files a folder holds.
pub fn count_label(entry: &FolderEntry) -> (r: String)
    ensures
        r@ == "("@ + text::dec(entry.file_count as nat) + " files)"@,
{
    let mut r = "(".to_owned();
    r.append(text::decimal(entry.file_count as u64).as_str());
    r.append(" files)");
    r
}

/// A search looks in the roots for folders of at least the size that was asked
/// for, and starts with nothing found and nothing ticked.
pub proof fn law_big_folders_are_sought_as_asked(
    tab: &mut BigFoldersTab,
    min_size: u64,
    r: Option<(Vec<FilePath>, BigFoldersOptions)>,
)
    requires
        tab.wf(),
        call_ensures(BigFoldersTab::start, (tab, min_size), r),
    ensures
        r is Some <==> old(tab).roots@.len() > 0,
        r matches Some((roots, options)) ==> {
            &&& paths::views(roots@) == paths::views(old(tab).roots@)
            &&& options.min_size == min_size
            &&& final(tab).results@.len() == 0
            &&& final(tab).selected@.len() == 0
            &&& final(tab).running
        },
{
    assert(paths::views(tab.roots@).len() == tab.roots@.len());
}

/// What went to the trash is forgotten, results and ticks, and nothing else is;
/// where the trash refused, all stays.
pub proof fn law_deleted_folders_are_forgotten(
    tab: &mut BigFoldersTab,
    result: Result<usize, String>,
    u: (),
    entry: FolderEntry,
)
    requires
        tab.wf(),
        tab.deleting is Some,
        call_ensures(BigFoldersTab::on_deleted, (tab, result), u),
    ensures
        final(tab).deleting is None,
        result is Ok ==> (final(tab).results@.contains(entry) <==> old(tab).results@.contains(entry)
            && !paths::views(old(tab).deleting->0@).contains(entry.path@)),
        result is Ok ==> (final(tab).selected@.contains(entry.path@) <==> old(tab).selected@.contains(entry.path@) && !paths::views(old(tab).deleting->0@).contains(
            entry.path@,
        )),
        result is Err ==> final(tab).results == old(tab).results && final(tab).selected == old(tab).selected,
{
    let gone = paths::views(tab.deleting->0@);
    listing::law_forget_spares_the_rest(tab.results@, gone, entry);
    selection::law_without(tab.selected@, gone, entry.path@);
}

/// A list that is made anew shows each folder whose path holds the search text,
/// and no other.
pub proof fn law_list_follows_the_search_text(tab: &mut BigFoldersTab, u: (), i: int)
    requires
        tab.wf(),
        tab.filtered_cache_key is None,
        0 <= i < tab.results@.len(),
        call_ensures(BigFoldersTab::refresh_filtered, (tab,), u),
    ensures
        final(tab).filtered_indices@.contains(i as usize) <==> ({
            let needle = text::lowercase(text::trimmed(old(tab).search@));
            needle.len() == 0 || text::contains(
                text::lowercase(old(tab).results@[i].path@.shown()),
                needle,
            )
        }),
        final(tab).results == old(tab).results,
        final(tab).selected == old(tab).selected,
{
    assert(tab.results.len() <= usize::MAX);
    listing::law_listing_is_complete(
        tab.results@,
        tab.search@,
        tab.sort_by,
        final(tab).filtered_indices@,
        i,
    );
}

/// What is sent to the trash is what is ticked, and nothing is sent a second
/// time while that is under way.
pub proof fn law_ticked_folders_are_sent(
    tab: &mut BigFoldersTab,
    r: Option<Vec<FilePath>>,
    p: PathView,
)
    requires
        tab.wf(),
        call_ensures(BigFoldersTab::delete_selected, (tab,), r),
    ensures
        r is Some <==> old(tab).selected@.len() > 0 && old(tab).deleting is None,
        r is Some ==> (paths::views(r->0@).contains(p) <==> old(tab).selected@.contains(p)),
        r is Some ==> (paths::views(final(tab).deleting->0@).contains(p) <==> old(tab).selected@.contains(p)),
{
}

/// A folder that is dropped is looked in from then on, beside those that were.
pub proof fn law_dropped_folders_are_roots(tab: &mut BigFoldersTab, dropped: &Vec<Dropped>, u: (), i: int, k: int)
    requires
        tab.wf(),
        0 <= i < dropped@.len(),
        dropped@[i].is_dir,
        call_ensures(BigFoldersTab::add_dropped, (tab, dropped), u),
    ensures
        paths::views(final(tab).roots@).contains(dropped@[i].path@),
        0 <= k < old(tab).roots@.len() ==> k < final(tab).roots@.len() && final(tab).roots@[k]@
            == old(tab).roots@[k]@,
        final(tab).selected == old(tab).selected,
        final(tab).running == old(tab).running,
{
    let a = paths::views(tab.roots@);
    let b = paths::views(final(tab).roots@);
    dnd::lemma_with_folders(a, dropped@, dropped@.len() as int);
    assert(a.len() == tab.roots@.len() && b.len() == final(tab).roots@.len());
    assert(dnd::folder_of(dropped@[i].path@, dropped@[i].is_dir) == Some(dropped@[i].path@));
    if 0 <= k < tab.roots@.len() {
        assert(b[k] == a[k]);
        assert(a[k] == tab.roots@[k]@);
        assert(b[k] == final(tab).roots@[k]@);
    }
}

} // verus!
