//! The tab that searches for files by name.

use vstd::prelude::*;

use crate::copy::{CopyEvent, CopyEventView};
use crate::dialog::DeferredPicker;
use crate::dnd;
use crate::dnd::Dropped;
use crate::paths;
use crate::paths::{FilePath, PathView};
use crate::search::{SearchEvent, SearchMatch, SearchOptions};
use crate::text;
use crate::ui;
use crate::ui::listing;
use crate::ui::selection;
use crate::ui::selection::Selection;
use crate::ui::Notice;
use crate::util;
use crate::util::Log;

verus! {

/// What the tab remembers.
#[derive(Debug)]
pub struct SearchTab {
    /// Where to search; everywhere if there is none.
    pub roots: Vec<FilePath>,
    pub query: String,
    pub case_sensitive: bool,
    pub include_dirs: bool,
    pub running: bool,
    pub files_scanned: usize,
    pub results: Vec<SearchMatch>,
    pub selected: Selection,
    /// What is on its way to the trash.
    pub deleting: Option<Vec<FilePath>>,
    /// What is being moved elsewhere.
    pub moving: Option<Vec<FilePath>>,
    pub picker: DeferredPicker,
    pub move_dest_picker: DeferredPicker,
    pub log: Log,
}

impl Default for SearchTab {
    fn default() -> (r: SearchTab)
        ensures
            r.wf(),
            r.roots@.len() == 0,
            r.query@ == ""@,
            !r.case_sensitive,
            !r.include_dirs,
            !r.running,
            r.files_scanned == 0,
            r.results@.len() == 0,
            r.selected@.len() == 0,
            r.deleting is None,
            r.moving is None,
            r.picker.requested is None,
            r.move_dest_picker.requested is None,
            r.log@.len() == 0,
            r.log.cap() == 200,
    {
        SearchTab {
            roots: Vec::new(),
            query: "".to_owned(),
            case_sensitive: false,
            include_dirs: false,
            running: false,
            files_scanned: 0,
            results: Vec::new(),
            selected: Selection::new(),
            deleting: None,
            moving: None,
            picker: DeferredPicker::default(),
            move_dest_picker: DeferredPicker::default(),
            log: Log::default(),
        }
    }
}

/// The paths that are no longer there, among the first `n`.
pub open spec fn missing(all: Seq<PathView>, still_there: Seq<bool>, n: int) -> Seq<PathView>
    decreases n,
{
    if n <= 0 {
        Seq::empty()
    } else if still_there[n - 1] {
        missing(all, still_there, n - 1)
    } else {
        missing(all, still_there, n - 1).push(all[n - 1])
    }
}

/// What is asked of a new search.
pub open spec fn search_line(whole_disk: bool, folders: nat) -> Seq<char> {
    if whole_disk {
        "Searching the entire disk…"@
    } else {
        "Searching "@ + text::dec(folders) + " folder(s)…"@
    }
}

impl SearchTab {
    pub open spec fn wf(self) -> bool {
        self.selected.wf() && self.log.wf()
    }

    pub fn is_running(&self) -> (r: bool)
        ensures
            r == self.running,
    {
        self.running
    }

    pub fn add_dropped(&mut self, dropped: &Vec<Dropped>)
        requires
            old(self).wf(),
        ensures
            final(self).wf(),
            *final(self) == (SearchTab { roots: final(self).roots, ..*old(self) }),
            paths::views(final(self).roots@) == dnd::with_folders(
                paths::views(old(self).roots@),
                dropped@,
                dropped@.len() as int,
            ),
    {
        dnd::add_folders(&mut self.roots, dropped);
    }

    fn say(&mut self, line: &str)
        requires
            old(self).wf(),
        ensures
            final(self).wf(),
            ui::wrote(old(self).log, final(self).log, line@),
            *final(self) == (SearchTab { log: final(self).log, ..*old(self) }),
    {
        self.log.push(line.to_owned());
    }

    /// Forgets what is no longer there.
    fn forget(&mut self, gone: &Vec<FilePath>)
        requires
            old(self).wf(),
        ensures
            final(self).wf(),
            final(self).results@ == listing::still_listed(old(self).results@, paths::views(gone@)),
            final(self).selected@ == selection::without(old(self).selected@, paths::views(gone@)),
            *final(self) == (SearchTab {
                results: final(self).results,
                selected: final(self).selected,
                ..*old(self)
            }),
    {
        let mut results: Vec<SearchMatch> = Vec::new();
        std::mem::swap(&mut results, &mut self.results);
        self.results = listing::forget(results, gone);
        self.selected.remove_all(gone);
    }

    /// The trash has answered.
    pub fn on_deleted(&mut self, result: Result<usize, String>)
        requires
            old(self).wf(),
        ensures
            final(self).wf(),
            old(self).deleting is None ==> *final(self) == *old(self),
            old(self).deleting matches Some(asked) ==> {
                &&& *final(self) == (SearchTab {
                    results: final(self).results,
                    selected: final(self).selected,
                    deleting: None,
                    log: final(self).log,
                    ..*old(self)
                })
                &&& match result {
                    Ok(count) => {
                        &&& ui::wrote(
                            old(self).log,
                            final(self).log,
                            "Moved "@ + text::dec(count as nat) + " item(s) to trash."@,
                        )
                        &&& final(self).results@ == listing::still_listed(
                            old(self).results@,
                            paths::views(asked@),
                        )
                        &&& final(self).selected@ == selection::without(
                            old(self).selected@,
                            paths::views(asked@),
                        )
                    },
                    Err(e) => {
                        &&& ui::wrote(
                            old(self).log,
                            final(self).log,
                            "Delete failed: "@ + e@,
                        )
                        &&& final(self).results == old(self).results
                        &&& final(self).selected == old(self).selected
                    },
                }
            },
    {
        let asked = match self.deleting.take() {
            Some(asked) => asked,
            None => return,
        };
        match result {
            Ok(count) => {
                let mut line = "Moved ".to_owned();
                line.append(text::decimal(count as u64).as_str());
                line.append(" item(s) to trash.");
                self.log.push(line);
                self.forget(&asked);
            },
            Err(e) => {
                let mut line = "Delete failed: ".to_owned();
                line.append(e.as_str());
                self.log.push(line);
            },
        }
    }

    /// The move tells about its progress: whether it is over.
    pub fn on_move_event(&mut self, event: &CopyEvent) -> (over: bool)
        requires
            old(self).wf(),
        ensures
            final(self).wf(),
            *final(self) == (SearchTab { log: final(self).log, ..*old(self) }),
            over == (event is Finished || event is Cancelled),
            match event@ {
                CopyEventView::Finished(summary) => ui::wrote(
                    old(self).log,
                    final(self).log,
                    "Moved "@ + text::dec(summary.files_copied as nat) + " file(s), "@ + text::dec(
                        summary.files_failed as nat,
                    ) + " failed."@,
                ),
                CopyEventView::Cancelled => ui::wrote(
                    old(self).log,
                    final(self).log,
                    "Move cancelled."@,
                ),
                CopyEventView::FileError { path, message } => ui::wrote(
                    old(self).log,
                    final(self).log,
                    ui::error_line(path.shown(), message),
                ),
                _ => final(self).log == old(self).log,
            },
    {
        match event {
            CopyEvent::Finished(summary) => {
                let mut line = "Moved ".to_owned();
                line.append(text::decimal(summary.files_copied as u64).as_str());
                line.append(" file(s), ");
                line.append(text::decimal(summary.files_failed as u64).as_str());
                line.append(" failed.");
                self.log.push(line);
                true
            },
            CopyEvent::Cancelled => {
                self.say("Move cancelled.");
                true
            },
            CopyEvent::FileError { path, message } => {
                let line = ui::write_error(path.display().as_str(), message.as_str());
                self.log.push(line);
                false
            },
            _ => false,
        }
    }

    /// The move is over: what is no longer at its old place was moved.
    pub fn on_moved(&mut self, still_there: &Vec<bool>)
        requires
            old(self).wf(),
            old(self).moving matches Some(asked) ==> asked@.len() == still_there@.len(),
        ensures
            final(self).wf(),
            old(self).moving is None ==> *final(self) == *old(self),
            old(self).moving matches Some(asked) ==> {
                let gone = missing(paths::views(asked@), still_there@, asked@.len() as int);
                &&& final(self).results@ == listing::still_listed(old(self).results@, gone)
                &&& final(self).selected@ == selection::without(old(self).selected@, gone)
                &&& *final(self) == (SearchTab {
                    results: final(self).results,
                    selected: final(self).selected,
                    moving: None,
                    ..*old(self)
                })
            },
    {
        let asked = match self.moving.take() {
            Some(asked) => asked,
            None => return,
        };
        let ghost all = paths::views(asked@);
        let mut gone: Vec<FilePath> = Vec::new();
        let mut i: usize = 0;
        while i < asked.len()
            invariant
                i <= asked@.len(),
                asked@.len() == still_there@.len(),
                all == paths::views(asked@),
                paths::views(gone@) == missing(all, still_there@, i as int),
            decreases asked@.len() - i,
        {
            if !still_there[i] {
                let p = asked[i].clone();
                proof {
                    paths::paths_push(gone@, p);
                    assert(all[i as int] == p@);
                }
                gone.push(p);
            }
            i = i + 1;
        }
        self.forget(&gone);
    }

    /// The search tells about its progress. `elapsed` is how long it has taken.
    pub fn on_event(&mut self, event: SearchEvent, elapsed: &str) -> (notice: Option<Notice>)
        requires
            old(self).wf(),
        ensures
            final(self).wf(),
            match event {
                SearchEvent::Scanning { files_scanned } => {
                    &&& *final(self) == (SearchTab { files_scanned, ..*old(self) })
                    &&& notice is None
                },
                SearchEvent::Found(m) => {
                    &&& final(self).results@ == old(self).results@.push(m)
                    &&& *final(self) == (SearchTab { results: final(self).results, ..*old(self) })
                    &&& notice is None
                },
                SearchEvent::Finished { count } => {
                    &&& ui::wrote(
                        old(self).log,
                        final(self).log,
                        "Found "@ + text::dec(count as nat) + " match(es) in "@ + elapsed@ + "."@,
                    )
                    &&& *final(self) == (SearchTab {
                        running: false,
                        log: final(self).log,
                        ..*old(self)
                    })
                    &&& notice is Some
                    &&& notice->0.says(
                        "Search finished"@,
                        text::dec(count as nat) + " match(es) for \""@ + old(self).query@ + "\""@,
                    )
                },
                SearchEvent::Cancelled => {
                    &&& ui::wrote(old(self).log, final(self).log, "Cancelled."@)
                    &&& *final(self) == (SearchTab {
                        running: false,
                        log: final(self).log,
                        ..*old(self)
                    })
                    &&& notice is None
                },
            },
    {
        match event {
            SearchEvent::Scanning { files_scanned } => {
                self.files_scanned = files_scanned;
                None
            },
            SearchEvent::Found(m) => {
                self.results.push(m);
                None
            },
            SearchEvent::Finished { count } => {
                let mut line = "Found ".to_owned();
                line.append(text::decimal(count as u64).as_str());
                line.append(" match(es) in ");
                line.append(elapsed);
                line.append(".");
                self.log.push(line);
                self.running = false;
                let mut body = ui::counted(count, " match(es) for \"");
                body.append(self.query.as_str());
                body.append("\"");
                Some(Notice { summary: "Search finished".to_owned(), body })
            },
            SearchEvent::Cancelled => {
                self.say("Cancelled.");
                self.running = false;
                None
            },
        }
    }

    /// Whether a search with these roots was started, or refused for want of
    /// something to look for.
    pub open spec fn starts(
        self,
        after: SearchTab,
        roots: Seq<PathView>,
        drives: Seq<PathView>,
        r: Option<(Vec<FilePath>, SearchOptions)>,
    ) -> bool {
        if text::trimmed(self.query@).len() == 0 {
            &&& r is None
            &&& ui::wrote(self.log, after.log, "Type something to search for first."@)
            &&& after == (SearchTab { roots: after.roots, log: after.log, ..self })
        } else {
            &&& r matches Some((where_to, options))
            &&& paths::views(where_to@) == (if roots.len() == 0 {
                drives
            } else {
                roots
            })
            &&& options.query@ == self.query@
            &&& options.case_sensitive == self.case_sensitive
            &&& options.include_dirs == self.include_dirs
            &&& after.results@.len() == 0
            &&& after.selected@.len() == 0
            &&& ui::began(self.log, after.log, search_line(roots.len() == 0, roots.len()))
            &&& after == (SearchTab {
                roots: after.roots,
                results: after.results,
                selected: after.selected,
                files_scanned: 0,
                running: true,
                log: after.log,
                ..self
            })
        }
    }

    /// Starts a search: where, and for what. Without roots, everywhere.
    pub fn start(&mut self, drives: &Vec<FilePath>) -> (r: Option<(Vec<FilePath>, SearchOptions)>)
        requires
            old(self).wf(),
        ensures
            final(self).wf(),
            final(self).roots == old(self).roots,
            old(self).starts(
                *final(self),
                paths::views(old(self).roots@),
                paths::views(drives@),
                r,
            ),
    {
        if text::trim(self.query.as_str()).as_str().is_empty() {
            self.say("Type something to search for first.");
            return None;
        }
        let whole_disk = self.roots.len() == 0;
        let roots = if whole_disk {
            paths::clone_paths(drives)
        } else {
            paths::clone_paths(&self.roots)
        };
        let options = SearchOptions {
            query: self.query.clone(),
            case_sensitive: self.case_sensitive,
            include_dirs: self.include_dirs,
        };
        self.results.clear();
        self.selected.clear();
        self.files_scanned = 0;
        self.log.clear();
        if whole_disk {
            self.say("Searching the entire disk…");
        } else {
            let mut line = "Searching ".to_owned();
            line.append(text::decimal(self.roots.len() as u64).as_str());
            line.append(" folder(s)…");
            self.log.push(line);
        }
        self.running = true;
        Some((roots, options))
    }

    /// Starts a search everywhere, whatever the roots are.
    pub fn scan_entire_disk(&mut self, drives: &Vec<FilePath>) -> (r: Option<
        (Vec<FilePath>, SearchOptions),
    >)
        requires
            old(self).wf(),
        ensures
            final(self).wf(),
            final(self).roots@.len() == 0,
            old(self).starts(*final(self), Seq::empty(), paths::views(drives@), r),
    {
        self.roots.clear();
        proof {
            assert(paths::views(self.roots@) =~= Seq::<PathView>::empty());
        }
        self.start(drives)
    }

    /// What to send to the trash, if something is ticked and nothing is on its
    /// way there.
    pub fn delete_selected(&mut self) -> (r: Option<Vec<FilePath>>)
        requires
            old(self).wf(),
        ensures
            final(self).wf(),
            ({
                let go = old(self).selected@.len() > 0 && old(self).deleting is None;
                &&& !go ==> r is None && *final(self) == *old(self)
                &&& go ==> {
                    &&& r is Some
                    &&& paths::views(r->0@) == old(self).selected@
                    &&& final(self).deleting is Some
                    &&& paths::views(final(self).deleting->0@) == old(self).selected@
                    &&& *final(self) == (SearchTab {
                        deleting: final(self).deleting,
                        ..*old(self)
                    })
                }
            }),
    {
        if !self.can_delete() {
            return None;
        }
        self.deleting = Some(self.selected.paths());
        Some(self.selected.paths())
    }

    /// What to move to a folder, if something is ticked and nothing is being
    /// moved.
    pub fn move_selected(&mut self, dest: &FilePath) -> (r: Option<Vec<FilePath>>)
        requires
            old(self).wf(),
        ensures
            final(self).wf(),
            ({
                let go = old(self).selected@.len() > 0 && old(self).moving is None;
                &&& !go ==> r is None && *final(self) == *old(self)
                &&& go ==> {
                    &&& r is Some
                    &&& paths::views(r->0@) == old(self).selected@
                    &&& final(self).moving is Some
                    &&& paths::views(final(self).moving->0@) == old(self).selected@
                    &&& ui::wrote(
                        old(self).log,
                        final(self).log,
                        "Moving "@ + text::dec(old(self).selected@.len()) + " item(s) to "@
                            + dest@.shown() + "…"@,
                    )
                    &&& *final(self) == (SearchTab {
                        moving: final(self).moving,
                        log: final(self).log,
                        ..*old(self)
                    })
                }
            }),
    {
        if !self.can_move() {
            return None;
        }
        let mut line = "Moving ".to_owned();
        line.append(text::decimal(self.selected.len() as u64).as_str());
        line.append(" item(s) to ");
        line.append(dest.display().as_str());
        line.append("…");
        self.log.push(line);
        self.moving = Some(self.selected.paths());
        Some(self.selected.paths())
    }

    pub fn can_delete(&self) -> (r: bool)
        ensures
            r == (self.selected@.len() > 0 && self.deleting is None),
    {
        !self.selected.is_empty() && self.deleting.is_none()
    }

    pub fn can_move(&self) -> (r: bool)
        ensures
            r == (self.selected@.len() > 0 && self.moving is None),
    {
        !self.selected.is_empty() && self.moving.is_none()
    }

    /// Whether answers of the trash or of a move are awaited.
    pub fn is_waiting(&self) -> (r: bool)
        ensures
            r == (self.deleting is Some || self.moving is Some),
    {
        self.deleting.is_some() || self.moving.is_some()
    }

    /// Ticks all results.
    pub fn select_all(&mut self)
        requires
            old(self).wf(),
        ensures
            final(self).wf(),
            final(self).selected@ == selection::with_all(
                old(self).selected@,
                listing::all_paths(old(self).results@),
                old(self).results@.len() as int,
            ),
            *final(self) == (SearchTab { selected: final(self).selected, ..*old(self) }),
    {
        listing::select_all(&mut self.selected, &self.results);
    }

    /// Ticks a result, or takes the tick away.
    pub fn tick(&mut self, i: usize, checked: bool)
        requires
            old(self).wf(),
            i < old(self).results@.len(),
        ensures
            final(self).wf(),
            final(self).selected@ == (if checked {
                selection::with(old(self).selected@, old(self).results@[i as int].path@)
            } else {
                selection::without(old(self).selected@, seq![old(self).results@[i as int].path@])
            }),
            *final(self) == (SearchTab { selected: final(self).selected, ..*old(self) }),
    {
        listing::tick(&mut self.selected, &self.results[i].path, checked);
    }

    /// Where the next search looks.
    pub fn scope_label(&self) -> (r: String)
        ensures
            r@ == (if self.roots@.len() == 0 {
                "Scope: entire disk"@
            } else {
                "Scope: "@ + text::dec(self.roots@.len()) + " folder(s)"@
            }),
    {
        if self.roots.len() == 0 {
            return "Scope: entire disk".to_owned();
        }
        let mut r = "Scope: ".to_owned();
        r.append(text::decimal(self.roots.len() as u64).as_str());
        r.append(" folder(s)");
        r
    }

    /// How far the search is.
    pub fn progress_label(&self, elapsed: &str) -> (r: String)
        ensures
            r@ == "Scanning… "@ + text::dec(self.files_scanned as nat) + " checked, "@ + text::dec(
                self.results@.len(),
            ) + " match so far — "@ + elapsed@ + " elapsed"@,
    {
        let mut r = "Scanning… ".to_owned();
        r.append(text::decimal(self.files_scanned as u64).as_str());
        r.append(" checked, ");
        r.append(text::decimal(self.results.len() as u64).as_str());
        r.append(" match so far — ");
        r.append(elapsed);
        r.append(" elapsed");
        r
    }

    pub fn results_label(&self) -> (r: String)
        ensures
            r@ == text::dec(self.results@.len()) + " result(s)"@,
    {
        ui::counted(self.results.len(), " result(s)")
    }

    /// The line for a folder that could not be opened.
    pub fn reveal_failed(&mut self, message: &str)
        requires
            old(self).wf(),
        ensures
            final(self).wf(),
            ui::wrote(old(self).log, final(self).log, "Couldn't open folder: "@ + message@),
            *final(self) == (SearchTab { log: final(self).log, ..*old(self) }),
    {
        let mut line = "Couldn't open folder: ".to_owned();
        line.append(message);
        self.log.push(line);
    }
}

/// How large a result is, as people read it; folders have no size.
pub fn size_label(m: &SearchMatch) -> (r: String)
    ensures
        r@ == (if m.is_dir {
            "—"@
        } else {
            util::readable(m.size)
        }),
{
    if m.is_dir {
        "—".to_owned()
    } else {
        util::human_bytes(m.size)
    }
}

/// A search looks in the roots, or on all drives where there are none, for what
/// was typed, and starts with nothing found and nothing ticked.
pub proof fn law_search_looks_where_asked(
    tab: &mut SearchTab,
    drives: &Vec<FilePath>,
    r: Option<(Vec<FilePath>, SearchOptions)>,
)
    requires
        tab.wf(),
        call_ensures(SearchTab::start, (tab, drives), r),
    ensures
        r is None <==> text::trimmed(old(tab).query@).len() == 0,
        r matches Some((places, options)) ==> {
            &&& old(tab).roots@.len() > 0 ==> paths::views(places@) == paths::views(old(tab).roots@)
            &&& old(tab).roots@.len() == 0 ==> paths::views(places@) == paths::views(drives@)
            &&& options.query@ == old(tab).query@
            &&& options.case_sensitive == old(tab).case_sensitive
            &&& options.include_dirs == old(tab).include_dirs
            &&& final(tab).results@.len() == 0
            &&& final(tab).selected@.len() == 0
            &&& final(tab).files_scanned == 0
            &&& final(tab).running
        },
{
    assert(paths::views(tab.roots@).len() == tab.roots@.len());
}

/// A search of the entire disk looks on all drives, whatever the roots were.
pub proof fn law_entire_disk_is_all_drives(
    tab: &mut SearchTab,
    drives: &Vec<FilePath>,
    r: Option<(Vec<FilePath>, SearchOptions)>,
)
    requires
        tab.wf(),
        call_ensures(SearchTab::scan_entire_disk, (tab, drives), r),
    ensures
        r matches Some((places, _)) ==> paths::views(places@) == paths::views(drives@),
        r is None <==> text::trimmed(old(tab).query@).len() == 0,
{
}

/// What is found is added behind what was found before.
pub proof fn law_found_matches_are_shown(
    tab: &mut SearchTab,
    m: SearchMatch,
    elapsed: &str,
    notice: Option<Notice>,
)
    requires
        tab.wf(),
        call_ensures(SearchTab::on_event, (tab, SearchEvent::Found(m), elapsed), notice),
    ensures
        final(tab).results@.len() == old(tab).results@.len() + 1,
        final(tab).results@.last() == m,
        forall|i: int|
            0 <= i < old(tab).results@.len() ==> #[trigger] final(tab).results@[i] == old(tab).results@[i],
        final(tab).selected == old(tab).selected,
        final(tab).running == old(tab).running,
{
}

/// What went to the trash is forgotten, results and ticks, and nothing else is;
/// where the trash refused, all stays.
pub proof fn law_deleted_results_are_forgotten(
    tab: &mut SearchTab,
    result: Result<usize, String>,
    u: (),
    m: SearchMatch,
)
    requires
        tab.wf(),
        tab.deleting is Some,
        call_ensures(SearchTab::on_deleted, (tab, result), u),
    ensures
        final(tab).deleting is None,
        result is Ok ==> (final(tab).results@.contains(m) <==> old(tab).results@.contains(m)
            && !paths::views(old(tab).deleting->0@).contains(m.path@)),
        result is Ok ==> (final(tab).selected@.contains(m.path@) <==> old(tab).selected@.contains(
            m.path@,
        ) && !paths::views(old(tab).deleting->0@).contains(m.path@)),
        result is Err ==> final(tab).results == old(tab).results && final(tab).selected == old(tab).selected,
{
    let gone = paths::views(tab.deleting->0@);
    listing::law_forget_spares_the_rest(tab.results@, gone, m);
    selection::law_without(tab.selected@, gone, m.path@);
}

proof fn lemma_missing(all: Seq<PathView>, still_there: Seq<bool>, n: int, i: int)
    requires
        0 <= i < n <= all.len(),
        !still_there[i],
    ensures
        missing(all, still_there, n).contains(all[i]),
    decreases n,
{
    let before = missing(all, still_there, n - 1);
    let now = missing(all, still_there, n);
    if i < n - 1 {
        lemma_missing(all, still_there, n - 1, i);
        let k = choose|k: int| 0 <= k < before.len() && before[k] == all[i];
        assert(now[k] == all[i]);
    } else {
        assert(now.last() == all[i]);
    }
}

proof fn lemma_not_missing(all: Seq<PathView>, still_there: Seq<bool>, n: int, p: PathView)
    requires
        0 <= n <= all.len(),
        forall|i: int| 0 <= i < n && all[i] == p ==> #[trigger] still_there[i],
    ensures
        !missing(all, still_there, n).contains(p),
    decreases n,
{
    if n > 0 {
        lemma_not_missing(all, still_there, n - 1, p);
        let before = missing(all, still_there, n - 1);
        let now = missing(all, still_there, n);
        assert(still_there[n - 1] || all[n - 1] != p);
        if now.contains(p) {
            let k = choose|k: int| 0 <= k < now.len() && now[k] == p;
            if k < before.len() {
                assert(before[k] == p);
            }
        }
    }
}

/// What was moved away is forgotten, and what is still at its place is not.
pub proof fn law_moved_results_are_forgotten(
    tab: &mut SearchTab,
    still_there: &Vec<bool>,
    u: (),
    m: SearchMatch,
    i: int,
)
    requires
        tab.wf(),
        tab.moving is Some,
        tab.moving->0@.len() == still_there@.len(),
        tab.results@.contains(m),
        call_ensures(SearchTab::on_moved, (tab, still_there), u),
    ensures
        final(tab).moving is None,
        (0 <= i < still_there@.len() && !still_there@[i] && old(tab).moving->0@[i]@ == m.path@)
            ==> !final(tab).results@.contains(m),
        (forall|k: int|
            0 <= k < still_there@.len() && (#[trigger] old(tab).moving->0@[k])@ == m.path@
                ==> still_there@[k]) ==> final(tab).results@.contains(m),
{
    let all = paths::views(tab.moving->0@);
    let n = all.len() as int;
    assert(n == tab.moving->0@.len());
    let gone = missing(all, still_there@, n);
    listing::law_forget_spares_the_rest(tab.results@, gone, m);
    if 0 <= i < still_there@.len() && !still_there@[i] && tab.moving->0@[i]@ == m.path@ {
        assert(all[i] == m.path@);
        lemma_missing(all, still_there@, n, i);
    }
    if forall|k: int|
        0 <= k < still_there@.len() && (#[trigger] old(tab).moving->0@[k])@ == m.path@
            ==> still_there@[k] {
        assert forall|k: int| 0 <= k < n && all[k] == m.path@ implies #[trigger] still_there@[k] by {
            assert(old(tab).moving->0@[k]@ == m.path@);
        }
        lemma_not_missing(all, still_there@, n, m.path@);
    }
}

/// What is sent to the trash or moved is what is ticked, and nothing is sent a
/// second time while that is under way.
pub proof fn law_ticked_results_are_sent(
    tab: &mut SearchTab,
    r: Option<Vec<FilePath>>,
    p: PathView,
)
    requires
        tab.wf(),
        call_ensures(SearchTab::delete_selected, (tab,), r),
    ensures
        r is Some <==> old(tab).selected@.len() > 0 && old(tab).deleting is None,
        r is Some ==> (paths::views(r->0@).contains(p) <==> old(tab).selected@.contains(p)),
        r is Some ==> (paths::views(final(tab).deleting->0@).contains(p) <==> old(tab).selected@.contains(p)),
        final(tab).moving == old(tab).moving,
{
}

/// A folder that is dropped is looked in from then on, beside those that were.
pub proof fn law_dropped_folders_are_roots(tab: &mut SearchTab, dropped: &Vec<Dropped>, u: (), i: int, k: int)
    requires
        tab.wf(),
        0 <= i < dropped@.len(),
        dropped@[i].is_dir,
        call_ensures(SearchTab::add_dropped, (tab, dropped), u),
    ensures
        paths::views(final(tab).roots@).contains(dropped@[i].path@),
        0 <= k < old(tab).roots@.len() ==> k < final(tab).roots@.len() && final(tab).roots@[k]@
            == old(tab).roots@[k]@,
        final(tab).selected == old(tab).selected,
        final(tab).running == old(tab).running,
{
    let a = paths::views(tab.roots@);
    let b = paths::views(final(tab).roots@);
    dnd::lemma_with_folders(a, dropped@, dropped@.len() as int);
    assert(a.len() == tab.roots@.len() && b.len() == final(tab).roots@.len());
    assert(dnd::folder_of(dropped@[i].path@, dropped@[i].is_dir) == Some(dropped@[i].path@));
    if 0 <= k < tab.roots@.len() {
        assert(b[k] == a[k]);
        assert(a[k] == tab.roots@[k]@);
        assert(b[k] == final(tab).roots@[k]@);
    }
}

/// What is moved is what is ticked, and nothing is moved a second time while
/// that is under way.
pub proof fn law_ticked_results_are_moved(
    tab: &mut SearchTab,
    dest: &FilePath,
    r: Option<Vec<FilePath>>,
    p: PathView,
)
    requires
        tab.wf(),
        call_ensures(SearchTab::move_selected, (tab, dest), r),
    ensures
        r is Some <==> old(tab).selected@.len() > 0 && old(tab).moving is None,
        r is Some ==> (paths::views(r->0@).contains(p) <==> old(tab).selected@.contains(p)),
        r is Some ==> (paths::views(final(tab).moving->0@).contains(p) <==> old(tab).selected@.contains(p)),
        final(tab).deleting == old(tab).deleting,
        final(tab).results == old(tab).results,
{
}

/// A move is over when it says so.
pub proof fn law_move_is_over_when_it_says_so(tab: &mut SearchTab, event: &CopyEvent, over: bool)
    requires
        tab.wf(),
        call_ensures(SearchTab::on_move_event, (tab, event), over),
    ensures
        over <==> *event is Finished || *event is Cancelled,
        final(tab).results == old(tab).results,
        final(tab).selected == old(tab).selected,
{
}

} // verus!
