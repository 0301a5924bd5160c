//! The tab that copies, moves and renames.

use vstd::prelude::*;

use crate::copy::{CopyEvent, CopyEventView, CopyOptions, CopySummary, OverwritePolicy};
use crate::fsops;
use crate::order;
use crate::paths;
use crate::paths::{FilePath, PathView};
use crate::text;
use crate::ui;
use crate::util;
use crate::util::Log;

verus! {

#[derive(Debug, Clone, Copy, PartialEq, Eq, Structural)]
pub enum TransferMode {
    Copy,
    Move,
    Rename,
}

/// A file on its way.
#[derive(Debug, PartialEq, Eq)]
pub struct ActiveFile {
    pub path: FilePath,
    pub bytes_done: u64,
    pub size: u64,
}

#[verifier::ext_equal]
pub ghost struct ActiveView {
    pub path: PathView,
    pub bytes_done: u64,
    pub size: u64,
}

impl View for ActiveFile {
    type V = ActiveView;

    open spec fn view(&self) -> ActiveView {
        ActiveView { path: self.path@, bytes_done: self.bytes_done, size: self.size }
    }
}

pub open spec fn active_views(v: Seq<ActiveFile>) -> Seq<ActiveView> {
    v.map_values(|f: ActiveFile| f@)
}

/// Whether no file is on its way twice.
pub open spec fn all_different(active: Seq<ActiveView>) -> bool {
    forall|i: int, j: int|
        0 <= i < j < active.len() ==> (#[trigger] active[i]).path != (#[trigger] active[j]).path
}

/// Where a file is among those on their way, from `i` on; behind them if it is
/// not there.
pub open spec fn place_of(active: Seq<ActiveView>, path: PathView, i: int) -> int
    decreases active.len() - i,
{
    if i < 0 || i >= active.len() {
        active.len() as int
    } else if active[i].path == path {
        i
    } else {
        place_of(active, path, i + 1)
    }
}

/// The files on their way after word of one of them.
pub open spec fn with_file(active: Seq<ActiveView>, file: ActiveView) -> Seq<ActiveView> {
    let i = place_of(active, file.path, 0);
    if 0 <= i < active.len() {
        active.update(i, file)
    } else {
        active.push(file)
    }
}

/// The files on their way when one no longer is.
pub open spec fn without_file(active: Seq<ActiveView>, path: PathView) -> Seq<ActiveView> {
    let i = place_of(active, path, 0);
    if 0 <= i < active.len() {
        active.remove(i)
    } else {
        active
    }
}

/// The size of a file on its way; 0 if it is not.
pub open spec fn size_on_the_way(active: Seq<ActiveView>, path: PathView) -> u64 {
    let i = place_of(active, path, 0);
    if 0 <= i < active.len() {
        active[i].size
    } else {
        0
    }
}

/// Bytes of the first `n` files that have arrived, modulo 2^64.
pub open spec fn bytes_on_the_way(active: Seq<ActiveView>, n: int) -> u64
    decreases n,
{
    if n <= 0 {
        0
    } else {
        bytes_on_the_way(active, n - 1).wrapping_add(active[n - 1].bytes_done)
    }
}

proof fn lemma_place(active: Seq<ActiveView>, path: PathView, i: int)
    requires
        0 <= i <= active.len(),
    ensures
        i <= place_of(active, path, i) <= active.len(),
        place_of(active, path, i) < active.len() ==> active[place_of(active, path, i)].path == path,
        forall|j: int|
            i <= j < place_of(active, path, i) ==> (#[trigger] active[j]).path != path,
    decreases active.len() - i,
{
    if i < active.len() && active[i].path != path {
        lemma_place(active, path, i + 1);
    }
}

proof fn lemma_still_different(active: Seq<ActiveView>, file: ActiveView)
    requires
        all_different(active),
    ensures
        all_different(with_file(active, file)),
        all_different(without_file(active, file.path)),
{
    lemma_place(active, file.path, 0);
    let i = place_of(active, file.path, 0);
    if i < active.len() {
        let less = active.remove(i);
        assert forall|a: int, b: int| 0 <= a < b < less.len() implies (#[trigger] less[a]).path != (
        #[trigger] less[b]).path by {
            let x = if a < i {
                a
            } else {
                a + 1
            };
            let y = if b < i {
                b
            } else {
                b + 1
            };
            assert(active[x].path != active[y].path);
        }
    }
}

/// What a transfer is to do.
#[derive(Debug, PartialEq, Eq)]
pub struct TransferJob {
    pub sources: Vec<FilePath>,
    pub dest: FilePath,
    pub options: CopyOptions,
    /// Whether the originals go.
    pub is_move: bool,
}

/// What the tab remembers.
#[derive(Debug)]
pub struct CopyTab {
    pub mode: TransferMode,
    pub sources: Vec<FilePath>,
    pub dest: Option<FilePath>,
    pub overwrite: OverwritePolicy,
    pub verify: bool,
    pub preserve_times: bool,
    pub use_fast_path: bool,
    pub rename_pattern: String,
    pub running: bool,
    pub total_files: usize,
    pub total_bytes: u64,
    pub files_done: usize,
    /// Bytes of the files that have fully arrived.
    pub bytes_done_complete: u64,
    /// The files on their way; there can be several at once.
    pub active: Vec<ActiveFile>,
    pub summary: Option<CopySummary>,
    /// How long the last transfer took, as it is shown.
    pub summary_elapsed: String,
    pub log: Log,
}

impl Default for CopyTab {
    fn default() -> (r: CopyTab)
        ensures
            r.wf(),
            r.mode is Copy,
            r.sources@.len() == 0,
            r.dest is None,
            r.overwrite is SkipIfSameSize,
            !r.verify,
            r.preserve_times,
            r.use_fast_path,
            r.rename_pattern@ == "{name}.{ext}"@,
            !r.running,
            r.total_files == 0,
            r.total_bytes == 0,
            r.files_done == 0,
            r.bytes_done_complete == 0,
            r.active@.len() == 0,
            r.summary is None,
            r.summary_elapsed@ == ""@,
            r.log@.len() == 0,
            r.log.cap() == 200,
    {
        CopyTab {
            mode: TransferMode::Copy,
            sources: Vec::new(),
            dest: None,
            overwrite: OverwritePolicy::SkipIfSameSize,
            verify: false,
            preserve_times: true,
            use_fast_path: true,
            rename_pattern: "{name}.{ext}".to_owned(),
            running: false,
            total_files: 0,
            total_bytes: 0,
            files_done: 0,
            bytes_done_complete: 0,
            active: Vec::new(),
            summary: None,
            summary_elapsed: "".to_owned(),
            log: Log::default(),
        }
    }
}

/// What a transfer did, in words.
pub open spec fn counts_line(s: CopySummary) -> Seq<char> {
    text::dec(s.files_copied as nat) + " transferred, "@ + text::dec(s.files_skipped as nat)
        + " skipped, "@ + text::dec(s.files_failed as nat) + " failed"@
}

fn write_counts(s: &CopySummary) -> (r: String)
    ensures
        r@ == counts_line(*s),
{
    let mut r = ui::counted(s.files_copied, " transferred, ");
    r.append(text::decimal(s.files_skipped as u64).as_str());
    r.append(" skipped, ");
    r.append(text::decimal(s.files_failed as u64).as_str());
    r.append(" failed");
    r
}

/// The line for an event, if it has one. `elapsed` is how long the transfer
/// has taken, in seconds.
pub open spec fn event_line(event: CopyEventView, elapsed: Seq<char>) -> Option<Seq<char>> {
    match event {
        CopyEventView::Started { total_files, total_bytes } => Some(
            "Starting: "@ + text::dec(total_files as nat) + " files, "@ + util::readable(
                total_bytes,
            ),
        ),
        CopyEventView::FileDone { path } => Some("✓ "@ + path.shown()),
        CopyEventView::FileSkipped { path, reason } => Some(
            "↷ skipped "@ + path.shown() + " ("@ + reason + ")"@,
        ),
        CopyEventView::FileError { path, message } => Some(
            ui::error_line(path.shown(), message),
        ),
        CopyEventView::Finished(s) => Some(
            "Done: "@ + counts_line(s) + " in "@ + elapsed + "s"@,
        ),
        CopyEventView::Cancelled => Some("Cancelled."@),
        _ => None,
    }
}

fn write_event(event: &CopyEvent, elapsed: &str) -> (r: Option<String>)
    ensures
        match event_line(event@, elapsed@) {
            Some(line) => r is Some && r->0@ == line,
            None => r is None,
        },
{
    match event {
        CopyEvent::Started { total_files, total_bytes } => {
            let mut line = "Starting: ".to_owned();
            line.append(text::decimal(*total_files as u64).as_str());
            line.append(" files, ");
            line.append(util::human_bytes(*total_bytes).as_str());
            Some(line)
        },
        CopyEvent::FileDone { path } => {
            let mut line = "✓ ".to_owned();
            line.append(path.display().as_str());
            Some(line)
        },
        CopyEvent::FileSkipped { path, reason } => {
            let mut line = "↷ skipped ".to_owned();
            line.append(path.display().as_str());
            line.append(" (");
            line.append(reason.as_str());
            line.append(")");
            Some(line)
        },
        CopyEvent::FileError { path, message } => Some(
            ui::write_error(path.display().as_str(), message.as_str()),
        ),
        CopyEvent::Finished(s) => {
            let mut line = "Done: ".to_owned();
            line.append(write_counts(s).as_str());
            line.append(" in ");
            line.append(elapsed);
            line.append("s");
            Some(line)
        },
        CopyEvent::Cancelled => Some("Cancelled.".to_owned()),
        _ => None,
    }
}

/// The files on their way after an event.
pub open spec fn active_after(active: Seq<ActiveView>, event: CopyEventView) -> Seq<ActiveView> {
    match event {
        CopyEventView::FileStarted { path, size } => with_file(
            active,
            ActiveView { path, bytes_done: 0, size },
        ),
        CopyEventView::FileProgress { path, bytes_done, size } => with_file(
            active,
            ActiveView { path, bytes_done, size },
        ),
        CopyEventView::FileDone { path } => without_file(active, path),
        CopyEventView::FileSkipped { path, reason } => without_file(active, path),
        CopyEventView::FileError { path, message } => without_file(active, path),
        CopyEventView::Finished(s) => Seq::empty(),
        CopyEventView::Cancelled => Seq::empty(),
        _ => active,
    }
}

/// The lines of the first `n` files that got a new name, newest first, in front
/// of others.
pub open spec fn renamed_lines(
    before: Seq<PathView>,
    after: Seq<PathView>,
    n: int,
    cap: nat,
) -> Seq<Seq<char>>
    decreases n,
{
    if n <= 0 {
        Seq::empty()
    } else {
        util::logged(
            renamed_lines(before, after, n - 1, cap),
            "✓ "@ + before[n - 1].shown() + " → "@ + after[n - 1].shown(),
            cap,
        )
    }
}

impl CopyTab {
    /// No file is on its way twice.
    pub open spec fn wf(self) -> bool {
        self.log.wf() && all_different(active_views(self.active@))
    }

    pub fn is_running(&self) -> (r: bool)
        ensures
            r == self.running,
    {
        self.running
    }

    pub fn set_move_mode(&mut self)
        requires
            old(self).wf(),
        ensures
            final(self).wf(),
            *final(self) == (CopyTab { mode: TransferMode::Move, ..*old(self) }),
    {
        self.mode = TransferMode::Move;
    }

    pub fn add_dropped(&mut self, dropped: Vec<FilePath>)
        requires
            old(self).wf(),
        ensures
            final(self).wf(),
            final(self).sources@ == old(self).sources@ + dropped@,
            *final(self) == (CopyTab { sources: final(self).sources, ..*old(self) }),
    {
        let mut more = dropped;
        self.sources.append(&mut more);
    }

    /// Bytes of the files on their way that have arrived.
    pub fn bytes_in_flight(&self) -> (r: u64)
        ensures
            r == bytes_on_the_way(active_views(self.active@), self.active@.len() as int),
    {
        let mut sum: u64 = 0;
        let mut i: usize = 0;
        while i < self.active.len()
            invariant
                i <= self.active@.len(),
                sum == bytes_on_the_way(active_views(self.active@), i as int),
            decreases self.active@.len() - i,
        {
            proof {
                assert(active_views(self.active@)[i as int] == self.active@[i as int]@);
            }
            sum = sum.wrapping_add(self.active[i].bytes_done);
            i = i + 1;
        }
        sum
    }

    fn find_active(&self, path: &FilePath) -> (i: usize)
        ensures
            i == place_of(active_views(self.active@), path@, 0),
            i <= self.active@.len(),
    {
        let ghost all = active_views(self.active@);
        let mut i: usize = 0;
        while i < self.active.len() && !self.active[i].path.same(path)
            invariant
                i <= self.active@.len(),
                all == active_views(self.active@),
                place_of(all, path@, 0) == place_of(all, path@, i as int),
            decreases self.active@.len() - i,
        {
            proof {
                assert(all[i as int] == self.active@[i as int]@);
            }
            i = i + 1;
        }
        proof {
            if i < self.active@.len() {
                assert(all[i as int] == self.active@[i as int]@);
            }
        }
        i
    }

    fn put_active(&mut self, path: FilePath, bytes_done: u64, size: u64)
        requires
            old(self).wf(),
        ensures
            final(self).wf(),
            active_views(final(self).active@) == with_file(
                active_views(old(self).active@),
                ActiveView { path: path@, bytes_done, size },
            ),
            *final(self) == (CopyTab { active: final(self).active, ..*old(self) }),
    {
        let i: usize = self.find_active(&path);
        let ghost before = self.active@;
        let file = ActiveFile { path, bytes_done, size };
        proof {
            lemma_still_different(active_views(before), file@);
        }
        if i < self.active.len() {
            self.active.set(i, file);
            proof {
                assert(active_views(self.active@) =~= active_views(before).update(
                    i as int,
                    file@,
                ));
            }
        } else {
            self.active.push(file);
            proof {
                assert(active_views(self.active@) =~= active_views(before).push(file@));
            }
        }
    }

    fn drop_active(&mut self, path: &FilePath) -> (size: u64)
        requires
            old(self).wf(),
        ensures
            final(self).wf(),
            size == size_on_the_way(active_views(old(self).active@), path@),
            active_views(final(self).active@) == without_file(
                active_views(old(self).active@),
                path@,
            ),
            *final(self) == (CopyTab { active: final(self).active, ..*old(self) }),
    {
        let i: usize = self.find_active(path);
        let ghost before = self.active@;
        proof {
            lemma_still_different(
                active_views(before),
                ActiveView { path: path@, bytes_done: 0, size: 0 },
            );
        }
        if i < self.active.len() {
            let gone = self.active.remove(i);
            proof {
                assert(active_views(before)[i as int] == gone@);
                assert(active_views(self.active@) =~= active_views(before).remove(i as int));
            }
            gone.size
        } else {
            0
        }
    }

    /// The transfer tells about its progress. `elapsed` is how long it has
    /// taken, in seconds.
    pub fn on_event(&mut self, event: CopyEvent, elapsed: &str)
        requires
            old(self).wf(),
        ensures
            final(self).wf(),
            match event_line(event@, elapsed@) {
                Some(line) => ui::wrote(old(self).log, final(self).log, line),
                None => final(self).log == old(self).log,
            },
            active_views(final(self).active@) == active_after(
                active_views(old(self).active@),
                event@,
            ),
            final(self).total_files == (match event@ {
                CopyEventView::Started { total_files, total_bytes } => total_files,
                _ => old(self).total_files,
            }),
            final(self).total_bytes == (match event@ {
                CopyEventView::Started { total_files, total_bytes } => total_bytes,
                _ => old(self).total_bytes,
            }),
            final(self).files_done == (match event@ {
                CopyEventView::FileDone { path } => old(self).files_done.wrapping_add(1),
                CopyEventView::FileSkipped { path, reason } => old(self).files_done.wrapping_add(
                    1,
                ),
                _ => old(self).files_done,
            }),
            final(self).bytes_done_complete == (match event@ {
                CopyEventView::FileDone { path } => old(self).bytes_done_complete.wrapping_add(
                    size_on_the_way(active_views(old(self).active@), path),
                ),
                CopyEventView::Finished(s) => s.bytes_copied,
                _ => old(self).bytes_done_complete,
            }),
            final(self).running == (old(self).running && !(event is Finished
                || event is Cancelled)),
            event matches CopyEvent::Finished(s) ==> final(self).summary == Some(s) && final(self).summary_elapsed@ == elapsed@,
            !(event is Finished) ==> final(self).summary == old(self).summary && final(self).summary_elapsed == old(self).summary_elapsed,
            *final(self) == (CopyTab {
                total_files: final(self).total_files,
                total_bytes: final(self).total_bytes,
                files_done: final(self).files_done,
                bytes_done_complete: final(self).bytes_done_complete,
                active: final(self).active,
                summary: final(self).summary,
                summary_elapsed: final(self).summary_elapsed,
                running: final(self).running,
                log: final(self).log,
                ..*old(self)
            }),
    {
        match write_event(&event, elapsed) {
            Some(line) => self.log.push(line),
            None => {},
        }
        match event {
            CopyEvent::Started { total_files, total_bytes } => {
                self.total_files = total_files;
                self.total_bytes = total_bytes;
            },
            CopyEvent::FileStarted { path, size } => self.put_active(path, 0, size),
            CopyEvent::FileProgress { path, bytes_done, size } => self.put_active(
                path,
                bytes_done,
                size,
            ),
            CopyEvent::FileVerified { path } => {},
            CopyEvent::FileDone { path } => {
                self.files_done = self.files_done.wrapping_add(1);
                let size: u64 = self.drop_active(&path);
                self.bytes_done_complete = self.bytes_done_complete.wrapping_add(size);
            },
            CopyEvent::FileSkipped { path, reason } => {
                self.files_done = self.files_done.wrapping_add(1);
                self.drop_active(&path);
            },
            CopyEvent::FileError { path, message } => {
                self.drop_active(&path);
            },
            CopyEvent::Finished(summary) => {
                self.summary = Some(summary);
                self.summary_elapsed = elapsed.to_owned();
                self.bytes_done_complete = summary.bytes_copied;
                self.finish();
            },
            CopyEvent::Cancelled => self.finish(),
        }
    }

    fn finish(&mut self)
        requires
            old(self).wf(),
        ensures
            final(self).wf(),
            active_views(final(self).active@) == Seq::<ActiveView>::empty(),
            *final(self) == (CopyTab {
                running: false,
                active: final(self).active,
                ..*old(self)
            }),
    {
        self.running = false;
        self.active.clear();
        proof {
            assert(active_views(self.active@) =~= Seq::<ActiveView>::empty());
        }
    }

    /// Starts a transfer.
    pub fn start(&mut self) -> (r: Option<TransferJob>)
        requires
            old(self).wf(),
            !(old(self).mode is Rename),
        ensures
            final(self).wf(),
            old(self).sources@.len() == 0 ==> {
                &&& r is None
                &&& ui::wrote(
                    old(self).log,
                    final(self).log,
                    "Add at least one source file or folder first."@,
                )
                &&& *final(self) == (CopyTab { log: final(self).log, ..*old(self) })
            },
            old(self).sources@.len() > 0 && old(self).dest is None ==> {
                &&& r is None
                &&& ui::wrote(
                    old(self).log,
                    final(self).log,
                    "Choose a destination folder first."@,
                )
                &&& *final(self) == (CopyTab { log: final(self).log, ..*old(self) })
            },
            old(self).sources@.len() > 0 && old(self).dest is Some ==> {
                &&& r matches Some(job)
                &&& paths::views(job.sources@) == paths::views(old(self).sources@)
                &&& job.dest@ == old(self).dest->0@
                &&& job.options == (CopyOptions {
                    overwrite: old(self).overwrite,
                    verify: old(self).verify,
                    preserve_times: old(self).preserve_times,
                    threads: 0,
                    use_fast_path: old(self).use_fast_path,
                })
                &&& job.is_move == (old(self).mode is Move)
                &&& final(self).active@.len() == 0
                &&& ui::emptied(old(self).log, final(self).log)
                &&& *final(self) == (CopyTab {
                    total_files: 0,
                    total_bytes: 0,
                    files_done: 0,
                    bytes_done_complete: 0,
                    active: final(self).active,
                    summary: None,
                    running: true,
                    log: final(self).log,
                    ..*old(self)
                })
            },
    {
        if self.sources.len() == 0 {
            self.log.push("Add at least one source file or folder first.".to_owned());
            return None;
        }
        let dest = match &self.dest {
            Some(dest) => dest.clone(),
            None => {
                self.log.push("Choose a destination folder first.".to_owned());
                return None;
            },
        };
        let options = CopyOptions {
            overwrite: self.overwrite,
            verify: self.verify,
            preserve_times: self.preserve_times,
            threads: 0,
            use_fast_path: self.use_fast_path,
        };
        self.total_files = 0;
        self.total_bytes = 0;
        self.files_done = 0;
        self.bytes_done_complete = 0;
        self.active.clear();
        self.summary = None;
        self.log.clear();
        self.running = true;
        let is_move = match self.mode {
            TransferMode::Move => true,
            _ => false,
        };
        Some(TransferJob { sources: paths::clone_paths(&self.sources), dest, options, is_move })
    }

    /// The names as they are and as they would be.
    pub fn rename_preview(&self) -> (r: Vec<(String, String)>)
        ensures
            r@.len() == self.sources@.len(),
            forall|i: int|
                #![trigger r@[i]]
                0 <= i < r@.len() ==> {
                    &&& r@[i].0@ == (match self.sources@[i]@.file_name() {
                        Some(n) => n,
                        None => ""@,
                    })
                    &&& r@[i].1@ == fsops::batch_name(
                        self.sources@[i]@,
                        self.rename_pattern@,
                        i as nat,
                    )
                },
    {
        let mut r: Vec<(String, String)> = Vec::new();
        let mut i: usize = 0;
        while i < self.sources.len()
            invariant
                i <= self.sources@.len(),
                r@.len() == i,
                forall|j: int|
                    #![trigger r@[j]]
                    0 <= j < i ==> {
                        &&& r@[j].0@ == (match self.sources@[j]@.file_name() {
                            Some(n) => n,
                            None => ""@,
                        })
                        &&& r@[j].1@ == fsops::batch_name(
                            self.sources@[j]@,
                            self.rename_pattern@,
                            j as nat,
                        )
                    },
            decreases self.sources@.len() - i,
        {
            let old_name = match self.sources[i].file_name() {
                Some(n) => n,
                None => "".to_owned(),
            };
            let new_name = fsops::new_name(&self.sources[i], self.rename_pattern.as_str(), i);
            r.push((old_name, new_name));
            i = i + 1;
        }
        r
    }

    /// Whether there is something to rename.
    pub fn do_rename(&mut self) -> (go: bool)
        requires
            old(self).wf(),
        ensures
            final(self).wf(),
            go == (old(self).sources@.len() > 0),
            go ==> ui::emptied(old(self).log, final(self).log),
            !go ==> ui::wrote(
                old(self).log,
                final(self).log,
                "Add at least one file or folder to rename first."@,
            ),
            *final(self) == (CopyTab { log: final(self).log, ..*old(self) }),
    {
        if self.sources.len() == 0 {
            self.log.push("Add at least one file or folder to rename first.".to_owned());
            return false;
        }
        self.log.clear();
        true
    }

    /// The files have their new names, or renaming stopped.
    pub fn on_renamed(&mut self, result: Result<Vec<FilePath>, String>)
        requires
            old(self).wf(),
            old(self).log@.len() == 0,
            result matches Ok(after) ==> after@.len() == old(self).sources@.len(),
        ensures
            final(self).wf(),
            match result {
                Ok(after) => {
                    &&& final(self).sources == after
                    &&& final(self).log@ == renamed_lines(
                        paths::views(old(self).sources@),
                        paths::views(after@),
                        after@.len() as int,
                        old(self).log.cap(),
                    )
                    &&& final(self).log.cap() == old(self).log.cap()
                    &&& *final(self) == (CopyTab {
                        sources: final(self).sources,
                        log: final(self).log,
                        ..*old(self)
                    })
                },
                Err(e) => {
                    &&& ui::wrote(old(self).log, final(self).log, "✗ Rename failed: "@ + e@)
                    &&& *final(self) == (CopyTab { log: final(self).log, ..*old(self) })
                },
            },
    {
        match result {
            Ok(after) => {
                let ghost olds = paths::views(self.sources@);
                let ghost news = paths::views(after@);
                let ghost cap = self.log.cap();
                proof {
                    assert(self.log@ =~= Seq::<Seq<char>>::empty());
                }
                let mut i: usize = 0;
                while i < after.len()
                    invariant
                        i <= after@.len(),
                        after@.len() == self.sources@.len(),
                        olds == paths::views(self.sources@),
                        news == paths::views(after@),
                        self.wf(),
                        self.log.cap() == cap,
                        self.log@ == renamed_lines(olds, news, i as int, cap),
                        *self == (CopyTab { log: self.log, ..*old(self) }),
                    decreases after@.len() - i,
                {
                    let mut line = "✓ ".to_owned();
                    line.append(self.sources[i].display().as_str());
                    line.append(" → ");
                    line.append(after[i].display().as_str());
                    proof {
                        assert(olds[i as int] == self.sources@[i as int]@);
                        assert(news[i as int] == after@[i as int]@);
                    }
                    self.log.push(line);
                    i = i + 1;
                }
                self.sources = after;
            },
            Err(e) => {
                let mut line = "✗ Rename failed: ".to_owned();
                line.append(e.as_str());
                self.log.push(line);
            },
        }
    }

    /// Bytes that have arrived altogether.
    pub fn bytes_done(&self) -> (r: u64)
        ensures
            r == self.bytes_done_complete.wrapping_add(
                bytes_on_the_way(active_views(self.active@), self.active@.len() as int),
            ),
    {
        self.bytes_done_complete.wrapping_add(self.bytes_in_flight())
    }

    pub fn overall_label(&self) -> (r: String)
        ensures
            r@ == "Overall: "@ + text::dec(self.files_done as nat) + "/"@ + text::dec(
                self.total_files as nat,
            ) + " files, "@ + util::readable(
                self.bytes_done_complete.wrapping_add(
                    bytes_on_the_way(active_views(self.active@), self.active@.len() as int),
                ),
            ) + " / "@ + util::readable(self.total_bytes),
    {
        let mut r = "Overall: ".to_owned();
        r.append(text::decimal(self.files_done as u64).as_str());
        r.append("/");
        r.append(text::decimal(self.total_files as u64).as_str());
        r.append(" files, ");
        r.append(util::human_bytes(self.bytes_done()).as_str());
        r.append(" / ");
        r.append(util::human_bytes(self.total_bytes).as_str());
        r
    }

    pub fn active_label(&self) -> (r: String)
        ensures
            r@ == "Transferring "@ + text::dec(self.active@.len()) + " file(s) in parallel:"@,
    {
        let mut r = "Transferring ".to_owned();
        r.append(text::decimal(self.active.len() as u64).as_str());
        r.append(" file(s) in parallel:");
        r
    }

    /// The files on their way that are shown: at most six, those with most bytes
    /// arrived first.
    pub fn shown_active(&self) -> (r: Vec<usize>)
        ensures
            shows_furthest(active_views(self.active@), r@),
    {
        let ghost all = active_views(self.active@);
        let mut done: Vec<u64> = Vec::new();
        let mut i: usize = 0;
        while i < self.active.len()
            invariant
                i <= self.active@.len(),
                all == active_views(self.active@),
                done@ == arrived(all).take(i as int),
            decreases self.active@.len() - i,
        {
            let n: u64 = self.active[i].bytes_done;
            proof {
                assert(arrived(all)[i as int] == n);
                assert(arrived(all).take(i + 1) =~= arrived(all).take(i as int).push(n));
            }
            done.push(n);
            i = i + 1;
        }
        proof {
            assert(arrived(all).take(i as int) =~= arrived(all));
        }
        let mut by = order::largest_first(&done);
        let ghost full = by@;
        if by.len() > 6 {
            by.truncate(6);
        }
        proof {
            assert(order::is_order(arrived(all), full));
            assert(by@ =~= full.take(by@.len() as int));
        }
        by
    }

    pub fn finished_label(&self) -> (r: Option<String>)
        ensures
            match self.summary {
                Some(s) => r is Some && r->0@ == "Finished: "@ + counts_line(s) + " — "@
                    + util::readable(s.bytes_copied) + " in "@ + self.summary_elapsed@ + "s"@,
                None => r is None,
            },
    {
        match &self.summary {
            Some(s) => {
                let mut r = "Finished: ".to_owned();
                r.append(write_counts(s).as_str());
                r.append(" — ");
                r.append(util::human_bytes(s.bytes_copied).as_str());
                r.append(" in ");
                r.append(self.summary_elapsed.as_str());
                r.append("s");
                Some(r)
            },
            None => None,
        }
    }

    pub fn dest_label(&self) -> (r: String)
        ensures
            r@ == (match self.dest {
                Some(dest) => dest@.shown(),
                None => "(no destination selected)"@,
            }),
    {
        match &self.dest {
            Some(dest) => dest.display(),
            None => "(no destination selected)".to_owned(),
        }
    }
}

/// The bytes of each file on its way that have arrived.
pub open spec fn arrived(active: Seq<ActiveView>) -> Seq<u64> {
    active.map_values(|f: ActiveView| f.bytes_done)
}

/// Whether a list has the positions of the six files that are furthest, or of
/// all if there are no more.
pub open spec fn shows_furthest(active: Seq<ActiveView>, list: Seq<usize>) -> bool {
    exists|by: Seq<usize>| #[trigger]
        order::is_order(arrived(active), by) && list == by.take(
            if by.len() > 6 {
                6
            } else {
                by.len() as int
            },
        )
}

pub fn mode_hint(mode: TransferMode) -> (r: &'static str)
    ensures
        r@ == (match mode {
            TransferMode::Copy =>
                "Copy files and folders with multi-threaded, OS-accelerated transfers."@,
            TransferMode::Move =>
                "Move files and folders — instant same-volume rename, or copy-then-delete across volumes."@,
            TransferMode::Rename =>
                "Rename files in place, optionally as a batch using a pattern."@,
        }),
{
    match mode {
        TransferMode::Copy =>
            "Copy files and folders with multi-threaded, OS-accelerated transfers.",
        TransferMode::Move =>
            "Move files and folders — instant same-volume rename, or copy-then-delete across volumes.",
        TransferMode::Rename => "Rename files in place, optionally as a batch using a pattern.",
    }
}

pub fn policy_label(policy: OverwritePolicy) -> (r: &'static str)
    ensures
        r@ == (match policy {
            OverwritePolicy::Always => "Overwrite"@,
            OverwritePolicy::Skip => "Skip existing"@,
            OverwritePolicy::SkipIfSameSize => "Skip if same size (resume)"@,
        }),
{
    match policy {
        OverwritePolicy::Always => "Overwrite",
        OverwritePolicy::Skip => "Skip existing",
        OverwritePolicy::SkipIfSameSize => "Skip if same size (resume)",
    }
}

/// A transfer does what was chosen: from the sources to the destination, and
/// with the originals gone only for a move.
pub proof fn law_transfer_does_what_was_chosen(tab: &mut CopyTab, r: Option<TransferJob>)
    requires
        tab.wf(),
        !(tab.mode is Rename),
        call_ensures(CopyTab::start, (tab,), r),
    ensures
        r is Some <==> old(tab).sources@.len() > 0 && old(tab).dest is Some,
        r matches Some(job) ==> {
            &&& paths::views(job.sources@) == paths::views(old(tab).sources@)
            &&& job.dest@ == old(tab).dest->0@
            &&& job.is_move == (old(tab).mode is Move)
            &&& job.options.overwrite == old(tab).overwrite
            &&& job.options.verify == old(tab).verify
            &&& job.options.preserve_times == old(tab).preserve_times
            &&& job.options.use_fast_path == old(tab).use_fast_path
            &&& final(tab).running
            &&& final(tab).files_done == 0
            &&& final(tab).bytes_done_complete == 0
            &&& final(tab).active@.len() == 0
        },
        r is None ==> final(tab).running == old(tab).running,
{
}

/// A file that is on its way is shown with how far it is, under its own path;
/// others are shown as before.
pub proof fn law_progress_belongs_to_its_file(
    tab: &mut CopyTab,
    path: FilePath,
    bytes_done: u64,
    size: u64,
    elapsed: &str,
    u: (),
    i: int,
)
    requires
        tab.wf(),
        call_ensures(
            CopyTab::on_event,
            (tab, CopyEvent::FileProgress { path, bytes_done, size }, elapsed),
            u,
        ),
    ensures
        exists|k: int|
            0 <= k < final(tab).active@.len() && (#[trigger] final(tab).active@[k]).path@ == path@
                && final(tab).active@[k].bytes_done == bytes_done && final(tab).active@[k].size
                == size,
        0 <= i < old(tab).active@.len() && old(tab).active@[i].path@ != path@ ==> final(tab).active@[i]@ == old(tab).active@[i]@,
        final(tab).files_done == old(tab).files_done,
        final(tab).bytes_done_complete == old(tab).bytes_done_complete,
        final(tab).running == old(tab).running,
{
    let a = active_views(tab.active@);
    let b = active_views(final(tab).active@);
    let file = ActiveView { path: path@, bytes_done, size };
    lemma_place(a, path@, 0);
    let k = place_of(a, path@, 0);
    assert(a.len() == tab.active@.len() && b.len() == final(tab).active@.len());
    assert(b[k] == file);
    assert(b[k] == final(tab).active@[k]@);
    if 0 <= i < a.len() && tab.active@[i].path@ != path@ {
        assert(a[i] == tab.active@[i]@);
        assert(b[i] == a[i]);
        assert(b[i] == final(tab).active@[i]@);
    }
}

/// A file that has arrived is no longer on its way, counts as done, and counts
/// with its size.
pub proof fn law_arrived_files_count(
    tab: &mut CopyTab,
    path: FilePath,
    elapsed: &str,
    u: (),
    i: int,
    k: int,
)
    requires
        tab.wf(),
        tab.files_done < usize::MAX,
        0 <= i < tab.active@.len(),
        tab.active@[i].path@ == path@,
        tab.bytes_done_complete + tab.active@[i].size <= u64::MAX,
        call_ensures(CopyTab::on_event, (tab, CopyEvent::FileDone { path }, elapsed), u),
    ensures
        final(tab).files_done == old(tab).files_done + 1,
        final(tab).bytes_done_complete == old(tab).bytes_done_complete + old(tab).active@[i].size,
        final(tab).active@.len() == old(tab).active@.len() - 1,
        0 <= k < final(tab).active@.len() ==> final(tab).active@[k].path@ != path@,
{
    let a = active_views(tab.active@);
    let b = active_views(final(tab).active@);
    assert(a.len() == tab.active@.len() && b.len() == final(tab).active@.len());
    lemma_place(a, path@, 0);
    assert(a[i] == tab.active@[i]@);
    let p = place_of(a, path@, 0);
    if p < i {
        assert(a[p].path == a[i].path);
    }
    assert(p == i);
    if 0 <= k < b.len() {
        assert(b[k] == final(tab).active@[k]@);
        let j = if k < i {
            k
        } else {
            k + 1
        };
        assert(b[k] == a[j]);
        if j < i {
            assert(a[j].path != a[i].path);
        } else {
            assert(a[i].path != a[j].path);
        }
    }
}

/// The end of a transfer is its end: nothing is on its way any more, and what it
/// came to is shown.
pub proof fn law_finished_transfer_is_over(
    tab: &mut CopyTab,
    summary: CopySummary,
    elapsed: &str,
    u: (),
)
    requires
        tab.wf(),
        call_ensures(CopyTab::on_event, (tab, CopyEvent::Finished(summary), elapsed), u),
    ensures
        !final(tab).running,
        final(tab).active@.len() == 0,
        final(tab).summary == Some(summary),
        final(tab).bytes_done_complete == summary.bytes_copied,
        final(tab).sources == old(tab).sources,
{
    assert(active_views(final(tab).active@).len() == final(tab).active@.len());
}

/// After a rename the sources are the files under their new names, so that the
/// next transfer finds them; where it failed they stay.
pub proof fn law_renamed_files_are_the_sources(
    tab: &mut CopyTab,
    result: Result<Vec<FilePath>, String>,
    u: (),
)
    requires
        tab.wf(),
        tab.log@.len() == 0,
        result matches Ok(after) ==> after@.len() == tab.sources@.len(),
        call_ensures(CopyTab::on_renamed, (tab, result), u),
    ensures
        result matches Ok(after) ==> final(tab).sources == after,
        result is Err ==> final(tab).sources == old(tab).sources,
        final(tab).dest == old(tab).dest,
{
}

/// At most six files on their way are shown, and none that is not shown is
/// further than one that is.
pub proof fn law_furthest_files_are_shown(tab: &CopyTab, r: Vec<usize>, a: int, i: int)
    requires
        call_ensures(CopyTab::shown_active, (tab,), r),
        0 <= a < r@.len(),
        0 <= i < tab.active@.len(),
        !r@.contains(i as usize),
    ensures
        r@.len() == 6,
        r@[a] < tab.active@.len(),
        tab.active@[r@[a] as int].bytes_done >= tab.active@[i].bytes_done,
{
    assert(tab.active.len() <= usize::MAX);
    let v = active_views(tab.active@);
    let keys = arrived(v);
    let by = choose|by: Seq<usize>| #[trigger]
        order::is_order(keys, by) && r@ == by.take(
            if by.len() > 6 {
                6
            } else {
                by.len() as int
            },
        );
    order::law_order_is_complete(keys, by);
    assert(keys.len() == tab.active@.len());
    assert(order::lists(by, i));
    let b = choose|b: int| 0 <= b < by.len() && #[trigger] by[b] as int == i;
    if b < r@.len() {
        assert(r@[b] == i as usize);
    }
    assert(r@[a] == by[a]);
    assert(order::comes_first(keys, by[a] as int, by[b] as int));
    assert(keys[by[a] as int] == tab.active@[by[a] as int].bytes_done);
    assert(keys[i] == tab.active@[i].bytes_done);
}

/// What is dropped is added behind the sources that were there.
pub proof fn law_dropped_files_are_sources(tab: &mut CopyTab, dropped: Vec<FilePath>, u: (), i: int)
    requires
        tab.wf(),
        call_ensures(CopyTab::add_dropped, (tab, dropped), u),
    ensures
        final(tab).sources@.len() == old(tab).sources@.len() + dropped@.len(),
        0 <= i < old(tab).sources@.len() ==> final(tab).sources@[i] == old(tab).sources@[i],
        0 <= i < dropped@.len() ==> final(tab).sources@[old(tab).sources@.len() + i] == dropped@[i],
        final(tab).mode == old(tab).mode,
        final(tab).dest == old(tab).dest,
{
}

/// The overall progress shows the files and the bytes that have arrived, each
/// before what there is of them.
pub proof fn law_overall_progress_is_shown(
    tab: &CopyTab,
    arrived: u64,
    a: String,
    b: String,
    r: String,
)
    requires
        call_ensures(CopyTab::bytes_done, (tab,), arrived),
        call_ensures(util::human_bytes, (arrived,), a),
        call_ensures(util::human_bytes, (tab.total_bytes,), b),
        call_ensures(CopyTab::overall_label, (tab,), r),
    ensures
        r@ == "Overall: "@ + text::dec(tab.files_done as nat) + "/"@ + text::dec(
            tab.total_files as nat,
        ) + " files, "@ + a@ + " / "@ + b@,
{
}

/// What has arrived is what the complete files hold and what is there of those
/// on their way.
pub proof fn law_arrived_bytes_add_up(tab: &CopyTab, on_the_way: u64, arrived: u64)
    requires
        call_ensures(CopyTab::bytes_in_flight, (tab,), on_the_way),
        call_ensures(CopyTab::bytes_done, (tab,), arrived),
        tab.bytes_done_complete + on_the_way <= u64::MAX,
    ensures
        arrived == tab.bytes_done_complete + on_the_way,
        tab.active@.len() == 0 ==> on_the_way == 0,
        tab.active@.len() == 1 ==> on_the_way == tab.active@[0].bytes_done,
{
    let v = active_views(tab.active@);
    assert(v.len() == tab.active@.len());
    if v.len() == 1 {
        assert(v[0] == tab.active@[0]@);
        reveal_with_fuel(bytes_on_the_way, 3);
    }
}

} // verus!
