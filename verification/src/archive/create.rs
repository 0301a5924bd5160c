//! Writing an archive entry by entry. It is built under another name and
//! moved into place only when it is complete.

use vstd::prelude::*;

use crate::archive;
use crate::archive::{
    ArchiveEvent, ArchiveEventView, ArchiveSummary, EntryView, PlannedEntry, ZipOptions,
    PROGRESS_EVERY_MS,
};
use crate::paths::FilePath;
use crate::{go_on_unless, CancelToken, EngineError, EngineResult};

verus! {

/// How many of the first `n` entries are files.
pub open spec fn file_count(entries: Seq<EntryView>, n: int) -> nat
    decreases n,
{
    if n <= 0 {
        0
    } else if entries[n - 1].is_dir {
        file_count(entries, n - 1)
    } else {
        file_count(entries, n - 1) + 1
    }
}

/// Bytes of the first `n` entries, modulo 2^64.
pub open spec fn byte_count(entries: Seq<EntryView>, n: int) -> u64
    decreases n,
{
    if n <= 0 {
        0
    } else {
        byte_count(entries, n - 1).wrapping_add(entries[n - 1].size)
    }
}

/// How entries are compressed: as they are, or with a level from 1 to 9.
pub fn compression_level(options: &ZipOptions) -> (r: Option<i64>)
    ensures
        r == (if options.level == 0 {
            None
        } else if options.level > 9 {
            Some(9i64)
        } else {
            Some(options.level as i64)
        }),
{
    if options.level == 0 {
        None
    } else if options.level > 9 {
        Some(9)
    } else {
        Some(options.level as i64)
    }
}

/// The permissions stored for a file: those for owner, group and others.
pub fn stored_mode(mode: u32) -> (r: u32)
    ensures
        r == mode & 0o777,
{
    mode & 0o777
}

/// What writing an archive does next.
#[derive(Debug, PartialEq, Eq)]
pub enum CreateStep {
    /// Stop: the user asked for it.
    Stop,
    /// Look at this file or folder.
    Inspect(FilePath),
    /// All entries are written; the event tells so.
    Done(ArchiveEvent),
}

/// What follows a look at a file or a folder.
#[derive(Debug, PartialEq, Eq)]
pub enum InspectedStep {
    /// It is left out; the event says why.
    Failed(ArchiveEvent),
    AddDirectory(String),
    /// Open this file.
    Open(FilePath),
}

/// What follows opening a file.
#[derive(Debug, PartialEq, Eq)]
pub enum OpenedStep {
    /// It is left out; the event says why.
    Failed(ArchiveEvent),
    /// Start an entry with this name; a large one needs the larger format.
    Start { name: String, large: bool },
}

/// The state of writing an archive.
#[derive(Debug)]
pub struct CreateRun {
    pub plan: Vec<PlannedEntry>,
    pub total: u64,
    pub index: usize,
    pub done: u64,
    /// When progress was last told, in milliseconds.
    pub told: Option<u64>,
    pub summary: ArchiveSummary,
}

/// Whether progress may be told at `now`.
pub open spec fn progress_due(told: Option<u64>, now: u64) -> bool {
    told is None || now - told->0 >= PROGRESS_EVERY_MS
}

/// Whether progress may be told at `now`.
pub fn is_progress_due(told: Option<u64>, now: u64) -> (r: bool)
    ensures
        r == progress_due(told, now),
{
    match told {
        None => true,
        Some(t) => now >= t && now - t >= PROGRESS_EVERY_MS,
    }
}

impl CreateRun {
    pub open spec fn entry(self) -> EntryView {
        self.plan@[self.index as int]@
    }

    /// Every file that was handled is counted once, as packed or as failed; a
    /// folder is counted only when it failed.
    pub open spec fn wf(self) -> bool {
        let files = file_count(archive::entry_views(self.plan@), self.index as int);
        &&& self.index <= self.plan@.len()
        &&& self.summary.files <= files <= self.summary.files + self.summary.failed <= self.index
    }

    /// A run over a plan, and the event that opens it.
    pub fn new(plan: Vec<PlannedEntry>) -> (r: (CreateRun, ArchiveEvent))
        ensures
            r.0.wf(),
            r.0.plan == plan,
            r.0.index == 0,
            r.0.done == 0,
            r.0.told is None,
            r.0.total == byte_count(archive::entry_views(plan@), plan@.len() as int),
            r.0.summary == (ArchiveSummary {
                files: 0,
                skipped: 0,
                failed: 0,
                bytes: 0,
                archive_bytes: 0,
            }),
            r.1@ == (ArchiveEventView::Started {
                files: file_count(archive::entry_views(plan@), plan@.len() as int) as usize,
                bytes: r.0.total,
            }),
    {
        let ghost all = archive::entry_views(plan@);
        let mut files: usize = 0;
        let mut total: u64 = 0;
        let mut i: usize = 0;
        while i < plan.len()
            invariant
                i <= plan@.len(),
                all == archive::entry_views(plan@),
                files <= i,
                files == file_count(all, i as int),
                total == byte_count(all, i as int),
            decreases plan@.len() - i,
        {
            proof {
                assert(all[i as int] == plan@[i as int]@);
            }
            if !plan[i].is_dir {
                files = files + 1;
            }
            total = total.wrapping_add(plan[i].size);
            i = i + 1;
        }
        (
            CreateRun {
                plan,
                total,
                index: 0,
                done: 0,
                told: None,
                summary: ArchiveSummary::default(),
            },
            ArchiveEvent::Started { files, bytes: total },
        )
    }

    /// What to do next, given whether a stop was asked for.
    pub fn next(&self, cancelled: bool) -> (step: CreateStep)
        requires
            self.wf(),
        ensures
            self.index == self.plan@.len() ==> {
                &&& step matches CreateStep::Done(event)
                &&& event@ == (ArchiveEventView::Progress { done: self.total, total: self.total })
            },
            self.index < self.plan@.len() && cancelled ==> step is Stop,
            self.index < self.plan@.len() && !cancelled ==> {
                &&& step matches CreateStep::Inspect(p)
                &&& p@ == self.entry().path
            },
    {
        if self.index == self.plan.len() {
            return CreateStep::Done(
                ArchiveEvent::Progress { done: self.total, total: self.total },
            );
        }
        if cancelled {
            return CreateStep::Stop;
        }
        CreateStep::Inspect(self.plan[self.index].path.clone())
    }

    /// Takes note of a look at the current entry: what the system said when it
    /// failed. A failed entry and a folder are dealt with by that.
    pub fn inspected(&mut self, failure: Option<String>) -> (step: InspectedStep)
        requires
            old(self).wf(),
            old(self).index < old(self).plan@.len(),
        ensures
            final(self).wf(),
            match failure {
                Some(message) => {
                    &&& step matches InspectedStep::Failed(event)
                    &&& event@ == (ArchiveEventView::FileError {
                        path: old(self).entry().name,
                        message: message@,
                    })
                    &&& *final(self) == (CreateRun {
                        index: (old(self).index + 1) as usize,
                        summary: ArchiveSummary {
                            failed: (old(self).summary.failed + 1) as usize,
                            ..old(self).summary
                        },
                        ..*old(self)
                    })
                },
                None => if old(self).entry().is_dir {
                    &&& step matches InspectedStep::AddDirectory(name)
                    &&& name@ == old(self).entry().name
                    &&& *final(self) == (CreateRun {
                        index: (old(self).index + 1) as usize,
                        ..*old(self)
                    })
                } else {
                    &&& step matches InspectedStep::Open(p)
                    &&& p@ == old(self).entry().path
                    &&& *final(self) == *old(self)
                },
            },
    {
        let i: usize = self.index;
        assert(self.plan.len() <= usize::MAX);
        match failure {
            Some(message) => {
                self.index = self.index + 1;
                self.summary.failed = self.summary.failed + 1;
                InspectedStep::Failed(
                    ArchiveEvent::FileError { path: self.plan[i].name.clone(), message },
                )
            },
            None => {
                if self.plan[i].is_dir {
                    self.index = self.index + 1;
                    InspectedStep::AddDirectory(self.plan[i].name.clone())
                } else {
                    InspectedStep::Open(self.plan[i].path.clone())
                }
            },
        }
    }

    /// Takes note of opening the current file: what the system said when it
    /// failed. The bar moves past a file that is left out.
    pub fn opened(&mut self, failure: Option<String>) -> (step: OpenedStep)
        requires
            old(self).wf(),
            old(self).index < old(self).plan@.len(),
            !old(self).entry().is_dir,
        ensures
            final(self).wf(),
            match failure {
                Some(message) => {
                    &&& step matches OpenedStep::Failed(event)
                    &&& event@ == (ArchiveEventView::FileError {
                        path: old(self).entry().name,
                        message: message@,
                    })
                    &&& *final(self) == (CreateRun {
                        index: (old(self).index + 1) as usize,
                        done: old(self).done.wrapping_add(old(self).entry().size),
                        summary: ArchiveSummary {
                            failed: (old(self).summary.failed + 1) as usize,
                            ..old(self).summary
                        },
                        ..*old(self)
                    })
                },
                None => {
                    &&& step matches OpenedStep::Start { name, large }
                    &&& name@ == old(self).entry().name
                    &&& large == (old(self).entry().size >= u32::MAX)
                    &&& *final(self) == *old(self)
                },
            },
    {
        let i: usize = self.index;
        assert(self.plan.len() <= usize::MAX);
        match failure {
            Some(message) => {
                self.index = self.index + 1;
                self.summary.failed = self.summary.failed + 1;
                self.done = self.done.wrapping_add(self.plan[i].size);
                OpenedStep::Failed(
                    ArchiveEvent::FileError { path: self.plan[i].name.clone(), message },
                )
            },
            None => OpenedStep::Start {
                name: self.plan[i].name.clone(),
                large: self.plan[i].size >= u32::MAX as u64,
            },
        }
    }

    /// Whether to go on with the current file, asked before each piece.
    pub fn go_on(&self, cancel: &CancelToken) -> (r: EngineResult<()>)
        ensures
            cancel@ ==> r == Err::<(), EngineError>(EngineError::Cancelled),
            !cancel@ ==> r is Ok,
    {
        go_on_unless(cancel)
    }

    /// Takes note that `n` bytes of the current file were written; none means
    /// that the file has ended.
    pub fn moved(&mut self, n: u64, now: u64) -> (event: Option<ArchiveEvent>)
        requires
            old(self).wf(),
            old(self).index < old(self).plan@.len(),
            !old(self).entry().is_dir,
        ensures
            final(self).wf(),
            n == 0 ==> event is None && *final(self) == (CreateRun {
                index: (old(self).index + 1) as usize,
                summary: ArchiveSummary {
                    files: (old(self).summary.files + 1) as usize,
                    ..old(self).summary
                },
                ..*old(self)
            }),
            n > 0 ==> {
                let done = old(self).done.wrapping_add(n);
                let due = progress_due(old(self).told, now);
                &&& *final(self) == (CreateRun {
                    done,
                    told: if due {
                        Some(now)
                    } else {
                        old(self).told
                    },
                    summary: ArchiveSummary {
                        bytes: old(self).summary.bytes.wrapping_add(n),
                        ..old(self).summary
                    },
                    ..*old(self)
                })
                &&& event == (if due {
                    Some(ArchiveEvent::Progress { done, total: old(self).total })
                } else {
                    None
                })
            },
    {
        if n == 0 {
            assert(self.plan.len() <= usize::MAX);
            self.index = self.index + 1;
            self.summary.files = self.summary.files + 1;
            return None;
        }
        self.done = self.done.wrapping_add(n);
        self.summary.bytes = self.summary.bytes.wrapping_add(n);
        if is_progress_due(self.told, now) {
            self.told = Some(now);
            Some(ArchiveEvent::Progress { done: self.done, total: self.total })
        } else {
            None
        }
    }

    /// The summary and the event of an archive that is in place and has the
    /// given size.
    pub fn finished(&self, archive_bytes: u64) -> (r: (ArchiveSummary, ArchiveEvent))
        ensures
            ({
                let summary = ArchiveSummary { archive_bytes, ..self.summary };
                r.0 == summary && r.1@ == ArchiveEventView::Finished(summary)
            }),
    {
        let summary = ArchiveSummary {
            files: self.summary.files,
            skipped: self.summary.skipped,
            failed: self.summary.failed,
            bytes: self.summary.bytes,
            archive_bytes,
        };
        (summary, ArchiveEvent::Finished(summary))
    }
}

/// What follows the writing of the archive under its temporary name.
#[derive(Debug, PartialEq, Eq)]
pub enum WriteEnd {
    /// Move it into place.
    MoveIntoPlace,
    /// Remove what was written; an event tells of a stop.
    Discard(Option<ArchiveEvent>),
}

/// Only a complete archive is moved into place; anything else is removed.
pub fn create_zip(error: Option<&EngineError>) -> (r: WriteEnd)
    ensures
        match error {
            None => r is MoveIntoPlace,
            Some(e) => {
                &&& r matches WriteEnd::Discard(event)
                &&& event == (if e is Cancelled {
                    Some(ArchiveEvent::Cancelled)
                } else {
                    None
                })
            },
        },
{
    match error {
        None => WriteEnd::MoveIntoPlace,
        Some(EngineError::Cancelled) => WriteEnd::Discard(Some(ArchiveEvent::Cancelled)),
        Some(_) => WriteEnd::Discard(None),
    }
}

/// The contents of an entry come from the path that was planned for its name:
/// what is looked at, opened and named for one position is all of one entry.
pub proof fn law_entries_hold_their_files(
    run: &CreateRun,
    step: CreateStep,
    looking: &mut CreateRun,
    looked: InspectedStep,
    opening: &mut CreateRun,
    opened: OpenedStep,
)
    requires
        call_ensures(CreateRun::next, (run, false), step),
        call_ensures(CreateRun::inspected, (looking, None::<String>), looked),
        call_ensures(CreateRun::opened, (opening, None::<String>), opened),
        run.wf(),
        run.index < run.plan@.len(),
        *looking == *run,
        *opening == *run,
        !run.plan@[run.index as int].is_dir,
    ensures
        step matches CreateStep::Inspect(p) && p@ == run.plan@[run.index as int].path@,
        looked matches InspectedStep::Open(p) && p@ == run.plan@[run.index as int].path@,
        opened matches OpenedStep::Start { name, large } && name@
            == run.plan@[run.index as int].name@ && (!large ==> run.plan@[run.index as int].size
            < u32::MAX),
        final(looking).index == run.index,
        final(opening).index == run.index,
{
}

/// A folder goes into the archive as a folder under its name, at once, and
/// whatever cannot be read is counted as failed and does not hold up the rest.
pub proof fn law_folders_are_packed_too(
    run: &mut CreateRun,
    failure: Option<String>,
    step: InspectedStep,
)
    requires
        call_ensures(CreateRun::inspected, (run, failure), step),
        run.wf(),
        run.index < run.plan@.len(),
        run.plan@[run.index as int].is_dir || failure is Some,
    ensures
        final(run).index == old(run).index + 1,
        failure is None ==> (step matches InspectedStep::AddDirectory(name) && name@
            == old(run).plan@[old(run).index as int].name@),
        failure is None ==> final(run).summary == old(run).summary,
        failure is Some ==> step is Failed && final(run).summary.failed
            == old(run).summary.failed + 1,
{
    assert(run.plan.len() <= usize::MAX);
}

/// Only an archive that was written without any error takes its place; what
/// was stopped or failed is thrown away.
pub proof fn law_only_complete_archives_stay(error: Option<&EngineError>, r: WriteEnd)
    requires
        call_ensures(create_zip, (error,), r),
    ensures
        r is MoveIntoPlace == error is None,
        r is Discard == error is Some,
{
}

/// Files are stored as they are only at level 0, and no level is out of range.
pub proof fn law_levels_are_in_range(options: &ZipOptions, r: Option<i64>)
    requires
        call_ensures(compression_level, (options,), r),
    ensures
        r is None == (options.level == 0),
        r is Some ==> 1 <= r->0 <= 9,
        r is Some && options.level <= 9 ==> r->0 == options.level,
{
}

/// Every byte that was written counts, for the bar and for the summary; and a
/// file counts when it has ended.
pub proof fn law_bytes_written_count(
    run: &mut CreateRun,
    n: u64,
    now: u64,
    event: Option<ArchiveEvent>,
)
    requires
        call_ensures(CreateRun::moved, (run, n, now), event),
        run.wf(),
        run.index < run.plan@.len(),
        !run.plan@[run.index as int].is_dir,
        run.done + n <= u64::MAX,
        run.summary.bytes + n <= u64::MAX,
    ensures
        final(run).done == old(run).done + n,
        final(run).summary.bytes == old(run).summary.bytes + n,
        final(run).summary.files == old(run).summary.files + (if n == 0 {
            1int
        } else {
            0int
        }),
        final(run).index == old(run).index + (if n == 0 {
            1int
        } else {
            0int
        }),
        event is Some ==> event == Some(
            ArchiveEvent::Progress { done: final(run).done, total: old(run).total },
        ),
{
    assert(run.plan.len() <= usize::MAX);
}

/// What is told at the end is what was counted, with the size of the archive.
pub proof fn law_packing_tells_what_was_counted(
    run: &CreateRun,
    archive_bytes: u64,
    r: (ArchiveSummary, ArchiveEvent),
)
    requires
        call_ensures(CreateRun::finished, (run, archive_bytes), r),
    ensures
        r.0.files == run.summary.files,
        r.0.bytes == run.summary.bytes,
        r.0.failed == run.summary.failed,
        r.0.archive_bytes == archive_bytes,
        r.1@ == ArchiveEventView::Finished(r.0),
{
}

/// The permissions that are stored are those of the file, and nothing but
/// permissions.
pub proof fn law_permissions_are_stored(mode: u32, r: u32)
    requires
        call_ensures(stored_mode, (mode,), r),
    ensures
        r <= 0o777,
        mode <= 0o777 ==> r == mode,
        r == mode % 0o1000,
{
    assert(mode & 0o777 == mode % 0o1000) by (bit_vector);
}

proof fn lemma_counts_prefix(a: Seq<EntryView>, b: Seq<EntryView>, n: int)
    requires
        0 <= n <= a.len(),
        n <= b.len(),
        forall|i: int| 0 <= i < n ==> a[i] == b[i],
    ensures
        byte_count(a, n) == byte_count(b, n),
        file_count(a, n) == file_count(b, n),
        file_count(a, n) <= n,
    decreases n,
{
    if n > 0 {
        lemma_counts_prefix(a, b, n - 1);
    }
}

/// The totals told at the start count every planned entry once: one more file
/// adds one to the files, and its size to the bytes; a folder is no file.
pub proof fn law_packing_totals_count_every_entry(
    plan: Vec<PlannedEntry>,
    longer: Vec<PlannedEntry>,
    e: PlannedEntry,
    a: (CreateRun, ArchiveEvent),
    b: (CreateRun, ArchiveEvent),
)
    requires
        longer@ == plan@.push(e),
        call_ensures(CreateRun::new, (plan,), a),
        call_ensures(CreateRun::new, (longer,), b),
    ensures
        a.0.plan == plan && a.0.index == 0 && a.0.done == 0 && a.0.summary.files == 0,
        b.0.total == a.0.total.wrapping_add(e.size),
        a.1@ matches ArchiveEventView::Started { files, bytes } && bytes == a.0.total && b.1@
            == (ArchiveEventView::Started {
            files: if e.is_dir {
                files
            } else {
                (files + 1) as usize
            },
            bytes: b.0.total,
        }),
{
    assert(longer.len() <= usize::MAX);
    let v = archive::entry_views(plan@);
    let w = archive::entry_views(longer@);
    let n = plan@.len() as int;
    assert(v.len() == n && w.len() == n + 1);
    assert forall|i: int| 0 <= i < n implies v[i] == w[i] by {
        assert(longer@[i] == plan@[i]);
    }
    lemma_counts_prefix(v, w, n);
    assert(w[n] == e@);
}

} // verus!
