//! Copying and moving files and folders: what is planned, what happens to
//! files that are already there, and what is counted.

use vstd::prelude::*;

use crate::bootable::Os;
use crate::order;
use crate::paths;
use crate::paths::{FilePath, PathView};
use crate::platform::ChunkedCopy;
use crate::{EngineError, EngineResult, ErrorView};

verus! {

/// What happens when the destination of a file already exists.
#[derive(Debug, Clone, Copy, PartialEq, Eq, Structural)]
pub enum OverwritePolicy {
    /// It is replaced.
    Always,
    /// It is left alone.
    Skip,
    /// It is left alone when it has the same size, and replaced otherwise.
    SkipIfSameSize,
}

#[derive(Debug, Clone, Copy, PartialEq, Eq, Structural)]
pub struct CopyOptions {
    pub overwrite: OverwritePolicy,
    /// Compare the contents of both files after copying.
    pub verify: bool,
    /// Give the copy the modification time of the source.
    pub preserve_times: bool,
    /// How many files are copied at the same time; 0 to choose by the machine.
    pub threads: usize,
    /// Allow the system's own ways of copying a whole file.
    pub use_fast_path: bool,
}

impl Default for CopyOptions {
    fn default() -> (r: CopyOptions)
        ensures
            r == (CopyOptions {
                overwrite: OverwritePolicy::SkipIfSameSize,
                verify: false,
                preserve_times: true,
                threads: 0,
                use_fast_path: true,
            }),
    {
        CopyOptions {
            overwrite: OverwritePolicy::SkipIfSameSize,
            verify: false,
            preserve_times: true,
            threads: 0,
            use_fast_path: true,
        }
    }
}

#[derive(Debug, Clone, Copy, PartialEq, Eq, Structural)]
pub struct CopySummary {
    pub files_copied: usize,
    pub files_skipped: usize,
    pub files_failed: usize,
    pub bytes_copied: u64,
}

impl Default for CopySummary {
    fn default() -> (r: CopySummary)
        ensures
            r == (CopySummary {
                files_copied: 0,
                files_skipped: 0,
                files_failed: 0,
                bytes_copied: 0,
            }),
    {
        CopySummary { files_copied: 0, files_skipped: 0, files_failed: 0, bytes_copied: 0 }
    }
}

/// What copying tells about its progress.
#[derive(Debug, PartialEq, Eq)]
pub enum CopyEvent {
    Started { total_files: usize, total_bytes: u64 },
    FileStarted { path: FilePath, size: u64 },
    FileProgress { path: FilePath, bytes_done: u64, size: u64 },
    FileVerified { path: FilePath },
    FileDone { path: FilePath },
    FileSkipped { path: FilePath, reason: String },
    FileError { path: FilePath, message: String },
    Finished(CopySummary),
    Cancelled,
}

/// What an event says, as characters.
#[verifier::ext_equal]
pub ghost enum CopyEventView {
    Started { total_files: usize, total_bytes: u64 },
    FileStarted { path: PathView, size: u64 },
    FileProgress { path: PathView, bytes_done: u64, size: u64 },
    FileVerified { path: PathView },
    FileDone { path: PathView },
    FileSkipped { path: PathView, reason: Seq<char> },
    FileError { path: PathView, message: Seq<char> },
    Finished(CopySummary),
    Cancelled,
}

impl View for CopyEvent {
    type V = CopyEventView;

    open spec fn view(&self) -> CopyEventView {
        match self {
            CopyEvent::Started { total_files, total_bytes } => CopyEventView::Started {
                total_files: *total_files,
                total_bytes: *total_bytes,
            },
            CopyEvent::FileStarted { path, size } => CopyEventView::FileStarted {
                path: path@,
                size: *size,
            },
            CopyEvent::FileProgress { path, bytes_done, size } => CopyEventView::FileProgress {
                path: path@,
                bytes_done: *bytes_done,
                size: *size,
            },
            CopyEvent::FileVerified { path } => CopyEventView::FileVerified { path: path@ },
            CopyEvent::FileDone { path } => CopyEventView::FileDone { path: path@ },
            CopyEvent::FileSkipped { path, reason } => CopyEventView::FileSkipped {
                path: path@,
                reason: reason@,
            },
            CopyEvent::FileError { path, message } => CopyEventView::FileError {
                path: path@,
                message: message@,
            },
            CopyEvent::Finished(summary) => CopyEventView::Finished(*summary),
            CopyEvent::Cancelled => CopyEventView::Cancelled,
        }
    }
}

pub open spec fn event_views(v: Seq<CopyEvent>) -> Seq<CopyEventView> {
    v.map_values(|e: CopyEvent| e@)
}

/// A file to copy.
#[derive(Debug, PartialEq, Eq)]
pub struct PlannedFile {
    pub src: FilePath,
    pub dst: FilePath,
    pub size: u64,
}

#[verifier::ext_equal]
pub ghost struct FileView {
    pub src: PathView,
    pub dst: PathView,
    pub size: u64,
}

impl View for PlannedFile {
    type V = FileView;

    open spec fn view(&self) -> FileView {
        FileView { src: self.src@, dst: self.dst@, size: self.size }
    }
}

impl Clone for PlannedFile {
    fn clone(&self) -> (r: PlannedFile)
        ensures
            r@ == self@,
    {
        PlannedFile { src: self.src.clone(), dst: self.dst.clone(), size: self.size }
    }
}

pub open spec fn file_views(v: Seq<PlannedFile>) -> Seq<FileView> {
    v.map_values(|f: PlannedFile| f@)
}

pub broadcast proof fn file_views_push(v: Seq<PlannedFile>, f: PlannedFile)
    ensures
        #[trigger] file_views(v.push(f)) == file_views(v).push(f@),
{
    assert(file_views(v.push(f)) =~= file_views(v).push(f@));
}

/// What a source turned out to be.
#[derive(Debug)]
pub enum SourceInfo {
    File(u64),
    /// A folder, with the files below it and their sizes.
    Folder(Vec<(FilePath, u64)>),
    /// Neither; nothing is copied of it.
    Other,
    Unreadable(EngineError),
}

/// The error for a source without a name.
pub open spec fn bad_path(p: PathView) -> ErrorView {
    ErrorView::Other("bad path "@ + p.shown())
}

/// The files to copy for the first `n` entries of a folder.
pub open spec fn folder_files(
    src: PathView,
    dst_root: PathView,
    entries: Seq<(FilePath, u64)>,
    n: int,
) -> Seq<FileView>
    decreases n,
{
    if n <= 0 {
        Seq::empty()
    } else {
        let (path, size) = entries[n - 1];
        folder_files(src, dst_root, entries, n - 1).push(
            FileView {
                src: path@,
                dst: dst_root.joined(paths::relative_to(path@, src)),
                size,
            },
        )
    }
}

/// The files to copy for one source, into `dest`.
pub open spec fn source_files(src: PathView, info: SourceInfo, dest: PathView) -> Result<
    Seq<FileView>,
    ErrorView,
> {
    match info {
        SourceInfo::Unreadable(e) => Err(e@),
        SourceInfo::Other => Ok(Seq::empty()),
        SourceInfo::File(size) => match src.file_name() {
            Some(name) => Ok(seq![FileView { src, dst: dest.child(name), size }]),
            None => Err(bad_path(src)),
        },
        SourceInfo::Folder(entries) => match src.file_name() {
            Some(name) => Ok(
                folder_files(src, dest.child(name), entries@, entries@.len() as int),
            ),
            None => Err(bad_path(src)),
        },
    }
}

/// The files to copy for the first `n` sources, in their order; the first
/// source that cannot be copied is an error.
pub open spec fn all_files(
    sources: Seq<(FilePath, SourceInfo)>,
    dest: PathView,
    n: int,
) -> Result<Seq<FileView>, ErrorView>
    decreases n,
{
    if n <= 0 {
        Ok(Seq::empty())
    } else {
        match all_files(sources, dest, n - 1) {
            Err(e) => Err(e),
            Ok(before) => match source_files(sources[n - 1].0@, sources[n - 1].1, dest) {
                Err(e) => Err(e),
                Ok(files) => Ok(before + files),
            },
        }
    }
}

pub open spec fn sizes(v: Seq<FileView>) -> Seq<u64> {
    v.map_values(|f: FileView| f.size)
}

/// Whether a plan has the given files, largest first.
pub open spec fn largest_first(files: Seq<FileView>, plan: Seq<FileView>) -> bool {
    exists|by_size: Seq<usize>| #[trigger]
        order::is_order(sizes(files), by_size) && plan == order::arranged(files, by_size)
}

fn bad_path_error(p: &FilePath) -> (e: EngineError)
    ensures
        e@ == bad_path(p@),
{
    let mut m = "bad path ".to_owned();
    m.append(p.display().as_str());
    EngineError::Other(m)
}

fn push_source(
    src: &FilePath,
    info: &SourceInfo,
    dest: &FilePath,
    plan: &mut Vec<PlannedFile>,
) -> (r: EngineResult<()>)
    ensures
        match source_files(src@, *info, dest@) {
            Ok(files) => r is Ok && file_views(final(plan)@) == file_views(old(plan)@) + files,
            Err(e) => r is Err && r->Err_0@ == e,
        },
{
    let ghost start = file_views(plan@);
    match info {
        SourceInfo::Unreadable(e) => Err(e.copy()),
        SourceInfo::Other => {
            proof {
                assert(start + Seq::<FileView>::empty() =~= start);
            }
            Ok(())
        },
        SourceInfo::File(size) => {
            let name = match src.file_name() {
                Some(n) => n,
                None => return Err(bad_path_error(src)),
            };
            let ghost before = plan@;
            let file = PlannedFile {
                src: src.clone(),
                dst: dest.child(name.as_str()),
                size: *size,
            };
            plan.push(file);
            proof {
                file_views_push(before, file);
                assert(file_views(plan@) =~= start + seq![file@]);
            }
            Ok(())
        },
        SourceInfo::Folder(entries) => {
            let name = match src.file_name() {
                Some(n) => n,
                None => return Err(bad_path_error(src)),
            };
            let dst_root = dest.child(name.as_str());
            proof {
                assert(start + Seq::<FileView>::empty() =~= start);
            }
            let mut i: usize = 0;
            while i < entries.len()
                invariant
                    i <= entries@.len(),
                    file_views(plan@) == start + folder_files(
                        src@,
                        dst_root@,
                        entries@,
                        i as int,
                    ),
                decreases entries@.len() - i,
            {
                let rel = match entries[i].0.strip_prefix(src) {
                    Some(rel) => rel,
                    None => entries[i].0.clone(),
                };
                let ghost before = plan@;
                let file = PlannedFile {
                    src: entries[i].0.clone(),
                    dst: dst_root.join(&rel),
                    size: entries[i].1,
                };
                plan.push(file);
                proof {
                    file_views_push(before, file);
                    assert(file_views(plan@) =~= start + folder_files(
                        src@,
                        dst_root@,
                        entries@,
                        i + 1,
                    ));
                }
                i = i + 1;
            }
            Ok(())
        },
    }
}

/// Plans the copy of the sources into `dest_dir`: the largest files come
/// first, so that several threads stay busy for longer.
pub fn plan_copy(sources: &Vec<(FilePath, SourceInfo)>, dest_dir: &FilePath) -> (r: EngineResult<
    Vec<PlannedFile>,
>)
    ensures
        match all_files(sources@, dest_dir@, sources@.len() as int) {
            Err(e) => r is Err && r->Err_0@ == e,
            Ok(files) => r is Ok && largest_first(files, file_views(r->Ok_0@)),
        },
{
    let mut plan: Vec<PlannedFile> = Vec::new();
    let ghost dest = dest_dir@;
    proof {
        assert(file_views(plan@) =~= Seq::<FileView>::empty());
    }
    let mut i: usize = 0;
    while i < sources.len()
        invariant
            i <= sources@.len(),
            dest == dest_dir@,
            all_files(sources@, dest, i as int) == Ok::<Seq<FileView>, ErrorView>(
                file_views(plan@),
            ),
        decreases sources@.len() - i,
    {
        match push_source(&sources[i].0, &sources[i].1, dest_dir, &mut plan) {
            Ok(_) => {},
            Err(e) => {
                proof {
                    lemma_first_error(sources@, dest, i + 1, sources@.len() as int);
                }
                return Err(e);
            },
        }
        i = i + 1;
    }
    let ghost files = file_views(plan@);
    let mut keys: Vec<u64> = Vec::new();
    let mut k: usize = 0;
    while k < plan.len()
        invariant
            k <= plan@.len(),
            keys@.len() == k,
            forall|j: int| 0 <= j < k ==> keys@[j] == plan@[j].size,
        decreases plan@.len() - k,
    {
        keys.push(plan[k].size);
        k = k + 1;
    }
    proof {
        assert(keys@ =~= sizes(files));
    }
    let by_size = order::largest_first(&keys);
    let mut sorted: Vec<PlannedFile> = Vec::new();
    let mut a: usize = 0;
    while a < by_size.len()
        invariant
            a <= by_size@.len(),
            sorted@.len() == a,
            order::is_order(keys@, by_size@),
            keys@.len() == plan@.len(),
            forall|j: int|
                0 <= j < a ==> (#[trigger] sorted@[j])@ == plan@[by_size@[j] as int]@,
        decreases by_size@.len() - a,
    {
        proof {
            assert(by_size@[a as int] < keys@.len());
        }
        sorted.push(plan[by_size[a]].clone());
        a = a + 1;
    }
    proof {
        assert(file_views(sorted@) =~= order::arranged(files, by_size@));
        assert(order::is_order(sizes(files), by_size@));
    }
    Ok(sorted)
}

proof fn lemma_first_error(sources: Seq<(FilePath, SourceInfo)>, dest: PathView, k: int, n: int)
    requires
        0 <= k <= n,
        all_files(sources, dest, k) is Err,
    ensures
        all_files(sources, dest, n) == all_files(sources, dest, k),
    decreases n,
{
    if k < n {
        lemma_first_error(sources, dest, k, n - 1);
    }
}

/// Bytes of the first `n` files, modulo 2^64.
pub open spec fn total_bytes(files: Seq<FileView>, n: int) -> u64
    decreases n,
{
    if n <= 0 {
        0
    } else {
        total_bytes(files, n - 1).wrapping_add(files[n - 1].size)
    }
}

/// The event that opens the work on a plan.
pub fn started(plan: &Vec<PlannedFile>) -> (event: CopyEvent)
    ensures
        event@ == (CopyEventView::Started {
            total_files: plan.len(),
            total_bytes: total_bytes(file_views(plan@), plan@.len() as int),
        }),
{
    let mut total: u64 = 0;
    let mut i: usize = 0;
    while i < plan.len()
        invariant
            i <= plan@.len(),
            total == total_bytes(file_views(plan@), i as int),
        decreases plan@.len() - i,
    {
        proof {
            assert(file_views(plan@)[i as int] == plan@[i as int]@);
        }
        total = total.wrapping_add(plan[i].size);
        i = i + 1;
    }
    CopyEvent::Started { total_files: plan.len(), total_bytes: total }
}

/// How many threads copy: what was asked for or, when nothing was, what the
/// machine has, from 2 to 8, and 4 when it does not say.
pub fn thread_count(requested: usize, available: Option<usize>) -> (n: usize)
    ensures
        n == (if requested != 0 {
            requested
        } else {
            match available {
                None => 4,
                Some(k) => if k < 2 {
                    2
                } else if k > 8 {
                    8
                } else {
                    k
                },
            }
        }),
{
    if requested != 0 {
        return requested;
    }
    match available {
        None => 4,
        Some(k) => {
            if k < 2 {
                2
            } else if k > 8 {
                8
            } else {
                k
            }
        },
    }
}

/// What happens to a file whose destination exists.
#[derive(Debug, PartialEq, Eq)]
pub enum ExistingAction {
    /// Leave it alone; the event says why.
    Skip(CopyEvent),
    /// Remove it and copy.
    Replace,
}

/// Whether a destination is left alone: `found` is `None` when there is none,
/// otherwise its size as far as it is known.
pub open spec fn is_kept(policy: OverwritePolicy, size: u64, found: Option<Option<u64>>) -> bool {
    match (found, policy) {
        (None, _) => false,
        (Some(_), OverwritePolicy::Always) => false,
        (Some(_), OverwritePolicy::Skip) => true,
        (Some(n), OverwritePolicy::SkipIfSameSize) => n == Some(size),
    }
}

/// Decides about a destination that exists; its size is not always known.
pub fn on_existing(file: &PlannedFile, policy: OverwritePolicy, dst_size: Option<u64>) -> (r:
    ExistingAction)
    ensures
        r is Skip == is_kept(policy, file.size, Some(dst_size)),
        match policy {
            OverwritePolicy::Always => r is Replace,
            OverwritePolicy::Skip => {
                &&& r matches ExistingAction::Skip(event)
                &&& event@ == (CopyEventView::FileSkipped {
                    path: file@.src,
                    reason: "destination exists"@,
                })
            },
            OverwritePolicy::SkipIfSameSize => if dst_size == Some(file.size) {
                &&& r matches ExistingAction::Skip(event)
                &&& event@ == (CopyEventView::FileSkipped {
                    path: file@.src,
                    reason: "already copied (same size)"@,
                })
            } else {
                r is Replace
            },
        },
{
    match policy {
        OverwritePolicy::Always => ExistingAction::Replace,
        OverwritePolicy::Skip => ExistingAction::Skip(
            CopyEvent::FileSkipped {
                path: file.src.clone(),
                reason: "destination exists".to_owned(),
            },
        ),
        OverwritePolicy::SkipIfSameSize => {
            let same = match dst_size {
                Some(n) => n == file.size,
                None => false,
            };
            if same {
                ExistingAction::Skip(
                    CopyEvent::FileSkipped {
                        path: file.src.clone(),
                        reason: "already copied (same size)".to_owned(),
                    },
                )
            } else {
                ExistingAction::Replace
            }
        },
    }
}

/// How a whole file is copied.
#[derive(Debug, Clone, Copy, PartialEq, Eq, Structural)]
pub enum CopyRoute {
    /// A clone that shares the data, where the file system has that.
    Clone,
    /// The system's own copy of a whole file.
    System,
    /// Piece by piece.
    Chunked,
}

/// The way of copying to try first.
pub open spec fn route_of(os: Os, options: CopyOptions) -> CopyRoute {
    match os {
        Os::MacOs if options.use_fast_path => CopyRoute::Clone,
        Os::Windows if options.use_fast_path && !options.verify => CopyRoute::System,
        _ => CopyRoute::Chunked,
    }
}

/// The way of copying to try first.
pub fn copy_route(os: Os, options: &CopyOptions) -> (r: CopyRoute)
    ensures
        r == route_of(os, *options),
{
    match os {
        Os::MacOs => {
            if options.use_fast_path {
                CopyRoute::Clone
            } else {
                CopyRoute::Chunked
            }
        },
        Os::Windows => {
            if options.use_fast_path && !options.verify {
                CopyRoute::System
            } else {
                CopyRoute::Chunked
            }
        },
        _ => CopyRoute::Chunked,
    }
}

/// Whether a failed clone only means that cloning is not possible here; the
/// codes that say so are in `cannot`.
pub fn clone_not_possible(code: Option<i32>, cannot: &Vec<i32>) -> (r: bool)
    ensures
        r == (code is Some && cannot@.contains(code->0)),
{
    match code {
        Some(c) => {
            let mut i: usize = 0;
            while i < cannot.len()
                invariant
                    i <= cannot@.len(),
                    code == Some(c),
                    forall|j: int| 0 <= j < i ==> cannot@[j] != c,
                decreases cannot@.len() - i,
            {
                if cannot[i] == c {
                    return true;
                }
                i = i + 1;
            }
            false
        },
        None => false,
    }
}

/// Judges a comparison of both files after copying.
pub fn verified(file: &PlannedFile, src_hash: &[u8; 32], dst_hash: &[u8; 32]) -> (r: EngineResult<
    CopyEvent,
>)
    ensures
        src_hash@ == dst_hash@ ==> r is Ok && r->Ok_0@ == (CopyEventView::FileVerified {
            path: file@.src,
        }),
        src_hash@ != dst_hash@ ==> r is Err && r->Err_0@ == ErrorView::Other(
            "verification failed for "@ + file@.src.shown(),
        ),
{
    if crate::bytes::same_bytes(src_hash, dst_hash) {
        Ok(CopyEvent::FileVerified { path: file.src.clone() })
    } else {
        let mut m = "verification failed for ".to_owned();
        m.append(file.src.display().as_str());
        Err(EngineError::Other(m))
    }
}

/// How one file was dealt with.
#[derive(Debug, Clone, Copy, PartialEq, Eq, Structural)]
pub enum CopyOutcome {
    Copied(u64),
    Skipped,
}

/// What copying one file asks for next.
#[derive(Debug, PartialEq, Eq)]
pub enum FileAsk {
    /// Create this folder.
    CreateParent(FilePath),
    /// Find out whether the destination exists, and its size.
    CheckDestination,
    /// Remove the destination; it does not matter whether that works.
    RemoveDestination,
    /// Copy the contents.
    Copy(CopyRoute),
    /// Give the destination the modification time of the source, if possible.
    SetTimes,
    /// Hash the contents of both files.
    HashBoth,
    /// The file is dealt with.
    Finished(EngineResult<CopyOutcome>),
}

/// The first step of copying a file: the folder that holds it.
pub fn copy_one_file(file: &PlannedFile) -> (ask: FileAsk)
    ensures
        match file@.dst.parent() {
            Some(parent) => ask matches FileAsk::CreateParent(p) && p@ == parent,
            None => ask is CheckDestination,
        },
{
    match file.dst.parent() {
        Some(parent) => FileAsk::CreateParent(parent),
        None => FileAsk::CheckDestination,
    }
}

/// What follows creating the folder.
pub fn after_parent(result: EngineResult<()>) -> (ask: FileAsk)
    ensures
        match result {
            Ok(_) => ask is CheckDestination,
            Err(e) => ask == FileAsk::Finished(Err(e)),
        },
{
    match result {
        Ok(_) => FileAsk::CheckDestination,
        Err(e) => FileAsk::Finished(Err(e)),
    }
}

/// The event that tells that a file is being copied.
pub fn file_started(file: &PlannedFile) -> (event: CopyEvent)
    ensures
        event@ == (CopyEventView::FileStarted { path: file@.src, size: file@.size }),
{
    CopyEvent::FileStarted { path: file.src.clone(), size: file.size }
}

/// The event that tells how much of a file is copied.
pub fn file_progress(file: &PlannedFile, bytes_done: u64) -> (event: CopyEvent)
    ensures
        event@ == (CopyEventView::FileProgress { path: file@.src, bytes_done, size: file@.size }),
{
    CopyEvent::FileProgress { path: file.src.clone(), bytes_done, size: file.size }
}

/// What follows a look at the destination: `None` when it does not exist,
/// otherwise its size as far as it is known.
pub fn after_check(
    file: &PlannedFile,
    options: &CopyOptions,
    os: Os,
    found: Option<Option<u64>>,
) -> (r: (Option<CopyEvent>, FileAsk))
    ensures
        r.1 is Finished == is_kept(options.overwrite, file.size, found),
        match found {
            None => {
                &&& r.0 is Some
                &&& r.0->0@ == (CopyEventView::FileStarted { path: file@.src, size: file@.size })
                &&& r.1 == FileAsk::Copy(route_of(os, *options))
            },
            Some(dst_size) => if options.overwrite is Skip {
                &&& r.0 is Some
                &&& r.0->0@ == (CopyEventView::FileSkipped {
                    path: file@.src,
                    reason: "destination exists"@,
                })
                &&& r.1 == FileAsk::Finished(Ok(CopyOutcome::Skipped))
            } else if options.overwrite is SkipIfSameSize && dst_size == Some(file.size) {
                &&& r.0 is Some
                &&& r.0->0@ == (CopyEventView::FileSkipped {
                    path: file@.src,
                    reason: "already copied (same size)"@,
                })
                &&& r.1 == FileAsk::Finished(Ok(CopyOutcome::Skipped))
            } else {
                r.0 is None && r.1 is RemoveDestination
            },
        },
{
    match found {
        None => (Some(file_started(file)), FileAsk::Copy(copy_route(os, options))),
        Some(dst_size) => match on_existing(file, options.overwrite, dst_size) {
            ExistingAction::Skip(event) => (
                Some(event),
                FileAsk::Finished(Ok(CopyOutcome::Skipped)),
            ),
            ExistingAction::Replace => (None, FileAsk::RemoveDestination),
        },
    }
}

/// What follows removing the destination: the copy, announced by an event.
pub fn after_remove(file: &PlannedFile, options: &CopyOptions, os: Os) -> (r: (CopyEvent, FileAsk))
    ensures
        r.0@ == (CopyEventView::FileStarted { path: file@.src, size: file@.size }),
        r.1 == FileAsk::Copy(route_of(os, *options)),
{
    (file_started(file), FileAsk::Copy(copy_route(os, options)))
}

/// What follows the copy of `bytes` bytes once the time is set.
pub fn after_times(file: &PlannedFile, options: &CopyOptions, bytes: u64) -> (r: (
    Option<CopyEvent>,
    FileAsk,
))
    ensures
        options.verify ==> r.0 is None && r.1 is HashBoth,
        !options.verify ==> {
            &&& r.0 is Some
            &&& r.0->0@ == (CopyEventView::FileDone { path: file@.src })
            &&& r.1 == FileAsk::Finished(Ok(CopyOutcome::Copied(bytes)))
        },
{
    if options.verify {
        (None, FileAsk::HashBoth)
    } else {
        (
            Some(CopyEvent::FileDone { path: file.src.clone() }),
            FileAsk::Finished(Ok(CopyOutcome::Copied(bytes))),
        )
    }
}

/// What follows the copy of the contents.
pub fn after_copy(file: &PlannedFile, options: &CopyOptions, result: EngineResult<u64>) -> (r: (
    Option<CopyEvent>,
    FileAsk,
))
    ensures
        match result {
            Err(e) => r.0 is None && r.1 == FileAsk::Finished(Err(e)),
            Ok(bytes) => if options.preserve_times {
                r.0 is None && r.1 is SetTimes
            } else if options.verify {
                r.0 is None && r.1 is HashBoth
            } else {
                &&& r.0 is Some
                &&& r.0->0@ == (CopyEventView::FileDone { path: file@.src })
                &&& r.1 == FileAsk::Finished(Ok(CopyOutcome::Copied(bytes)))
            },
        },
{
    match result {
        Err(e) => (None, FileAsk::Finished(Err(e))),
        Ok(bytes) => {
            if options.preserve_times {
                (None, FileAsk::SetTimes)
            } else {
                after_times(file, options, bytes)
            }
        },
    }
}

/// What follows hashing both files: the file is done only when the hashes are
/// the same.
pub fn after_hashes(
    file: &PlannedFile,
    bytes: u64,
    hashes: EngineResult<([u8; 32], [u8; 32])>,
) -> (r: (Vec<CopyEvent>, FileAsk))
    ensures
        match hashes {
            Err(e) => r.0@.len() == 0 && r.1 == FileAsk::Finished(Err(e)),
            Ok((src, dst)) => if src@ == dst@ {
                &&& event_views(r.0@) == seq![
                    CopyEventView::FileVerified { path: file@.src },
                    CopyEventView::FileDone { path: file@.src },
                ]
                &&& r.1 == FileAsk::Finished(Ok(CopyOutcome::Copied(bytes)))
            } else {
                &&& r.0@.len() == 0
                &&& r.1 matches FileAsk::Finished(Err(e))
                &&& e@ == ErrorView::Other("verification failed for "@ + file@.src.shown())
            },
        },
{
    let mut events: Vec<CopyEvent> = Vec::new();
    match hashes {
        Err(e) => (events, FileAsk::Finished(Err(e))),
        Ok((src, dst)) => match verified(file, &src, &dst) {
            Err(e) => (events, FileAsk::Finished(Err(e))),
            Ok(event) => {
                events.push(event);
                events.push(CopyEvent::FileDone { path: file.src.clone() });
                proof {
                    assert(event_views(events@) =~= seq![
                        CopyEventView::FileVerified { path: file@.src },
                        CopyEventView::FileDone { path: file@.src },
                    ]);
                }
                (events, FileAsk::Finished(Ok(CopyOutcome::Copied(bytes))))
            },
        },
    }
}

/// A file whose copy stopped before its end is copied again by the next run: at
/// the destination is the beginning of the file, and only the whole of it is
/// taken for a copy by its size. A run that replaces what is there copies it
/// in any case.
pub proof fn law_stopped_copy_is_copied_again(
    stopped: ChunkedCopy,
    source: Seq<u8>,
    policy: OverwritePolicy,
)
    requires
        stopped.start == 0,
        stopped.total_size == source.len(),
        stopped.copied <= source.len(),
        !(policy is Skip),
    ensures
        ({
            let left = stopped.left_behind(source);
            is_kept(policy, stopped.total_size, Some(Some(left.len() as u64))) ==> left == source
        }),
        stopped.copied < source.len() ==> !is_kept(
            policy,
            stopped.total_size,
            Some(Some(stopped.left_behind(source).len() as u64)),
        ),
{
    assert(source.take(source.len() as int) =~= source);
}

/// A plan has every file that was found, and no other, the largest first.
pub proof fn law_plan_is_complete(files: Seq<FileView>, plan: Seq<FileView>)
    requires
        largest_first(files, plan),
    ensures
        plan.len() == files.len(),
        forall|i: int| 0 <= i < files.len() ==> plan.contains(#[trigger] files[i]),
        forall|a: int| 0 <= a < plan.len() ==> files.contains(#[trigger] plan[a]),
        forall|a: int, b: int|
            0 <= a < b < plan.len() ==> (#[trigger] plan[a]).size >= (#[trigger] plan[b]).size,
{
    let by_size = choose|by_size: Seq<usize>| #[trigger]
        order::is_order(sizes(files), by_size) && plan == order::arranged(files, by_size);
    order::law_order_is_complete(sizes(files), by_size);
    assert forall|i: int| 0 <= i < files.len() implies plan.contains(#[trigger] files[i]) by {
        assert(order::lists(by_size, i));
        let a = choose|a: int| 0 <= a < by_size.len() && #[trigger] by_size[a] as int == i;
        assert(plan[a] == files[i]);
    }
    assert forall|a: int| 0 <= a < plan.len() implies files.contains(#[trigger] plan[a]) by {
        assert(by_size[a] < sizes(files).len());
        assert(plan[a] == files[by_size[a] as int]);
    }
    assert forall|a: int, b: int| 0 <= a < b < plan.len() implies (#[trigger] plan[a]).size >= (
    #[trigger] plan[b]).size by {
        assert(order::comes_first(sizes(files), by_size[a] as int, by_size[b] as int));
        assert(by_size[a] < sizes(files).len());
        assert(by_size[b] < sizes(files).len());
    }
}

/// What a plan came to so far.
#[derive(Debug, Clone, Copy, PartialEq, Eq, Structural)]
pub struct PlanResult {
    pub files_copied: usize,
    pub files_skipped: usize,
    pub files_failed: usize,
    pub bytes_copied: u64,
    pub cancelled: bool,
}

impl PlanResult {
    pub fn new() -> (r: PlanResult)
        ensures
            r == (PlanResult {
                files_copied: 0,
                files_skipped: 0,
                files_failed: 0,
                bytes_copied: 0,
                cancelled: false,
            }),
    {
        PlanResult {
            files_copied: 0,
            files_skipped: 0,
            files_failed: 0,
            bytes_copied: 0,
            cancelled: false,
        }
    }

    /// What a plan comes to when no file could be started.
    pub fn all_failed(plan: &Vec<PlannedFile>) -> (r: PlanResult)
        ensures
            r == (PlanResult {
                files_copied: 0,
                files_skipped: 0,
                files_failed: plan.len(),
                bytes_copied: 0,
                cancelled: false,
            }),
    {
        PlanResult {
            files_copied: 0,
            files_skipped: 0,
            files_failed: plan.len(),
            bytes_copied: 0,
            cancelled: false,
        }
    }

    /// Takes note that a file was not started because a stop was asked for.
    pub fn not_started(&mut self)
        ensures
            *final(self) == (PlanResult { cancelled: true, ..*old(self) }),
    {
        self.cancelled = true;
    }

    /// What the plan came to with one more file.
    pub open spec fn after(self, result: EngineResult<CopyOutcome>) -> PlanResult {
        match result {
            Ok(CopyOutcome::Copied(bytes)) => PlanResult {
                files_copied: self.files_copied.wrapping_add(1),
                bytes_copied: self.bytes_copied.wrapping_add(bytes),
                ..self
            },
            Ok(CopyOutcome::Skipped) => PlanResult {
                files_skipped: self.files_skipped.wrapping_add(1),
                ..self
            },
            Err(EngineError::Cancelled) => PlanResult { cancelled: true, ..self },
            Err(_) => PlanResult { files_failed: self.files_failed.wrapping_add(1), ..self },
        }
    }

    /// Takes note of how a file was dealt with. A failure brings an event.
    pub fn record(&mut self, file: &PlannedFile, result: EngineResult<CopyOutcome>) -> (event:
        Option<CopyEvent>)
        ensures
            *final(self) == old(self).after(result),
            match result {
                Ok(_) => event is None,
                Err(EngineError::Cancelled) => event is None,
                Err(e) => {
                    &&& event is Some
                    &&& event->0@ == (CopyEventView::FileError {
                        path: file@.src,
                        message: e@.sentence(),
                    })
                },
            },
    {
        match result {
            Ok(CopyOutcome::Copied(bytes)) => {
                self.files_copied = self.files_copied.wrapping_add(1);
                self.bytes_copied = self.bytes_copied.wrapping_add(bytes);
                None
            },
            Ok(CopyOutcome::Skipped) => {
                self.files_skipped = self.files_skipped.wrapping_add(1);
                None
            },
            Err(EngineError::Cancelled) => {
                self.cancelled = true;
                None
            },
            Err(e) => {
                self.files_failed = self.files_failed.wrapping_add(1);
                Some(CopyEvent::FileError { path: file.src.clone(), message: e.message() })
            },
        }
    }

    pub open spec fn summary(self) -> CopySummary {
        CopySummary {
            files_copied: self.files_copied,
            files_skipped: self.files_skipped,
            files_failed: self.files_failed,
            bytes_copied: self.bytes_copied,
        }
    }

    /// The summary of a copy and the event that ends it.
    pub fn finish(&self) -> (r: (CopySummary, CopyEvent))
        ensures
            r.0 == self.summary(),
            r.1@ == (if self.cancelled {
                CopyEventView::Cancelled
            } else {
                CopyEventView::Finished(self.summary())
            }),
    {
        let summary = CopySummary {
            files_copied: self.files_copied,
            files_skipped: self.files_skipped,
            files_failed: self.files_failed,
            bytes_copied: self.bytes_copied,
        };
        if self.cancelled {
            (summary, CopyEvent::Cancelled)
        } else {
            (summary, CopyEvent::Finished(summary))
        }
    }
}

/// The files among the first `n` of a plan that come from `src` or below it.
pub open spec fn files_of(plan: Seq<FileView>, src: PathView, n: int) -> Seq<FileView>
    decreases n,
{
    if n <= 0 {
        Seq::empty()
    } else if plan[n - 1].src.under(src) {
        files_of(plan, src, n - 1).push(plan[n - 1])
    } else {
        files_of(plan, src, n - 1)
    }
}

/// What moving does next.
#[derive(Debug, PartialEq, Eq)]
pub enum MoveTreeStep {
    /// Stop: the user asked for it.
    Stop,
    /// A source without a name; nothing is done.
    Skip,
    /// Rename the source, unless the destination exists.
    TryRename { src: FilePath, dst: FilePath },
    /// Every source was tried; what could not be renamed is copied.
    CopyRest,
}

/// The state of moving sources into a folder. Each source is renamed where
/// that works; what is left is copied and then removed.
#[derive(Debug)]
pub struct MoveRun {
    pub dest_dir: FilePath,
    pub sources: Vec<FilePath>,
    pub plan: Vec<PlannedFile>,
    pub index: usize,
    pub instant_files: usize,
    pub instant_bytes: u64,
    pub fallback_plan: Vec<PlannedFile>,
    pub fallback_sources: Vec<FilePath>,
}

impl MoveRun {
    pub open spec fn wf(self) -> bool {
        self.index <= self.sources@.len()
    }

    pub fn new(dest_dir: FilePath, sources: Vec<FilePath>, plan: Vec<PlannedFile>) -> (r: MoveRun)
        ensures
            r.wf(),
            r.dest_dir == dest_dir,
            r.sources == sources,
            r.plan == plan,
            r.index == 0,
            r.instant_files == 0,
            r.instant_bytes == 0,
            r.fallback_plan@.len() == 0,
            r.fallback_sources@.len() == 0,
    {
        MoveRun {
            dest_dir,
            sources,
            plan,
            index: 0,
            instant_files: 0,
            instant_bytes: 0,
            fallback_plan: Vec::new(),
            fallback_sources: Vec::new(),
        }
    }

    /// What to do next, given whether a stop was asked for.
    pub fn next(&mut self, cancelled: bool) -> (step: MoveTreeStep)
        requires
            old(self).wf(),
        ensures
            final(self).wf(),
            old(self).index == old(self).sources@.len() ==> step is CopyRest && *final(self)
                == *old(self),
            old(self).index < old(self).sources@.len() && cancelled ==> step is Stop
                && *final(self) == *old(self),
            old(self).index < old(self).sources@.len() && !cancelled ==> {
                let src = old(self).sources@[old(self).index as int]@;
                match src.file_name() {
                    None => step is Skip && *final(self) == (MoveRun {
                        index: (old(self).index + 1) as usize,
                        ..*old(self)
                    }),
                    Some(name) => {
                        &&& step matches MoveTreeStep::TryRename { src: from, dst }
                        &&& from@ == src
                        &&& dst@ == old(self).dest_dir@.child(name)
                        &&& *final(self) == *old(self)
                    },
                }
            },
    {
        let count: usize = self.sources.len();
        if self.index == count {
            return MoveTreeStep::CopyRest;
        }
        if cancelled {
            return MoveTreeStep::Stop;
        }
        match self.sources[self.index].file_name() {
            None => {
                self.index = self.index + 1;
                MoveTreeStep::Skip
            },
            Some(name) => MoveTreeStep::TryRename {
                src: self.sources[self.index].clone(),
                dst: self.dest_dir.child(name.as_str()),
            },
        }
    }

    /// Takes note of whether the current source could be renamed. If so, its
    /// files are done; otherwise they are left to be copied.
    pub fn renamed(&mut self, ok: bool) -> (events: Vec<CopyEvent>)
        requires
            old(self).wf(),
            old(self).index < old(self).sources@.len(),
        ensures
            final(self).wf(),
            ({
                let src = old(self).sources@[old(self).index as int]@;
                let plan = file_views(old(self).plan@);
                let files = files_of(plan, src, plan.len() as int);
                &&& final(self).sources == old(self).sources
                &&& final(self).dest_dir == old(self).dest_dir
                &&& final(self).plan == old(self).plan
                &&& final(self).index == old(self).index + 1
                &&& if ok {
                    &&& event_views(events@) == files.map_values(
                        |f: FileView| CopyEventView::FileDone { path: f.dst },
                    )
                    &&& final(self).instant_files == old(self).instant_files.wrapping_add(
                        files.len() as usize,
                    )
                    &&& final(self).instant_bytes == added_bytes(
                        old(self).instant_bytes,
                        files,
                        files.len() as int,
                    )
                    &&& final(self).fallback_plan == old(self).fallback_plan
                    &&& final(self).fallback_sources == old(self).fallback_sources
                } else {
                    &&& events@.len() == 0
                    &&& final(self).instant_files == old(self).instant_files
                    &&& final(self).instant_bytes == old(self).instant_bytes
                    &&& file_views(final(self).fallback_plan@) == file_views(
                        old(self).fallback_plan@,
                    ) + files
                    &&& paths::views(final(self).fallback_sources@) == paths::views(
                        old(self).fallback_sources@,
                    ).push(src)
                }
            }),
    {
        let ghost this = *self;
        let ghost plan = file_views(self.plan@);
        let ghost src = self.sources@[self.index as int]@;
        let source = self.sources[self.index].clone();
        let mut events: Vec<CopyEvent> = Vec::new();
        let ghost done_of = |f: FileView| CopyEventView::FileDone { path: f.dst };
        assert(self.sources.len() <= usize::MAX);
        self.index = self.index + 1;
        proof {
            assert(event_views(events@) =~= files_of(plan, src, 0).map_values(done_of));
            assert(file_views(this.fallback_plan@) + Seq::<FileView>::empty() =~= file_views(
                this.fallback_plan@,
            ));
        }
        let mut i: usize = 0;
        while i < self.plan.len()
            invariant
                i <= self.plan@.len(),
                self.plan == this.plan,
                self.sources == this.sources,
                self.dest_dir == this.dest_dir,
                self.index == this.index + 1,
                self.fallback_sources == this.fallback_sources,
                plan == file_views(this.plan@),
                source@ == src,
                done_of == (|f: FileView| CopyEventView::FileDone { path: f.dst }),
                ok ==> {
                    let files = files_of(plan, src, i as int);
                    &&& event_views(events@) == files.map_values(done_of)
                    &&& files.len() <= i
                    &&& self.instant_files == this.instant_files.wrapping_add(
                        files.len() as usize,
                    )
                    &&& self.instant_bytes == added_bytes(
                        this.instant_bytes,
                        files,
                        files.len() as int,
                    )
                    &&& self.fallback_plan == this.fallback_plan
                },
                !ok ==> {
                    &&& events@.len() == 0
                    &&& self.instant_files == this.instant_files
                    &&& self.instant_bytes == this.instant_bytes
                    &&& file_views(self.fallback_plan@) == file_views(this.fallback_plan@)
                        + files_of(plan, src, i as int)
                },
            decreases self.plan@.len() - i,
        {
            let ghost files = files_of(plan, src, i as int);
            let ghost more = files_of(plan, src, i + 1);
            proof {
                assert(plan[i as int] == this.plan@[i as int]@);
            }
            if self.plan[i].src.starts_with(&source) {
                if ok {
                    let ghost before = events@;
                    self.instant_files = self.instant_files.wrapping_add(1);
                    self.instant_bytes = self.instant_bytes.wrapping_add(self.plan[i].size);
                    let event = CopyEvent::FileDone { path: self.plan[i].dst.clone() };
                    events.push(event);
                    proof {
                        assert(event_views(events@) =~= event_views(before).push(event@));
                        assert(event@ == done_of(plan[i as int]));
                        assert(more.map_values(done_of) =~= files.map_values(done_of).push(
                            done_of(plan[i as int]),
                        ));
                        lemma_added_prefix(
                            this.instant_bytes,
                            files,
                            more,
                            files.len() as int,
                        );
                    }
                } else {
                    let ghost before = self.fallback_plan@;
                    let file = self.plan[i].clone();
                    self.fallback_plan.push(file);
                    proof {
                        file_views_push(before, file);
                        assert(file_views(self.fallback_plan@) =~= file_views(this.fallback_plan@)
                            + more);
                    }
                }
            }
            i = i + 1;
        }
        if !ok {
            let ghost before = self.fallback_sources@;
            self.fallback_sources.push(source);
            proof {
                paths::paths_push(before, source);
            }
        }
        events
    }

    /// The summary of a move and the event that ends it, from what the copy
    /// of the rest came to.
    pub fn finish(&self, result: &PlanResult) -> (r: (CopySummary, CopyEvent))
        ensures
            ({
                let summary = CopySummary {
                    files_copied: self.instant_files.wrapping_add(result.files_copied),
                    files_skipped: result.files_skipped,
                    files_failed: result.files_failed,
                    bytes_copied: self.instant_bytes.wrapping_add(result.bytes_copied),
                };
                &&& r.0 == summary
                &&& r.1@ == (if result.cancelled {
                    CopyEventView::Cancelled
                } else {
                    CopyEventView::Finished(summary)
                })
            }),
    {
        let summary = CopySummary {
            files_copied: self.instant_files.wrapping_add(result.files_copied),
            files_skipped: result.files_skipped,
            files_failed: result.files_failed,
            bytes_copied: self.instant_bytes.wrapping_add(result.bytes_copied),
        };
        if result.cancelled {
            (summary, CopyEvent::Cancelled)
        } else {
            (summary, CopyEvent::Finished(summary))
        }
    }
}

/// Bytes of the first `n` files added to `start`, modulo 2^64.
pub open spec fn added_bytes(start: u64, files: Seq<FileView>, n: int) -> u64
    decreases n,
{
    if n <= 0 {
        start
    } else {
        added_bytes(start, files, n - 1).wrapping_add(files[n - 1].size)
    }
}

proof fn lemma_added_prefix(start: u64, a: Seq<FileView>, b: Seq<FileView>, n: int)
    requires
        n <= a.len() <= b.len(),
        forall|i: int| 0 <= i < a.len() ==> a[i] == b[i],
    ensures
        added_bytes(start, a, n) == added_bytes(start, b, n),
    decreases n,
{
    if n > 0 {
        lemma_added_prefix(start, a, b, n - 1);
    }
}

/// Whether a plan came to nothing but copied files.
pub open spec fn all_copied(result: PlanResult) -> bool {
    result.files_failed == 0 && result.files_skipped == 0 && !result.cancelled
}

/// Whether the originals may be removed after the copy: only when every file
/// was copied. One that was skipped may differ from what is at its
/// destination.
pub fn may_remove_originals(result: &PlanResult) -> (r: bool)
    ensures
        r == all_copied(*result),
{
    result.files_failed == 0 && result.files_skipped == 0 && !result.cancelled
}

/// What a plan comes to when the first `n` of its files were dealt with as
/// given. A file that was not started counts like one that was stopped.
pub open spec fn tallied(outcomes: Seq<EngineResult<CopyOutcome>>, n: int) -> PlanResult
    decreases n,
{
    if n <= 0 {
        PlanResult {
            files_copied: 0,
            files_skipped: 0,
            files_failed: 0,
            bytes_copied: 0,
            cancelled: false,
        }
    } else {
        tallied(outcomes, n - 1).after(outcomes[n - 1])
    }
}

proof fn lemma_tallied(outcomes: Seq<EngineResult<CopyOutcome>>, n: int)
    requires
        0 <= n <= outcomes.len() <= usize::MAX,
    ensures
        tallied(outcomes, n).files_failed <= n,
        tallied(outcomes, n).files_skipped <= n,
        tallied(outcomes, n).files_failed == 0 && !tallied(outcomes, n).cancelled ==> forall|i: int|
            0 <= i < n ==> #[trigger] outcomes[i] is Ok,
        all_copied(tallied(outcomes, n)) ==> forall|i: int|
            0 <= i < n ==> #[trigger] outcomes[i] matches Ok(CopyOutcome::Copied(_)),
    decreases n,
{
    if n > 0 {
        lemma_tallied(outcomes, n - 1);
    }
}

/// Originals go only after every one of their files was copied: when they may
/// be removed, no file failed, was skipped or was stopped.
pub proof fn law_originals_go_only_after_copies(outcomes: Seq<EngineResult<CopyOutcome>>, i: int)
    requires
        outcomes.len() <= usize::MAX,
        0 <= i < outcomes.len(),
        all_copied(tallied(outcomes, outcomes.len() as int)),
    ensures
        outcomes[i] matches Ok(CopyOutcome::Copied(_)),
{
    lemma_tallied(outcomes, outcomes.len() as int);
}

/// What is at a path, in a tree of files with their contents.
pub open spec fn content_at(tree: Map<PathView, Seq<u8>>, p: PathView) -> Option<Seq<u8>> {
    if tree.dom().contains(p) {
        Some(tree[p])
    } else {
        None
    }
}

/// The size of what is at a path, as the check of a destination finds it.
pub open spec fn size_at(tree: Map<PathView, Seq<u8>>, p: PathView) -> Option<Option<u64>> {
    if tree.dom().contains(p) {
        Some(Some(tree[p].len() as u64))
    } else {
        None
    }
}

/// What a run does to the place of one file. A copied file is there, a skipped
/// one was left alone. One that was stopped, failed or not started leaves what
/// was there, nothing, or the beginning of the file; after a comparison that
/// failed anything may be there.
pub open spec fn dealt_with(
    options: CopyOptions,
    file: FileView,
    source: Seq<u8>,
    before: Map<PathView, Seq<u8>>,
    after: Map<PathView, Seq<u8>>,
    outcome: EngineResult<CopyOutcome>,
) -> bool {
    let left = content_at(after, file.dst);
    match outcome {
        Ok(CopyOutcome::Copied(_)) => left == Some(source),
        Ok(CopyOutcome::Skipped) => {
            &&& is_kept(options.overwrite, file.size, size_at(before, file.dst))
            &&& left == content_at(before, file.dst)
        },
        Err(_) => {
            ||| options.verify
            ||| left == content_at(before, file.dst)
            ||| left is None
            ||| exists|stopped: ChunkedCopy|
                stopped.start == 0 && stopped.total_size == file.size && stopped.copied
                    <= source.len() && left == Some(#[trigger] stopped.left_behind(source))
        },
    }
}

/// Whether a run over a plan, each file of which has a place of its own, took
/// one tree to another; `sources` are the contents of the files.
pub open spec fn ran(
    options: CopyOptions,
    plan: Seq<FileView>,
    sources: Seq<Seq<u8>>,
    before: Map<PathView, Seq<u8>>,
    after: Map<PathView, Seq<u8>>,
    outcomes: Seq<EngineResult<CopyOutcome>>,
) -> bool {
    &&& sources.len() == plan.len()
    &&& outcomes.len() == plan.len()
    &&& forall|i: int|
        0 <= i < plan.len() ==> (#[trigger] plan[i]).size == sources[i].len() && dealt_with(
            options,
            plan[i],
            sources[i],
            before,
            after,
            outcomes[i],
        )
}

/// An interrupted copy is completed by the next one: whatever the first run
/// came to, after a second one without a failure every file of the plan is at
/// its place, byte for byte. Something else of the same size that was there
/// before the first run is taken for a copy, and a run that leaves alone
/// whatever exists leaves the beginning of a file alone, too.
pub proof fn law_interrupted_copy_is_completed(
    options: CopyOptions,
    plan: Seq<FileView>,
    sources: Seq<Seq<u8>>,
    before: Map<PathView, Seq<u8>>,
    between: Map<PathView, Seq<u8>>,
    after: Map<PathView, Seq<u8>>,
    first: Seq<EngineResult<CopyOutcome>>,
    second: Seq<EngineResult<CopyOutcome>>,
)
    requires
        !(options.overwrite is Skip),
        !options.verify,
        plan.len() <= usize::MAX,
        ran(options, plan, sources, before, between, first),
        ran(options, plan, sources, between, after, second),
        tallied(second, second.len() as int).files_failed == 0,
        !tallied(second, second.len() as int).cancelled,
        forall|i: int|
            0 <= i < plan.len() && is_kept(
                options.overwrite,
                (#[trigger] plan[i]).size,
                size_at(before, plan[i].dst),
            ) ==> before[plan[i].dst] == sources[i],
    ensures
        forall|i: int|
            0 <= i < plan.len() ==> content_at(after, (#[trigger] plan[i]).dst) == Some(sources[i]),
{
    lemma_tallied(second, second.len() as int);
    assert forall|i: int| 0 <= i < plan.len() implies content_at(after, (#[trigger] plan[i]).dst)
        == Some(sources[i]) by {
        let source = sources[i];
        assert(second[i] is Ok);
        assert(source.take(source.len() as int) =~= source);
        assert(dealt_with(options, plan[i], source, before, between, first[i]));
        assert(dealt_with(options, plan[i], source, between, after, second[i]));
        if second[i] matches Ok(CopyOutcome::Skipped) {
            let left = content_at(between, plan[i].dst);
            assert(left is Some);
            assert(left->0.len() as u64 == plan[i].size);
            if first[i] is Err && left != content_at(before, plan[i].dst) {
                let stopped = choose|stopped: ChunkedCopy|
                    stopped.start == 0 && stopped.total_size == plan[i].size && stopped.copied
                        <= source.len() && left == Some(#[trigger] stopped.left_behind(source));
                law_stopped_copy_is_copied_again(stopped, source, options.overwrite);
            }
        }
    }
}

/// The event for an original that could not be removed.
pub fn not_removed(src: &FilePath, message: &str) -> (event: CopyEvent)
    ensures
        event@ == (CopyEventView::FileError {
            path: src@,
            message: "copied but could not remove original: "@ + message@,
        }),
{
    let mut m = "copied but could not remove original: ".to_owned();
    m.append(message);
    CopyEvent::FileError { path: src.clone(), message: m }
}

proof fn lemma_folder_file(
    src: PathView,
    dst_root: PathView,
    entries: Seq<(FilePath, u64)>,
    n: int,
    i: int,
)
    requires
        0 <= i < n <= entries.len(),
    ensures
        folder_files(src, dst_root, entries, n).len() == n,
        folder_files(src, dst_root, entries, n)[i] == (FileView {
            src: entries[i].0@,
            dst: dst_root.joined(paths::relative_to(entries[i].0@, src)),
            size: entries[i].1,
        }),
    decreases n,
{
    assert(folder_files(src, dst_root, entries, 0).len() == 0);
    if n > 1 {
        let k = if i < n - 1 {
            i
        } else {
            0
        };
        lemma_folder_file(src, dst_root, entries, n - 1, k);
    }
}

proof fn lemma_below(path: PathView, src: PathView, rel: Seq<Seq<char>>)
    requires
        path.root == src.root,
        path.parts == src.parts + rel,
    ensures
        paths::relative_to(path, src) == (PathView { root: Seq::empty(), parts: rel }),
{
    assert(path.parts.take(src.parts.len() as int) =~= src.parts);
    assert(path.parts.skip(src.parts.len() as int) =~= rel);
}

proof fn lemma_source_in_plan(
    sources: Seq<(FilePath, SourceInfo)>,
    dest: PathView,
    n: int,
    j: int,
    f: FileView,
)
    requires
        0 <= j < n <= sources.len(),
        all_files(sources, dest, n) is Ok,
    ensures
        source_files(sources[j].0@, sources[j].1, dest) is Ok,
        source_files(sources[j].0@, sources[j].1, dest)->Ok_0.contains(f) ==> all_files(
            sources,
            dest,
            n,
        )->Ok_0.contains(f),
    decreases n,
{
    let before = all_files(sources, dest, n - 1)->Ok_0;
    let all = all_files(sources, dest, n)->Ok_0;
    if j == n - 1 {
        let more = source_files(sources[j].0@, sources[j].1, dest)->Ok_0;
        if more.contains(f) {
            let k = choose|k: int| 0 <= k < more.len() && more[k] == f;
            assert(all[before.len() + k] == f);
        }
    } else {
        lemma_source_in_plan(sources, dest, n - 1, j, f);
        if before.contains(f) {
            let k = choose|k: int| 0 <= k < before.len() && before[k] == f;
            assert(all[k] == f);
        }
    }
}

/// A copied folder keeps its shape: a file that lies in the source under the
/// components `rel`, at whatever depth, is copied with its size to a place
/// below the destination under the name of the source followed by the same
/// components.
pub proof fn law_copied_folder_keeps_its_shape(
    sources: &Vec<(FilePath, SourceInfo)>,
    dest_dir: &FilePath,
    r: EngineResult<Vec<PlannedFile>>,
    j: int,
    i: int,
    rel: Seq<Seq<char>>,
)
    requires
        call_ensures(plan_copy, (sources, dest_dir), r),
        r is Ok,
        0 <= j < sources@.len(),
        sources@[j].1 is Folder,
        0 <= i < sources@[j].1->Folder_0@.len(),
        sources@[j].1->Folder_0@[i].0@.root == sources@[j].0@.root,
        sources@[j].1->Folder_0@[i].0@.parts == sources@[j].0@.parts + rel,
    ensures
        sources@[j].0@.parts.len() > 0,
        exists|k: int|
            0 <= k < r->Ok_0@.len() && (#[trigger] r->Ok_0@[k])@.src
                == sources@[j].1->Folder_0@[i].0@ && r->Ok_0@[k].size
                == sources@[j].1->Folder_0@[i].1 && r->Ok_0@[k]@.dst.root == dest_dir@.root
                && r->Ok_0@[k]@.dst.parts == dest_dir@.parts + seq![sources@[j].0@.parts.last()]
                + rel,
{
    let src = sources@[j].0@;
    let entries = sources@[j].1->Folder_0@;
    let files = all_files(sources@, dest_dir@, sources@.len() as int)->Ok_0;
    let plan = file_views(r->Ok_0@);
    let name = src.file_name()->0;
    lemma_source_in_plan(
        sources@,
        dest_dir@,
        sources@.len() as int,
        j,
        FileView {
            src: entries[i].0@,
            dst: dest_dir@.child(name).joined(paths::relative_to(entries[i].0@, src)),
            size: entries[i].1,
        },
    );
    lemma_folder_file(src, dest_dir@.child(name), entries, entries.len() as int, i);
    lemma_below(entries[i].0@, src, rel);
    let f = FileView {
        src: entries[i].0@,
        dst: dest_dir@.child(name).joined(paths::relative_to(entries[i].0@, src)),
        size: entries[i].1,
    };
    assert(source_files(src, sources@[j].1, dest_dir@)->Ok_0[i] == f);
    assert(files.contains(f));
    law_plan_is_complete(files, plan);
    let a = choose|a: int| 0 <= a < files.len() && files[a] == f;
    assert(plan.contains(files[a]));
    let k = choose|k: int| 0 <= k < plan.len() && plan[k] == f;
    assert(r->Ok_0@[k]@ == f);
    assert(f.dst.parts =~= dest_dir@.parts + seq![src.parts.last()] + rel);
}

/// A single file is copied with its size to the destination, under its name.
pub proof fn law_copied_file_keeps_its_name(
    sources: &Vec<(FilePath, SourceInfo)>,
    dest_dir: &FilePath,
    r: EngineResult<Vec<PlannedFile>>,
    j: int,
)
    requires
        call_ensures(plan_copy, (sources, dest_dir), r),
        r is Ok,
        0 <= j < sources@.len(),
        sources@[j].1 is File,
    ensures
        sources@[j].0@.parts.len() > 0,
        exists|k: int|
            0 <= k < r->Ok_0@.len() && (#[trigger] r->Ok_0@[k])@.src == sources@[j].0@
                && r->Ok_0@[k].size == sources@[j].1->File_0 && r->Ok_0@[k]@.dst.root
                == dest_dir@.root && r->Ok_0@[k]@.dst.parts == dest_dir@.parts + seq![
                sources@[j].0@.parts.last(),
            ],
{
    let src = sources@[j].0@;
    let files = all_files(sources@, dest_dir@, sources@.len() as int)->Ok_0;
    let plan = file_views(r->Ok_0@);
    let f = FileView {
        src,
        dst: dest_dir@.child(src.file_name()->0),
        size: sources@[j].1->File_0,
    };
    lemma_source_in_plan(sources@, dest_dir@, sources@.len() as int, j, f);
    assert(source_files(src, sources@[j].1, dest_dir@)->Ok_0[0] == f);
    assert(files.contains(f));
    law_plan_is_complete(files, plan);
    let a = choose|a: int| 0 <= a < files.len() && files[a] == f;
    assert(plan.contains(files[a]));
    let k = choose|k: int| 0 <= k < plan.len() && plan[k] == f;
    assert(r->Ok_0@[k]@ == f);
    assert(f.dst.parts =~= dest_dir@.parts + seq![src.parts.last()]);
}

/// Different files of one folder are copied to different places, each of them
/// once, the largest first.
pub proof fn law_files_of_a_folder_do_not_collide(
    sources: &Vec<(FilePath, SourceInfo)>,
    dest_dir: &FilePath,
    r: EngineResult<Vec<PlannedFile>>,
    k: int,
    m: int,
)
    requires
        call_ensures(plan_copy, (sources, dest_dir), r),
        r is Ok,
        sources@.len() == 1,
        sources@[0].1 is Folder,
        forall|i: int|
            0 <= i < sources@[0].1->Folder_0@.len() ==> (
            #[trigger] sources@[0].1->Folder_0@[i]).0@.under(sources@[0].0@),
        0 <= k < m < r->Ok_0@.len(),
    ensures
        r->Ok_0@.len() == sources@[0].1->Folder_0@.len(),
        r->Ok_0@[k].size >= r->Ok_0@[m].size,
        r->Ok_0@[k]@.src != r->Ok_0@[m]@.src ==> r->Ok_0@[k]@.dst != r->Ok_0@[m]@.dst,
{
    let src = sources@[0].0@;
    let entries = sources@[0].1->Folder_0@;
    let n = entries.len() as int;
    let root = dest_dir@.child(src.file_name()->0);
    let plan = file_views(r->Ok_0@);
    assert(all_files(sources@, dest_dir@, 0) is Ok);
    let files = all_files(sources@, dest_dir@, 1)->Ok_0;
    assert(files =~= folder_files(src, root, entries, n));
    law_plan_is_complete(files, plan);
    assert(plan[k] == r->Ok_0@[k]@ && plan[m] == r->Ok_0@[m]@);
    if n == 0 {
        assert(files.len() == 0);
    } else {
        lemma_folder_file(src, root, entries, n, 0);
        assert(files.contains(plan[k]) && files.contains(plan[m]));
        let a = choose|a: int| 0 <= a < files.len() && files[a] == plan[k];
        let b = choose|b: int| 0 <= b < files.len() && files[b] == plan[m];
        lemma_folder_file(src, root, entries, n, a);
        lemma_folder_file(src, root, entries, n, b);
        paths::law_strip_then_join(entries[a].0@, src);
        paths::law_strip_then_join(entries[b].0@, src);
        let x = paths::relative_to(entries[a].0@, src);
        let y = paths::relative_to(entries[b].0@, src);
        if plan[k].dst == plan[m].dst {
            assert((root.parts + x.parts).skip(root.parts.len() as int) =~= x.parts);
            assert((root.parts + y.parts).skip(root.parts.len() as int) =~= y.parts);
        }
    }
}

/// What stands at a destination is replaced only where that was allowed: not
/// at all by a run that skips what exists and, by one that resumes, only when
/// its size is another one; a run that replaces always does. A file without
/// anything at its destination is always copied.
pub proof fn law_existing_files_are_protected(
    file: &PlannedFile,
    options: &CopyOptions,
    os: Os,
    found: Option<Option<u64>>,
    r: (Option<CopyEvent>, FileAsk),
)
    requires
        call_ensures(after_check, (file, options, os, found), r),
    ensures
        found is None ==> r.1 is Copy,
        found is Some && options.overwrite is Always ==> r.1 is RemoveDestination,
        found is Some && options.overwrite is Skip ==> r.1 == FileAsk::Finished(
            Ok(CopyOutcome::Skipped),
        ),
        found is Some && options.overwrite is SkipIfSameSize && found->0 == Some(file.size)
            ==> r.1 == FileAsk::Finished(Ok(CopyOutcome::Skipped)),
        found is Some && options.overwrite is SkipIfSameSize && found->0 != Some(file.size)
            ==> r.1 is RemoveDestination,
{
}

/// With verification, no file counts as copied before the hashes of both files
/// were found to be the same; without it, a file whose bytes were copied does.
pub proof fn law_nothing_counts_unverified(
    file: &PlannedFile,
    options: &CopyOptions,
    bytes: u64,
    copied: (Option<CopyEvent>, FileAsk),
    timed: (Option<CopyEvent>, FileAsk),
    hashes: EngineResult<([u8; 32], [u8; 32])>,
    compared: (Vec<CopyEvent>, FileAsk),
)
    requires
        call_ensures(after_copy, (file, options, Ok::<u64, EngineError>(bytes)), copied),
        call_ensures(after_times, (file, options, bytes), timed),
        call_ensures(after_hashes, (file, bytes, hashes), compared),
    ensures
        options.verify ==> !(copied.1 is Finished) && !(timed.1 is Finished),
        options.preserve_times ==> copied.1 is SetTimes,
        !options.verify ==> timed.1 == FileAsk::Finished(Ok(CopyOutcome::Copied(bytes))),
        (compared.1 == FileAsk::Finished(Ok(CopyOutcome::Copied(bytes)))) == (hashes is Ok
            && hashes->Ok_0.0@ == hashes->Ok_0.1@),
        compared.1 is Finished,
        hashes is Ok && hashes->Ok_0.0@ != hashes->Ok_0.1@ ==> compared.1->Finished_0 is Err,
{
}

/// Every file that was dealt with is counted exactly once, as copied, as
/// skipped or as failed, unless a stop ended it; and only copied bytes count.
pub proof fn law_every_file_is_counted_once(
    result: &mut PlanResult,
    file: &PlannedFile,
    outcome: EngineResult<CopyOutcome>,
    event: Option<CopyEvent>,
)
    requires
        call_ensures(PlanResult::record, (result, file, outcome), event),
        result.files_copied < usize::MAX,
        result.files_skipped < usize::MAX,
        result.files_failed < usize::MAX,
    ensures
        ({
            let before = *old(result);
            let after = *final(result);
            let more = after.files_copied + after.files_skipped + after.files_failed
                - before.files_copied - before.files_skipped - before.files_failed;
            &&& before.files_copied <= after.files_copied
            &&& before.files_skipped <= after.files_skipped
            &&& before.files_failed <= after.files_failed
            &&& more == 1 || (more == 0 && after.cancelled)
            &&& outcome matches Ok(CopyOutcome::Copied(n)) ==> after.files_copied
                == before.files_copied + 1 && (before.bytes_copied + n <= u64::MAX
                ==> after.bytes_copied == before.bytes_copied + n)
            &&& outcome is Ok ==> after.cancelled == before.cancelled && after.files_failed
                == before.files_failed
            &&& outcome is Err ==> after.bytes_copied == before.bytes_copied
                && after.files_copied == before.files_copied && after.files_skipped
                == before.files_skipped
            &&& outcome == Err::<CopyOutcome, EngineError>(EngineError::Cancelled) ==> more == 0
            &&& event is Some ==> outcome is Err
        }),
{
}

/// Originals are removed only when nothing failed, nothing was skipped and
/// nobody asked for a stop.
pub proof fn law_originals_stay_unless_all_was_copied(result: &PlanResult, r: bool)
    requires
        call_ensures(may_remove_originals, (result,), r),
    ensures
        r ==> result.files_failed == 0,
        r ==> result.files_skipped == 0,
        r ==> !result.cancelled,
        result.files_failed == 0 && result.files_skipped == 0 && !result.cancelled ==> r,
{
}

/// A source is renamed into the destination under its own name; when that
/// works its files are done and are not copied, otherwise it waits to be
/// copied and removed, with all of its files.
pub proof fn law_moved_sources_keep_their_names(
    run: &mut MoveRun,
    cancelled: bool,
    step: MoveTreeStep,
)
    requires
        call_ensures(MoveRun::next, (run, cancelled), step),
        run.wf(),
    ensures
        step is CopyRest == (old(run).index == old(run).sources@.len()),
        step is Stop ==> cancelled,
        step matches MoveTreeStep::TryRename { src, dst } ==> {
            &&& !cancelled
            &&& src@ == old(run).sources@[old(run).index as int]@
            &&& dst@.root == old(run).dest_dir@.root
            &&& dst@.parts == old(run).dest_dir@.parts + seq![src@.parts.last()]
        },
{
    if step is TryRename {
        let dst = step->TryRename_dst;
        let src = step->TryRename_src;
        assert(dst@.parts =~= run.dest_dir@.parts + seq![src@.parts.last()]);
    }
}

proof fn lemma_files_of(plan: Seq<FileView>, src: PathView, n: int)
    requires
        0 <= n <= plan.len(),
    ensures
        files_of(plan, src, n).len() <= n,
        forall|i: int|
            0 <= i < n && (#[trigger] plan[i]).src.under(src) ==> files_of(plan, src, n).contains(
                plan[i],
            ),
        forall|k: int|
            0 <= k < files_of(plan, src, n).len() ==> plan.contains(
                #[trigger] files_of(plan, src, n)[k],
            ) && files_of(plan, src, n)[k].src.under(src),
    decreases n,
{
    if n > 0 {
        lemma_files_of(plan, src, n - 1);
        let before = files_of(plan, src, n - 1);
        let all = files_of(plan, src, n);
        assert forall|i: int| 0 <= i < n && (#[trigger] plan[i]).src.under(src) implies all.contains(
            plan[i],
        ) by {
            if i == n - 1 {
                assert(all[before.len() as int] == plan[i]);
            } else {
                let k = choose|k: int| 0 <= k < before.len() && before[k] == plan[i];
                assert(all[k] == plan[i]);
            }
        }
        assert forall|k: int| 0 <= k < all.len() implies plan.contains(#[trigger] all[k])
            && all[k].src.under(src) by {
            if k < before.len() {
                assert(all[k] == before[k]);
            } else {
                assert(all[k] == plan[n - 1]);
            }
        }
    }
}

/// A source that could not be renamed is left to be copied and removed, with
/// exactly those of the planned files that lie in it; one that was renamed
/// leaves nothing to be copied.
pub proof fn law_what_was_not_renamed_is_copied(
    run: &mut MoveRun,
    ok: bool,
    events: Vec<CopyEvent>,
)
    requires
        call_ensures(MoveRun::renamed, (run, ok), events),
        run.index < run.sources@.len(),
    ensures
        final(run).index == old(run).index + 1,
        final(run).sources == old(run).sources,
        final(run).plan == old(run).plan,
        ok ==> final(run).fallback_plan == old(run).fallback_plan,
        ok ==> final(run).fallback_sources == old(run).fallback_sources,
        !ok ==> final(run).instant_files == old(run).instant_files,
        !ok ==> paths::views(final(run).fallback_sources@) == paths::views(
            old(run).fallback_sources@,
        ).push(old(run).sources@[old(run).index as int]@),
        !ok ==> forall|i: int|
            0 <= i < old(run).plan@.len() && (#[trigger] old(run).plan@[i])@.src.root
                == old(run).sources@[old(run).index as int]@.root && old(run).sources@[old(run).index as int]@.parts.is_prefix_of(old(run).plan@[i]@.src.parts)
                ==> file_views(final(run).fallback_plan@).contains(old(run).plan@[i]@),
        !ok ==> forall|k: int|
            old(run).fallback_plan@.len() <= k < final(run).fallback_plan@.len() ==> old(run).sources@[old(run).index as int]@.parts.is_prefix_of(
                (#[trigger] final(run).fallback_plan@[k])@.src.parts,
            ) && file_views(old(run).plan@).contains(final(run).fallback_plan@[k]@),
{
    let src = run.sources@[run.index as int]@;
    let plan = file_views(run.plan@);
    let n = plan.len() as int;
    let files = files_of(plan, src, n);
    lemma_files_of(plan, src, n);
    if !ok {
        let before = file_views(run.fallback_plan@);
        let after = file_views(final(run).fallback_plan@);
        assert(after == before + files);
        assert(after.len() == final(run).fallback_plan@.len());
        assert forall|i: int|
            0 <= i < run.plan@.len() && (#[trigger] run.plan@[i])@.src.root == src.root
                && src.parts.is_prefix_of(run.plan@[i]@.src.parts) implies after.contains(
            run.plan@[i]@,
        ) by {
            let f = run.plan@[i]@;
            assert(plan[i] == f);
            assert(f.src.parts.take(src.parts.len() as int) =~= src.parts);
            let k = choose|k: int| 0 <= k < files.len() && files[k] == plan[i];
            assert(after[before.len() + k] == f);
        }
        assert forall|k: int|
            run.fallback_plan@.len() <= k < final(run).fallback_plan@.len() implies src.parts.is_prefix_of(
            (#[trigger] final(run).fallback_plan@[k])@.src.parts,
        ) && plan.contains(final(run).fallback_plan@[k]@) by {
            let f = final(run).fallback_plan@[k]@;
            assert(after[k] == f);
            assert((before + files)[k] == files[k - before.len()]);
            assert(plan.contains(files[k - before.len()]));
            assert(src.parts =~= f.src.parts.subrange(0, src.parts.len() as int));
        }
    }
}

proof fn lemma_total_prefix(a: Seq<FileView>, b: Seq<FileView>, n: int)
    requires
        0 <= n <= a.len(),
        n <= b.len(),
        forall|i: int| 0 <= i < n ==> a[i] == b[i],
    ensures
        total_bytes(a, n) == total_bytes(b, n),
    decreases n,
{
    if n > 0 {
        lemma_total_prefix(a, b, n - 1);
    }
}

/// The totals told at the start count every planned file once, with its size:
/// one more file adds one to the files and its size to the bytes.
pub proof fn law_totals_count_every_file(
    plan: &Vec<PlannedFile>,
    longer: &Vec<PlannedFile>,
    f: PlannedFile,
    a: CopyEvent,
    b: CopyEvent,
    empty: &Vec<PlannedFile>,
    nothing: CopyEvent,
)
    requires
        longer@ == plan@.push(f),
        empty@.len() == 0,
        call_ensures(started, (plan,), a),
        call_ensures(started, (longer,), b),
        call_ensures(started, (empty,), nothing),
    ensures
        nothing@ == (CopyEventView::Started { total_files: 0, total_bytes: 0 }),
        a@ matches CopyEventView::Started { total_files: n, total_bytes: s } && b@
            == (CopyEventView::Started {
            total_files: (n + 1) as usize,
            total_bytes: s.wrapping_add(f.size),
        }) && n == plan@.len(),
{
    assert(longer.len() <= usize::MAX);
    let v = file_views(plan@);
    let w = file_views(longer@);
    let n = plan@.len() as int;
    assert(v.len() == n && w.len() == n + 1);
    assert forall|i: int| 0 <= i < n implies v[i] == w[i] by {
        assert(longer@[i] == plan@[i]);
    }
    lemma_total_prefix(v, w, n);
    assert(w[n] == f@);
}

/// A file that is there is left alone or replaced as the user chose: always
/// replaced, never, or only where the sizes differ.
pub proof fn law_choice_decides_on_existing_files(
    file: &PlannedFile,
    size: Option<u64>,
    always: ExistingAction,
    never: ExistingAction,
    resumed: ExistingAction,
)
    requires
        call_ensures(on_existing, (file, OverwritePolicy::Always, size), always),
        call_ensures(on_existing, (file, OverwritePolicy::Skip, size), never),
        call_ensures(on_existing, (file, OverwritePolicy::SkipIfSameSize, size), resumed),
    ensures
        always is Replace,
        never is Skip,
        resumed is Skip <==> size == Some(file.size),
        never matches ExistingAction::Skip(event) && (
        event@ matches CopyEventView::FileSkipped { path, .. } && path == file.src@),
{
}

/// A copy counts as verified just where both hashes agree.
pub proof fn law_verified_means_equal(
    file: &PlannedFile,
    a: &[u8; 32],
    b: &[u8; 32],
    r: EngineResult<CopyEvent>,
    i: int,
)
    requires
        call_ensures(verified, (file, a, b), r),
        0 <= i < 32,
    ensures
        r is Ok ==> a@[i] == b@[i],
        a@ == b@ ==> r is Ok,
{
}

/// What must be compared afterwards is never left to a copy by the system alone,
/// and no shortcut is taken where none is wanted.
pub proof fn law_shortcuts_only_where_wanted(os: Os, options: &CopyOptions, r: CopyRoute)
    requires
        call_ensures(copy_route, (os, options), r),
    ensures
        !options.use_fast_path ==> r is Chunked,
        options.verify ==> !(r is System),
        r is Clone <==> os is MacOs && options.use_fast_path,
        r is System <==> os is Windows && options.use_fast_path && !options.verify,
{
}

/// A file is copied into the folder that its destination lies in, and not at all
/// where that folder cannot be made.
pub proof fn law_folder_comes_before_the_file(
    file: &PlannedFile,
    ask: FileAsk,
    made: EngineResult<()>,
    next: FileAsk,
)
    requires
        file.dst@.parts.len() > 0,
        call_ensures(copy_one_file, (file,), ask),
        call_ensures(after_parent, (made,), next),
    ensures
        ask matches FileAsk::CreateParent(p) && p@.root == file.dst@.root && p@.parts
            == file.dst@.parts.drop_last(),
        made is Ok ==> next is CheckDestination,
        made is Err ==> (next matches FileAsk::Finished(r) && r is Err),
{
}

/// The number of threads is what was asked for; where that is left open it
/// follows the machine, from two to eight.
pub proof fn law_threads_follow_the_machine(requested: usize, available: Option<usize>, n: usize)
    requires
        call_ensures(thread_count, (requested, available), n),
    ensures
        n > 0,
        requested > 0 ==> n == requested,
        requested == 0 ==> 2 <= n <= 8,
        requested == 0 && available is Some && 2 <= available->0 <= 8 ==> n == available->0,
{
}

/// What is told at the end is what was counted, and a stop is told as one.
pub proof fn law_the_end_tells_what_was_counted(
    result: &PlanResult,
    r: (CopySummary, CopyEvent),
    run: &MoveRun,
    m: (CopySummary, CopyEvent),
)
    requires
        call_ensures(PlanResult::finish, (result,), r),
        call_ensures(MoveRun::finish, (run, result), m),
        run.instant_files + result.files_copied <= usize::MAX,
        run.instant_bytes + result.bytes_copied <= u64::MAX,
    ensures
        r.0.files_copied == result.files_copied,
        r.0.files_skipped == result.files_skipped,
        r.0.files_failed == result.files_failed,
        r.0.bytes_copied == result.bytes_copied,
        result.cancelled ==> r.1@ is Cancelled && m.1@ is Cancelled,
        !result.cancelled ==> r.1@ == CopyEventView::Finished(r.0) && m.1@
            == CopyEventView::Finished(m.0),
        m.0.files_copied == run.instant_files + result.files_copied,
        m.0.bytes_copied == run.instant_bytes + result.bytes_copied,
        m.0.files_skipped == result.files_skipped,
        m.0.files_failed == result.files_failed,
{
}

/// Where nothing could be copied, every file counts as failed.
pub proof fn law_all_failed_is_all(plan: &Vec<PlannedFile>, r: PlanResult)
    requires
        call_ensures(PlanResult::all_failed, (plan,), r),
    ensures
        r.files_failed == plan@.len(),
        r.files_copied == 0 && r.files_skipped == 0 && r.bytes_copied == 0,
        !r.cancelled,
{
}

/// A move starts with the sources and the folder that were chosen, and with
/// nothing moved.
pub proof fn law_move_starts_as_asked(
    dest_dir: FilePath,
    sources: Vec<FilePath>,
    plan: Vec<PlannedFile>,
    run: MoveRun,
    result: PlanResult,
)
    requires
        call_ensures(MoveRun::new, (dest_dir, sources, plan), run),
        call_ensures(PlanResult::new, (), result),
    ensures
        run.dest_dir == dest_dir,
        run.sources == sources,
        run.plan == plan,
        run.index == 0 && run.instant_files == 0 && run.instant_bytes == 0,
        run.fallback_plan@.len() == 0 && run.fallback_sources@.len() == 0,
        result.files_copied == 0 && result.files_skipped == 0 && result.files_failed == 0
            && result.bytes_copied == 0 && !result.cancelled,
{
}

} // verus!
