//! One-way synchronization of folders.

use vstd::prelude::*;

use crate::bytes;
use crate::index::PathIndex;
use crate::paths;
use crate::paths::{FilePath, PathView};
use crate::{EngineError, EngineResult};

verus! {

#[derive(Debug, Clone, Copy, PartialEq, Eq, Structural)]
pub struct SyncOptions {
    /// Make the destination an exact mirror: delete files that the source does
    /// not have, and replace every file that differs, even a later one.
    /// Otherwise files are only added, or replaced by later ones.
    pub mirror: bool,
    /// Compare the contents of copied files afterwards.
    pub verify: bool,
}

impl Default for SyncOptions {
    fn default() -> (r: SyncOptions)
        ensures
            !r.mirror,
            !r.verify,
    {
        SyncOptions { mirror: false, verify: false }
    }
}

/// What is compared of a file: its size and its modification time in seconds.
#[derive(Debug, Clone, Copy, PartialEq, Eq, Structural)]
pub struct Entry {
    pub size: u64,
    pub mtime: i64,
}

/// The files below a folder, by their path from it.
#[derive(Debug)]
pub struct Snapshot {
    names: PathIndex,
    entries: Vec<Entry>,
}

impl View for Snapshot {
    type V = Map<PathView, Entry>;

    closed spec fn view(&self) -> Map<PathView, Entry> {
        Map::new(
            |p: PathView| self.names@.contains(p),
            |p: PathView| self.entries@[self.names@.index_of(p)],
        )
    }
}

impl Snapshot {
    pub closed spec fn wf(self) -> bool {
        self.names.wf() && self.entries@.len() == self.names@.len()
    }

    pub fn new() -> (r: Snapshot)
        ensures
            r.wf(),
            r@ == Map::<PathView, Entry>::empty(),
    {
        let r = Snapshot { names: PathIndex::new(), entries: Vec::new() };
        proof {
            assert(r@ =~= Map::<PathView, Entry>::empty());
        }
        r
    }

    /// Adds a file, or replaces what was known of it.
    pub fn insert(&mut self, rel: FilePath, entry: Entry)
        requires
            old(self).wf(),
        ensures
            final(self).wf(),
            final(self)@ == old(self)@.insert(rel@, entry),
    {
        let ghost before = *self;
        let ghost key = rel@;
        let i: usize = self.names.insert(rel);
        if i < self.entries.len() {
            self.entries.set(i, entry);
        } else {
            self.entries.push(entry);
        }
        proof {
            self.names.lemma_unique();
            before.names.lemma_unique();
            let names = self.names@;
            assert(names[i as int] == key);
            assert(names.contains(key));
            assert(names.index_of(key) == i);
            assert forall|p: PathView|
                #![trigger self@.dom().contains(p)]
                #![trigger self@[p]]
                before@.dom().contains(p) && p != key implies names.contains(p) && self@[p]
                == before@[p] by {
                let j = before.names@.index_of(p);
                assert(names[j] == p);
                assert(names.index_of(p) == j);
            }
            assert forall|p: PathView| names.contains(p) && p != key implies before@.dom().contains(
                p,
            ) by {
                let j = names.index_of(p);
                assert(before.names@[j] == p);
            }
            assert(self@.dom() =~= before@.insert(key, entry).dom());
            assert(self@ =~= before@.insert(key, entry));
        }
    }

    /// What is known of a file.
    pub fn get(&self, rel: &FilePath) -> (r: Option<Entry>)
        requires
            self.wf(),
        ensures
            r == (if self@.dom().contains(rel@) {
                Some(self@[rel@])
            } else {
                None
            }),
    {
        match self.names.find(rel) {
            Some(i) => {
                proof {
                    self.names.lemma_unique();
                    assert(self.names@.contains(rel@));
                    assert(self.names@.index_of(rel@) == i);
                }
                Some(self.entries[i])
            },
            None => None,
        }
    }
}

/// What the first `n` files found below `root` come to: those that could be
/// looked at, under their path from `root`.
pub open spec fn seen(root: PathView, found: Seq<(FilePath, Option<Entry>)>, n: int) -> Map<
    PathView,
    Entry,
>
    decreases n,
{
    if n <= 0 {
        Map::empty()
    } else {
        let before = seen(root, found, n - 1);
        let (path, entry) = found[n - 1];
        match entry {
            Some(e) if path@.under(root) => before.insert(
                PathView {
                    root: Seq::empty(),
                    parts: path@.parts.skip(root.parts.len() as int),
                },
                e,
            ),
            _ => before,
        }
    }
}

/// The files found below `root`, by their path from it. Those that could not
/// be looked at are left out.
pub fn snapshot(root: &FilePath, found: &Vec<(FilePath, Option<Entry>)>) -> (r: Snapshot)
    ensures
        r.wf(),
        r@ == seen(root@, found@, found@.len() as int),
{
    let mut r = Snapshot::new();
    let mut i: usize = 0;
    while i < found.len()
        invariant
            i <= found@.len(),
            r.wf(),
            r@ == seen(root@, found@, i as int),
        decreases found@.len() - i,
    {
        match found[i].0.strip_prefix(root) {
            Some(rel) => {
                match found[i].1 {
                    Some(entry) => r.insert(rel, entry),
                    None => {},
                }
            },
            None => {},
        }
        i = i + 1;
    }
    r
}

/// Whether a file of the destination is to be replaced by its source: it has
/// another size or an earlier modification time; in a mirror, any other time.
pub open spec fn outdated(src: Entry, dst: Entry, mirror: bool) -> bool {
    dst.size != src.size || dst.mtime < src.mtime || (mirror && dst.mtime != src.mtime)
}

/// Whether a file is only in the source.
pub open spec fn copies(src: Map<PathView, Entry>, dst: Map<PathView, Entry>, p: PathView) -> bool {
    src.dom().contains(p) && !dst.dom().contains(p)
}

/// Whether a file is in both and that of the destination is to be replaced.
pub open spec fn updates(
    src: Map<PathView, Entry>,
    dst: Map<PathView, Entry>,
    mirror: bool,
    p: PathView,
) -> bool {
    src.dom().contains(p) && dst.dom().contains(p) && outdated(src[p], dst[p], mirror)
}

/// Whether a file is only in the destination and the two are to be the same.
pub open spec fn deletes(
    src: Map<PathView, Entry>,
    dst: Map<PathView, Entry>,
    mirror: bool,
    p: PathView,
) -> bool {
    mirror && dst.dom().contains(p) && !src.dom().contains(p)
}

/// What has to be done to bring the destination up to date.
#[derive(Debug)]
pub struct SyncPlan {
    pub to_copy: Vec<FilePath>,
    pub to_update: Vec<FilePath>,
    pub to_delete: Vec<FilePath>,
}

impl SyncPlan {
    /// Whether the lists hold what there is to do, and nothing else.
    pub open spec fn suits(
        self,
        src: Map<PathView, Entry>,
        dst: Map<PathView, Entry>,
        mirror: bool,
    ) -> bool {
        &&& forall|p: PathView|
            paths::views(self.to_copy@).contains(p) <==> #[trigger] copies(src, dst, p)
        &&& forall|p: PathView|
            paths::views(self.to_update@).contains(p) <==> #[trigger] updates(src, dst, mirror, p)
        &&& forall|p: PathView|
            paths::views(self.to_delete@).contains(p) <==> #[trigger] deletes(src, dst, mirror, p)
    }
}

/// Whether a list holds exactly the paths for which `wanted` says so, each
/// once, among the first `n` of `names`.
spec fn lists_exactly(
    list: Seq<PathView>,
    names: Seq<PathView>,
    n: int,
    wanted: spec_fn(PathView) -> bool,
) -> bool {
    &&& list.no_duplicates()
    &&& forall|p: PathView| #[trigger]
        list.contains(p) <==> names.take(n).contains(p) && wanted(p)
}

proof fn lemma_lists_step(
    list: Seq<PathView>,
    names: Seq<PathView>,
    n: int,
    wanted: spec_fn(PathView) -> bool,
)
    requires
        0 <= n < names.len(),
        names.no_duplicates(),
        lists_exactly(list, names, n, wanted),
    ensures
        wanted(names[n]) ==> lists_exactly(list.push(names[n]), names, n + 1, wanted),
        !wanted(names[n]) ==> lists_exactly(list, names, n + 1, wanted),
{
    let p = names[n];
    assert(names.take(n + 1) =~= names.take(n).push(p));
    assert(!names.take(n).contains(p)) by {
        if names.take(n).contains(p) {
            let j = choose|j: int| 0 <= j < n && names.take(n)[j] == p;
            assert(names[j] == names[n]);
        }
    }
    assert(!list.contains(p));
    assert forall|q: PathView| #[trigger] names.take(n + 1).contains(q) <==> names.take(n).contains(
        q,
    ) || q == p by {
        if names.take(n).contains(q) {
            let j = choose|j: int| 0 <= j < n && names.take(n)[j] == q;
            assert(names.take(n + 1)[j] == q);
        }
        if q == p {
            assert(names.take(n + 1)[n] == q);
        }
        if names.take(n + 1).contains(q) {
            let longer = names.take(n + 1);
            let j = choose|j: int| 0 <= j < longer.len() && longer[j] == q;
            if j < n {
                assert(names.take(n)[j] == q);
            }
        }
    }
    if wanted(p) {
        let more = list.push(p);
        assert forall|q: PathView| #[trigger] more.contains(q) <==> names.take(n + 1).contains(q)
            && wanted(q) by {
            if list.contains(q) {
                let j = choose|j: int| 0 <= j < list.len() && list[j] == q;
                assert(more[j] == q);
            }
            if q == p {
                assert(more[list.len() as int] == q);
            }
            if more.contains(q) && q != p {
                let j = choose|j: int| 0 <= j < more.len() && more[j] == q;
                assert(list[j] == q);
            }
        }
        assert(more.no_duplicates()) by {
            assert forall|a: int, b: int|
                0 <= a < more.len() && 0 <= b < more.len() && a != b implies more[a] != more[b] by {
                if a < list.len() && b < list.len() {
                    assert(list[a] != list[b]);
                } else if a < list.len() {
                    assert(list.contains(list[a]));
                } else if b < list.len() {
                    assert(list.contains(list[b]));
                }
            }
        }
    }
}

/// Compares source and destination.
pub fn plan_sync(src: &Snapshot, dst: &Snapshot, mirror: bool) -> (plan: SyncPlan)
    requires
        src.wf(),
        dst.wf(),
    ensures
        paths::views(plan.to_copy@).no_duplicates(),
        forall|p: PathView|
            paths::views(plan.to_copy@).contains(p) <==> #[trigger] copies(src@, dst@, p),
        paths::views(plan.to_update@).no_duplicates(),
        forall|p: PathView|
            paths::views(plan.to_update@).contains(p) <==> #[trigger] updates(src@, dst@, mirror, p),
        paths::views(plan.to_delete@).no_duplicates(),
        forall|p: PathView|
            paths::views(plan.to_delete@).contains(p) <==> #[trigger] deletes(src@, dst@, mirror, p),
        plan.suits(src@, dst@, mirror),
{
    let mut to_copy: Vec<FilePath> = Vec::new();
    let mut to_update: Vec<FilePath> = Vec::new();
    let mut to_delete: Vec<FilePath> = Vec::new();
    let ghost new_ones = |p: PathView| copies(src@, dst@, p);
    let ghost old_ones = |p: PathView| updates(src@, dst@, mirror, p);
    let ghost gone = |p: PathView| deletes(src@, dst@, mirror, p);
    proof {
        src.names.lemma_unique();
        dst.names.lemma_unique();
        assert(paths::views(to_copy@) =~= Seq::<PathView>::empty());
        assert(src.names@.take(0) =~= Seq::<PathView>::empty());
        assert(dst.names@.take(0) =~= Seq::<PathView>::empty());
    }
    let mut i: usize = 0;
    while i < src.names.len()
        invariant
            src.wf(),
            dst.wf(),
            src.names@.no_duplicates(),
            i <= src.names@.len(),
            new_ones == (|p: PathView| copies(src@, dst@, p)),
            old_ones == (|p: PathView| updates(src@, dst@, mirror, p)),
            lists_exactly(paths::views(to_copy@), src.names@, i as int, new_ones),
            lists_exactly(paths::views(to_update@), src.names@, i as int, old_ones),
        decreases src.names@.len() - i,
    {
        let rel = src.names.get(i);
        let entry = src.entries[i];
        let there = dst.get(rel);
        proof {
            let p = rel@;
            assert(src.names@.contains(p));
            assert(src.names@.index_of(p) == i);
            assert(src@[p] == entry);
            lemma_lists_step(paths::views(to_copy@), src.names@, i as int, new_ones);
            lemma_lists_step(paths::views(to_update@), src.names@, i as int, old_ones);
            assert(new_ones(p) == copies(src@, dst@, p));
            assert(old_ones(p) == updates(src@, dst@, mirror, p));
        }
        match there {
            None => {
                let copy = rel.clone();
                proof {
                    paths::paths_push(to_copy@, copy);
                }
                to_copy.push(copy);
            },
            Some(d) => {
                if d.size != entry.size || d.mtime < entry.mtime || (mirror && d.mtime
                    != entry.mtime) {
                    let copy = rel.clone();
                    proof {
                        paths::paths_push(to_update@, copy);
                    }
                    to_update.push(copy);
                }
            },
        }
        i = i + 1;
    }
    proof {
        assert(src.names@.take(i as int) =~= src.names@);
    }
    if mirror {
        let mut j: usize = 0;
        while j < dst.names.len()
            invariant
                src.wf(),
                dst.wf(),
                mirror,
                dst.names@.no_duplicates(),
                j <= dst.names@.len(),
                gone == (|p: PathView| deletes(src@, dst@, mirror, p)),
                lists_exactly(paths::views(to_delete@), dst.names@, j as int, gone),
            decreases dst.names@.len() - j,
        {
            let rel = dst.names.get(j);
            let there = src.get(rel);
            proof {
                let p = rel@;
                assert(dst.names@.contains(p));
                lemma_lists_step(paths::views(to_delete@), dst.names@, j as int, gone);
                assert(gone(p) == deletes(src@, dst@, mirror, p));
            }
            if there.is_none() {
                let copy = rel.clone();
                proof {
                    paths::paths_push(to_delete@, copy);
                }
                to_delete.push(copy);
            }
            j = j + 1;
        }
        proof {
            assert(dst.names@.take(j as int) =~= dst.names@);
        }
    }
    proof {
        assert forall|p: PathView|
            paths::views(to_copy@).contains(p) <==> #[trigger] copies(src@, dst@, p) by {
            assert(new_ones(p) == copies(src@, dst@, p));
        }
        assert forall|p: PathView|
            paths::views(to_update@).contains(p) <==> #[trigger] updates(src@, dst@, mirror, p) by {
            assert(old_ones(p) == updates(src@, dst@, mirror, p));
        }
        assert forall|p: PathView|
            paths::views(to_delete@).contains(p) <==> #[trigger] deletes(src@, dst@, mirror, p) by {
            assert(gone(p) == deletes(src@, dst@, mirror, p));
        }
    }
    SyncPlan { to_copy, to_update, to_delete }
}

/// The destination after everything that is due was done: a copied file has
/// the size and the modification time of its source.
pub open spec fn synced(
    src: Map<PathView, Entry>,
    dst: Map<PathView, Entry>,
    mirror: bool,
) -> Map<PathView, Entry> {
    Map::new(
        |p: PathView|
            copies(src, dst, p) || (dst.dom().contains(p) && !deletes(src, dst, mirror, p)),
        |p: PathView|
            if copies(src, dst, p) || updates(src, dst, mirror, p) {
                src[p]
            } else {
                dst[p]
            },
    )
}

/// A mirrored destination has exactly the files of the source, each with the
/// same size and the same time.
pub proof fn law_mirror_is_exact(src: Map<PathView, Entry>, dst: Map<PathView, Entry>)
    ensures
        synced(src, dst, true) == src,
{
    assert(synced(src, dst, true).dom() =~= src.dom());
    assert(synced(src, dst, true) =~= src);
}

/// Without mirroring nothing is ever lost: every file of the source arrives,
/// and what only the destination has stays as it is.
pub proof fn law_sync_only_adds(src: Map<PathView, Entry>, dst: Map<PathView, Entry>)
    ensures
        synced(src, dst, false).dom() == src.dom().union(dst.dom()),
        forall|p: PathView|
            src.dom().contains(p) ==> !outdated(
                src[p],
                #[trigger] synced(src, dst, false)[p],
                false,
            ),
        forall|p: PathView|
            src.dom().contains(p) ==> (#[trigger] synced(src, dst, false)[p]).size == src[p].size
                && synced(src, dst, false)[p].mtime >= src[p].mtime,
        forall|p: PathView|
            dst.dom().contains(p) && !src.dom().contains(p) ==> #[trigger] synced(src, dst, false)[p]
                == dst[p],
{
    assert(synced(src, dst, false).dom() =~= src.dom().union(dst.dom()));
}

/// Once synchronized, a second run finds nothing to do.
pub proof fn law_second_sync_is_empty(
    src: Map<PathView, Entry>,
    dst: Map<PathView, Entry>,
    mirror: bool,
    p: PathView,
)
    ensures
        !copies(src, synced(src, dst, mirror), p),
        !updates(src, synced(src, dst, mirror), mirror, p),
        !deletes(src, synced(src, dst, mirror), mirror, p),
{
}

/// What synchronizing tells about its progress.
#[derive(Debug, PartialEq, Eq)]
pub enum SyncEvent {
    Planned { to_copy: usize, to_update: usize, to_delete: usize },
    FileCopied { path: FilePath },
    FileUpdated { path: FilePath },
    FileDeleted { path: FilePath },
    FileError { path: FilePath, message: String },
    Finished(SyncSummary),
    Cancelled,
}

#[derive(Debug, Clone, Copy, PartialEq, Eq, Structural)]
pub struct SyncSummary {
    pub copied: usize,
    pub updated: usize,
    pub deleted: usize,
    pub failed: usize,
    pub bytes_transferred: u64,
}

impl Default for SyncSummary {
    fn default() -> (r: SyncSummary)
        ensures
            r == (SyncSummary {
                copied: 0,
                updated: 0,
                deleted: 0,
                failed: 0,
                bytes_transferred: 0,
            }),
    {
        SyncSummary { copied: 0, updated: 0, deleted: 0, failed: 0, bytes_transferred: 0 }
    }
}

/// What synchronizing does next.
#[derive(Debug, PartialEq, Eq)]
pub enum SyncStep {
    /// Stop: the user asked for it.
    Stop,
    /// Copy a file, into a folder that may have to be created.
    Copy { from: FilePath, to: FilePath },
    Delete(FilePath),
    Done,
}

/// How copying one file ended.
#[derive(Debug, PartialEq, Eq)]
pub enum SyncOutcome {
    /// Its folder could not be created.
    NoFolder(String),
    Failed(EngineError),
    /// Copied; `same` tells whether a comparison, where one was asked for,
    /// found the contents to be the same.
    Copied { bytes: u64, same: bool },
}

/// Whether a copied file is accepted: where a comparison was asked for, only
/// when the contents of both files could be hashed and are the same.
pub fn accepted(verify: bool, src: &Option<[u8; 32]>, dst: &Option<[u8; 32]>) -> (r: bool)
    ensures
        r == (!verify || (src is Some && dst is Some && src->0@ == dst->0@)),
{
    if !verify {
        return true;
    }
    match (src, dst) {
        (Some(a), Some(b)) => bytes::same_bytes(a, b),
        _ => false,
    }
}

/// The state of a synchronization.
#[derive(Debug)]
pub struct SyncRun {
    pub src: FilePath,
    pub dst: FilePath,
    pub plan: SyncPlan,
    /// How many files were copied, updated or given up.
    pub index: usize,
    /// How many deletions were done or given up.
    pub deletions: usize,
    pub summary: SyncSummary,
}

impl SyncRun {
    /// How many files there are to copy or update.
    pub open spec fn jobs(self) -> nat {
        self.plan.to_copy@.len() + self.plan.to_update@.len()
    }

    /// The path of the file at position `i`: first those to copy.
    pub open spec fn job(self, i: int) -> PathView {
        if i < self.plan.to_copy@.len() {
            self.plan.to_copy@[i]@
        } else {
            self.plan.to_update@[i - self.plan.to_copy@.len()]@
        }
    }

    /// Every file handled so far is counted once.
    pub open spec fn wf(self) -> bool {
        &&& self.jobs() <= usize::MAX
        &&& self.jobs() + self.plan.to_delete@.len() <= usize::MAX
        &&& self.index <= self.jobs()
        &&& self.deletions <= self.plan.to_delete@.len()
        &&& self.summary.copied + self.summary.updated + self.summary.deleted + self.summary.failed
            == self.index + self.deletions
        &&& self.summary.deleted <= self.deletions
    }

    pub fn new(src: FilePath, dst: FilePath, plan: SyncPlan) -> (r: SyncRun)
        requires
            plan.to_copy@.len() + plan.to_update@.len() + plan.to_delete@.len() <= usize::MAX,
        ensures
            r.wf(),
            r.src == src,
            r.dst == dst,
            r.plan == plan,
            r.index == 0,
            r.deletions == 0,
            r.summary == (SyncSummary {
                copied: 0,
                updated: 0,
                deleted: 0,
                failed: 0,
                bytes_transferred: 0,
            }),
    {
        SyncRun { src, dst, plan, index: 0, deletions: 0, summary: SyncSummary::default() }
    }

    /// The event that tells what is planned.
    pub fn planned(&self) -> (event: SyncEvent)
        ensures
            event == (SyncEvent::Planned {
                to_copy: self.plan.to_copy.len(),
                to_update: self.plan.to_update.len(),
                to_delete: self.plan.to_delete.len(),
            }),
    {
        SyncEvent::Planned {
            to_copy: self.plan.to_copy.len(),
            to_update: self.plan.to_update.len(),
            to_delete: self.plan.to_delete.len(),
        }
    }

    /// What to do next, given whether a stop was asked for.
    pub fn next(&self, cancelled: bool) -> (step: SyncStep)
        requires
            self.wf(),
        ensures
            self.index < self.jobs() || self.deletions < self.plan.to_delete@.len() ==> {
                &&& cancelled ==> step is Stop
                &&& !cancelled && self.index < self.jobs() ==> {
                    &&& step matches SyncStep::Copy { from, to }
                    &&& from@ == self.src@.joined(self.job(self.index as int))
                    &&& to@ == self.dst@.joined(self.job(self.index as int))
                }
                &&& !cancelled && self.index == self.jobs() ==> {
                    &&& step matches SyncStep::Delete(path)
                    &&& path@ == self.dst@.joined(self.plan.to_delete@[self.deletions as int]@)
                }
            },
            self.index == self.jobs() && self.deletions == self.plan.to_delete@.len()
                ==> step is Done,
    {
        let copies: usize = self.plan.to_copy.len();
        let updates: usize = self.plan.to_update.len();
        if self.index < copies + updates {
            if cancelled {
                return SyncStep::Stop;
            }
            let rel = if self.index < copies {
                &self.plan.to_copy[self.index]
            } else {
                &self.plan.to_update[self.index - copies]
            };
            return SyncStep::Copy { from: self.src.join(rel), to: self.dst.join(rel) };
        }
        if self.deletions < self.plan.to_delete.len() {
            if cancelled {
                return SyncStep::Stop;
            }
            return SyncStep::Delete(self.dst.join(&self.plan.to_delete[self.deletions]));
        }
        SyncStep::Done
    }

    /// Takes note of how the copy of the current file ended.
    pub fn copied(&mut self, from: FilePath, to: FilePath, outcome: SyncOutcome) -> (event:
        SyncEvent)
        requires
            old(self).wf(),
            old(self).index < old(self).jobs(),
        ensures
            final(self).wf(),
            ({
                let s = old(self).summary;
                let failed = SyncSummary { failed: (s.failed + 1) as usize, ..s };
                let is_update = old(self).index >= old(self).plan.to_copy@.len();
                let (summary, ok) = match outcome {
                    SyncOutcome::NoFolder(_) => (failed, false),
                    SyncOutcome::Failed(_) => (failed, false),
                    SyncOutcome::Copied { bytes, same } => {
                        let total = s.bytes_transferred.wrapping_add(bytes);
                        if !same {
                            (SyncSummary { bytes_transferred: total, ..failed }, false)
                        } else if is_update {
                            (
                                SyncSummary {
                                    bytes_transferred: total,
                                    updated: (s.updated + 1) as usize,
                                    ..s
                                },
                                true,
                            )
                        } else {
                            (
                                SyncSummary {
                                    bytes_transferred: total,
                                    copied: (s.copied + 1) as usize,
                                    ..s
                                },
                                true,
                            )
                        }
                    },
                };
                &&& *final(self) == (SyncRun {
                    index: (old(self).index + 1) as usize,
                    summary,
                    ..*old(self)
                })
                &&& ok && is_update ==> event == (SyncEvent::FileUpdated { path: to })
                &&& ok && !is_update ==> event == (SyncEvent::FileCopied { path: to })
                &&& !ok ==> {
                    &&& event matches SyncEvent::FileError { path, message }
                    &&& path == from
                    &&& message@ == (match outcome {
                        SyncOutcome::NoFolder(m) => m@,
                        SyncOutcome::Failed(e) => e@.sentence(),
                        SyncOutcome::Copied { .. } => "verification mismatch"@,
                    })
                }
            }),
    {
        let is_update = self.index >= self.plan.to_copy.len();
        self.index = self.index + 1;
        match outcome {
            SyncOutcome::NoFolder(message) => {
                self.summary.failed = self.summary.failed + 1;
                SyncEvent::FileError { path: from, message }
            },
            SyncOutcome::Failed(e) => {
                self.summary.failed = self.summary.failed + 1;
                SyncEvent::FileError { path: from, message: e.message() }
            },
            SyncOutcome::Copied { bytes, same } => {
                self.summary.bytes_transferred = self.summary.bytes_transferred.wrapping_add(bytes);
                if !same {
                    self.summary.failed = self.summary.failed + 1;
                    SyncEvent::FileError { path: from, message: "verification mismatch".to_owned() }
                } else if is_update {
                    self.summary.updated = self.summary.updated + 1;
                    SyncEvent::FileUpdated { path: to }
                } else {
                    self.summary.copied = self.summary.copied + 1;
                    SyncEvent::FileCopied { path: to }
                }
            },
        }
    }

    /// Takes note of how the current deletion ended.
    pub fn deleted(&mut self, path: FilePath, result: EngineResult<()>) -> (event: SyncEvent)
        requires
            old(self).wf(),
            old(self).deletions < old(self).plan.to_delete@.len(),
        ensures
            final(self).wf(),
            ({
                let s = old(self).summary;
                &&& *final(self) == (SyncRun {
                    deletions: (old(self).deletions + 1) as usize,
                    summary: if result is Ok {
                        SyncSummary { deleted: (s.deleted + 1) as usize, ..s }
                    } else {
                        SyncSummary { failed: (s.failed + 1) as usize, ..s }
                    },
                    ..*old(self)
                })
                &&& match result {
                    Ok(_) => event == (SyncEvent::FileDeleted { path }),
                    Err(e) => {
                        &&& event matches SyncEvent::FileError { path: at, message }
                        &&& at == path
                        &&& message@ == e@.sentence()
                    },
                }
            }),
    {
        self.deletions = self.deletions + 1;
        match result {
            Ok(_) => {
                self.summary.deleted = self.summary.deleted + 1;
                SyncEvent::FileDeleted { path }
            },
            Err(e) => {
                self.summary.failed = self.summary.failed + 1;
                SyncEvent::FileError { path, message: e.message() }
            },
        }
    }

    /// The event and the summary that end a complete run.
    pub fn finished(&self) -> (r: (SyncEvent, SyncSummary))
        ensures
            r.0 == SyncEvent::Finished(self.summary),
            r.1 == self.summary,
    {
        (SyncEvent::Finished(self.summary), self.summary)
    }
}

/// A file of the source is in the destination once the plan is carried out,
/// with the size of the source and a time that is not earlier, in a mirror
/// with the very same time; a file that is the same in both is left alone, and
/// without mirroring so is one that only became newer in the destination.
pub proof fn law_plan_brings_up_to_date(
    src: &Snapshot,
    dst: &Snapshot,
    mirror: bool,
    plan: SyncPlan,
    p: PathView,
)
    requires
        src.wf(),
        dst.wf(),
        call_ensures(plan_sync, (src, dst, mirror), plan),
        src@.dom().contains(p),
    ensures
        ({
            let copied = paths::views(plan.to_copy@).contains(p);
            let updated = paths::views(plan.to_update@).contains(p);
            let after = if copied || updated {
                src@[p]
            } else {
                dst@[p]
            };
            &&& copied == !dst@.dom().contains(p)
            &&& updated ==> dst@.dom().contains(p)
            &&& after.size == src@[p].size
            &&& after.mtime >= src@[p].mtime
            &&& mirror ==> after == src@[p]
            &&& dst@.dom().contains(p) && dst@[p] == src@[p] ==> !updated
            &&& !mirror && dst@.dom().contains(p) && dst@[p].size == src@[p].size && dst@[p].mtime
                > src@[p].mtime ==> !updated
            &&& !paths::views(plan.to_delete@).contains(p)
        }),
{
    assert(paths::views(plan.to_copy@).contains(p) == copies(src@, dst@, p));
    assert(paths::views(plan.to_update@).contains(p) == updates(src@, dst@, mirror, p));
    assert(paths::views(plan.to_delete@).contains(p) == deletes(src@, dst@, mirror, p));
}

/// Nothing is deleted but, in a mirror, what the source does not have; and
/// there all of it is. What the source does not have is never copied.
pub proof fn law_plan_deletes_only_for_a_mirror(
    src: &Snapshot,
    dst: &Snapshot,
    mirror: bool,
    plan: SyncPlan,
    p: PathView,
)
    requires
        src.wf(),
        dst.wf(),
        call_ensures(plan_sync, (src, dst, mirror), plan),
        !src@.dom().contains(p),
    ensures
        paths::views(plan.to_delete@).contains(p) == (mirror && dst@.dom().contains(p)),
        !paths::views(plan.to_copy@).contains(p),
        !paths::views(plan.to_update@).contains(p),
{
    assert(paths::views(plan.to_copy@).contains(p) == copies(src@, dst@, p));
    assert(paths::views(plan.to_update@).contains(p) == updates(src@, dst@, mirror, p));
    assert(paths::views(plan.to_delete@).contains(p) == deletes(src@, dst@, mirror, p));
}

proof fn lemma_seen(root: PathView, found: Seq<(FilePath, Option<Entry>)>, n: int, key: PathView)
    requires
        0 <= n <= found.len(),
        seen(root, found, n).dom().contains(key),
    ensures
        exists|i: int|
            0 <= i < n && (#[trigger] found[i]).1 == Some(seen(root, found, n)[key])
                && found[i].0@.root == root.root && found[i].0@.parts == root.parts + key.parts
                && key.root.len() == 0,
    decreases n,
{
    if n > 0 {
        let path = found[n - 1].0@;
        let here = PathView {
            root: Seq::empty(),
            parts: path.parts.skip(root.parts.len() as int),
        };
        if found[n - 1].1 is Some && path.under(root) && here == key {
            assert(path.parts =~= root.parts + key.parts);
            assert(found[n - 1].1 == Some(seen(root, found, n)[key]));
        } else {
            lemma_seen(root, found, n - 1, key);
            let i = choose|i: int|
                0 <= i < n - 1 && (#[trigger] found[i]).1 == Some(seen(root, found, n - 1)[key])
                    && found[i].0@.root == root.root && found[i].0@.parts == root.parts + key.parts
                    && key.root.len() == 0;
            assert(found[i].1 == Some(seen(root, found, n)[key]));
        }
    }
}

proof fn lemma_seen_last(
    root: PathView,
    found: Seq<(FilePath, Option<Entry>)>,
    n: int,
    i: int,
    rel: Seq<Seq<char>>,
)
    requires
        0 <= i < n <= found.len(),
        found[i].1 is Some,
        found[i].0@.root == root.root,
        found[i].0@.parts == root.parts + rel,
        forall|k: int| i < k < found.len() ==> (#[trigger] found[k]).0@ != found[i].0@,
    ensures
        ({
            let key = PathView { root: Seq::empty(), parts: rel };
            seen(root, found, n).dom().contains(key) && seen(root, found, n)[key] == found[i].1->0
        }),
    decreases n,
{
    let key = PathView { root: Seq::empty(), parts: rel };
    let path = found[n - 1].0@;
    if i == n - 1 {
        assert(path.parts.take(root.parts.len() as int) =~= root.parts);
        assert(path.parts.skip(root.parts.len() as int) =~= rel);
    } else {
        lemma_seen_last(root, found, n - 1, i, rel);
        let here = PathView {
            root: Seq::empty(),
            parts: path.parts.skip(root.parts.len() as int),
        };
        if path.under(root) && here == key {
            assert(path.parts =~= root.parts + rel);
            assert(path =~= found[i].0@);
        }
    }
}

/// A folder is listed as it is: every file that could be looked at stands under
/// the components that lead to it from the folder, with its size and time, and
/// nothing else is listed.
pub proof fn law_snapshot_lists_what_is_there(
    root: &FilePath,
    found: &Vec<(FilePath, Option<Entry>)>,
    r: Snapshot,
)
    requires
        call_ensures(snapshot, (root, found), r),
        forall|i: int, k: int|
            0 <= i < k < found@.len() ==> (#[trigger] found@[i]).0@ != (#[trigger] found@[k]).0@,
    ensures
        forall|i: int, rel: Seq<Seq<char>>|
            0 <= i < found@.len() && (#[trigger] found@[i]).1 is Some && found@[i].0@.root
                == root@.root && found@[i].0@.parts == #[trigger] (root@.parts + rel)
                ==> r@.dom().contains(PathView { root: Seq::empty(), parts: rel }) && r@[
                PathView { root: Seq::empty(), parts: rel }
            ] == found@[i].1->0,
        forall|key: PathView| #[trigger]
            r@.dom().contains(key) ==> exists|i: int|
                0 <= i < found@.len() && (#[trigger] found@[i]).1 == Some(r@[key])
                    && found@[i].0@.root == root@.root && found@[i].0@.parts == root@.parts
                    + key.parts,
{
    let n = found@.len() as int;
    assert forall|i: int, rel: Seq<Seq<char>>|
        0 <= i < found@.len() && (#[trigger] found@[i]).1 is Some && found@[i].0@.root
            == root@.root && found@[i].0@.parts == #[trigger] (root@.parts + rel) implies r@.dom().contains(
    PathView { root: Seq::empty(), parts: rel }) && r@[PathView { root: Seq::empty(), parts: rel }]
        == found@[i].1->0 by {
        lemma_seen_last(root@, found@, n, i, rel);
    }
    assert forall|key: PathView| #[trigger] r@.dom().contains(key) implies exists|i: int|
        0 <= i < found@.len() && (#[trigger] found@[i]).1 == Some(r@[key]) && found@[i].0@.root
            == root@.root && found@[i].0@.parts == root@.parts + key.parts by {
        lemma_seen(root@, found@, n, key);
    }
}

/// A file is copied from the source to the same place in the destination, and
/// only the destination ever loses a file, after everything was copied.
pub proof fn law_sync_goes_one_way(run: &SyncRun, cancelled: bool, step: SyncStep)
    requires
        call_ensures(SyncRun::next, (run, cancelled), step),
        run.wf(),
        forall|i: int|
            0 <= i < run.plan.to_copy@.len() ==> (#[trigger] run.plan.to_copy@[i])@.root.len() == 0,
        forall|i: int|
            0 <= i < run.plan.to_update@.len() ==> (
            #[trigger] run.plan.to_update@[i])@.root.len() == 0,
        forall|i: int|
            0 <= i < run.plan.to_delete@.len() ==> (
            #[trigger] run.plan.to_delete@[i])@.root.len() == 0,
    ensures
        step matches SyncStep::Copy { from, to } ==> {
            &&& !cancelled
            &&& from@.root == run.src@.root
            &&& to@.root == run.dst@.root
            &&& exists|rel: PathView|
                (#[trigger] paths::views(run.plan.to_copy@).contains(rel) || paths::views(
                    run.plan.to_update@,
                ).contains(rel)) && from@.parts == run.src@.parts + rel.parts && to@.parts
                    == run.dst@.parts + rel.parts
        },
        step matches SyncStep::Delete(path) ==> {
            &&& !cancelled
            &&& run.index == run.plan.to_copy@.len() + run.plan.to_update@.len()
            &&& path@.root == run.dst@.root
            &&& exists|rel: PathView| #[trigger]
                paths::views(run.plan.to_delete@).contains(rel) && path@.parts == run.dst@.parts
                    + rel.parts
        },
        step is Done ==> run.index == run.plan.to_copy@.len() + run.plan.to_update@.len()
            && run.deletions == run.plan.to_delete@.len(),
{
    if step is Copy {
        let i = run.index as int;
        let n = run.plan.to_copy@.len();
        let rel = run.job(i);
        if i < n {
            assert(paths::views(run.plan.to_copy@)[i] == rel);
            assert(run.plan.to_copy@[i]@.root.len() == 0);
        } else {
            assert(paths::views(run.plan.to_update@)[i - n] == rel);
            assert(run.plan.to_update@[i - n]@.root.len() == 0);
        }
        assert(paths::views(run.plan.to_copy@).contains(rel) || paths::views(
            run.plan.to_update@,
        ).contains(rel));
    }
    if step is Delete {
        let d = run.deletions as int;
        let rel = run.plan.to_delete@[d]@;
        assert(paths::views(run.plan.to_delete@)[d] == rel);
        assert(run.plan.to_delete@[d]@.root.len() == 0);
        assert(paths::views(run.plan.to_delete@).contains(rel));
    }
}

/// A file that was not copied, or whose comparison failed, counts as failed and
/// as nothing else; one that was copied counts as copied or as updated by the
/// list that it stands in.
pub proof fn law_sync_counts_what_happened(
    run: &mut SyncRun,
    from: FilePath,
    to: FilePath,
    outcome: SyncOutcome,
    event: SyncEvent,
)
    requires
        call_ensures(SyncRun::copied, (run, from, to, outcome), event),
        run.wf(),
        run.index < run.jobs(),
    ensures
        ({
            let a = old(run).summary;
            let b = final(run).summary;
            let good = outcome matches SyncOutcome::Copied { same, .. } && same;
            &&& b.copied + b.updated + b.failed == a.copied + a.updated + a.failed + 1
            &&& b.failed == a.failed + (if good {
                0int
            } else {
                1int
            })
            &&& good && old(run).index < old(run).plan.to_copy@.len() ==> b.copied == a.copied + 1
            &&& good && old(run).index >= old(run).plan.to_copy@.len() ==> b.updated == a.updated
                + 1
            &&& b.deleted == a.deleted
            &&& final(run).index == old(run).index + 1
            &&& good == !(event is FileError)
        }),
{
}

/// A comparison that was asked for accepts a copy only with both hashes at hand
/// and the same; it does not matter which of the two files is which.
pub proof fn law_comparison_takes_both_hashes(
    a: &Option<[u8; 32]>,
    b: &Option<[u8; 32]>,
    one: bool,
    other: bool,
    unasked: bool,
)
    requires
        call_ensures(accepted, (true, a, b), one),
        call_ensures(accepted, (true, b, a), other),
        call_ensures(accepted, (false, a, b), unasked),
    ensures
        unasked,
        one == other,
        one ==> a is Some && b is Some && a->0@ == b->0@,
        a is Some && b is Some && a->0@ == b->0@ ==> one,
{
}

/// What was noted for a path is read back, and nothing else changes.
pub proof fn law_noted_files_are_read_back(
    snapshot: &mut Snapshot,
    rel: FilePath,
    entry: Entry,
    u: (),
    later: &Snapshot,
    q: &FilePath,
    got: Option<Entry>,
    before: Option<Entry>,
)
    requires
        snapshot.wf(),
        call_ensures(Snapshot::insert, (snapshot, rel, entry), u),
        *later == *final(snapshot),
        later.wf(),
        call_ensures(Snapshot::get, (later, q), got),
        call_ensures(Snapshot::get, (&*snapshot, q), before),
    ensures
        q@ == rel@ ==> got == Some(entry),
        q@ != rel@ ==> got == before,
{
}

/// A deletion counts as one where it worked and as a failure where it did not,
/// and what is told names the same file.
pub proof fn law_deletions_are_counted(
    run: &mut SyncRun,
    path: FilePath,
    result: EngineResult<()>,
    event: SyncEvent,
)
    requires
        run.wf(),
        run.deletions < run.plan.to_delete@.len(),
        run.summary.deleted < usize::MAX,
        run.summary.failed < usize::MAX,
        call_ensures(SyncRun::deleted, (run, path, result), event),
    ensures
        result is Ok ==> {
            &&& final(run).summary.deleted == old(run).summary.deleted + 1
            &&& final(run).summary.failed == old(run).summary.failed
            &&& event == (SyncEvent::FileDeleted { path })
        },
        result is Err ==> {
            &&& final(run).summary.deleted == old(run).summary.deleted
            &&& final(run).summary.failed == old(run).summary.failed + 1
            &&& (event matches SyncEvent::FileError { path: at, .. } && at == path)
        },
        final(run).summary.copied == old(run).summary.copied,
        final(run).summary.updated == old(run).summary.updated,
        final(run).plan == old(run).plan,
{
}

/// What is announced is the plan, and what is told at the end is what was
/// counted.
pub proof fn law_plan_and_end_are_told(run: &SyncRun, planned: SyncEvent, r: (SyncEvent, SyncSummary))
    requires
        call_ensures(SyncRun::planned, (run,), planned),
        call_ensures(SyncRun::finished, (run,), r),
    ensures
        planned matches SyncEvent::Planned { to_copy, to_update, to_delete } && to_copy
            == run.plan.to_copy@.len() && to_update == run.plan.to_update@.len() && to_delete
            == run.plan.to_delete@.len(),
        r.1 == run.summary,
        r.0 == SyncEvent::Finished(run.summary),
{
}

/// A sync starts with the two folders in their roles, and with nothing counted.
pub proof fn law_sync_starts_as_asked(src: FilePath, dst: FilePath, plan: SyncPlan, run: SyncRun)
    requires
        plan.to_copy@.len() + plan.to_update@.len() + plan.to_delete@.len() <= usize::MAX,
        call_ensures(SyncRun::new, (src, dst, plan), run),
    ensures
        run.src == src,
        run.dst == dst,
        run.plan == plan,
        run.index == 0 && run.deletions == 0,
        run.summary.copied == 0 && run.summary.updated == 0 && run.summary.deleted == 0
            && run.summary.failed == 0 && run.summary.bytes_transferred == 0,
{
}

} // verus!
