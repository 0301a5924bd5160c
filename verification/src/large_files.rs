//! Finding files above a size.

use vstd::prelude::*;

use crate::order;
use crate::paths::{FilePath, PathView};

verus! {

#[derive(Debug, Clone, Copy, PartialEq, Eq, Structural)]
pub struct LargeFilesOptions {
    pub min_size: u64,
}

impl Default for LargeFilesOptions {
    /// Files from 100 MiB on.
    fn default() -> (r: LargeFilesOptions)
        ensures
            r.min_size == 100 * 1024 * 1024,
    {
        LargeFilesOptions { min_size: 104_857_600 }
    }
}

#[derive(Debug, PartialEq, Eq)]
pub struct FileEntry {
    pub path: FilePath,
    pub size: u64,
}

impl View for FileEntry {
    type V = (PathView, u64);

    open spec fn view(&self) -> (PathView, u64) {
        (self.path@, self.size)
    }
}

impl Clone for FileEntry {
    fn clone(&self) -> (r: FileEntry)
        ensures
            r@ == self@,
    {
        FileEntry { path: self.path.clone(), size: self.size }
    }
}

pub open spec fn entry_views(v: Seq<FileEntry>) -> Seq<(PathView, u64)> {
    v.map_values(|e: FileEntry| e@)
}

pub open spec fn entry_sizes(v: Seq<(PathView, u64)>) -> Seq<u64> {
    v.map_values(|e: (PathView, u64)| e.1)
}

/// What the search tells about its progress.
#[derive(Debug, PartialEq, Eq)]
pub enum LargeFileEvent {
    Scanning { files_scanned: usize },
    Found(FileEntry),
    Finished { count: usize, total_bytes: u64 },
    Cancelled,
}

/// The state of a search for large files.
#[derive(Debug)]
pub struct LargeFilesRun {
    pub min_size: u64,
    pub files_scanned: usize,
    pub total_bytes: u64,
    pub results: Vec<FileEntry>,
}

/// Bytes of the first `n` files, modulo 2^64.
pub open spec fn sum_of(v: Seq<(PathView, u64)>, n: int) -> u64
    decreases n,
{
    if n <= 0 {
        0
    } else {
        sum_of(v, n - 1).wrapping_add(v[n - 1].1)
    }
}

proof fn lemma_sum_prefix(a: Seq<(PathView, u64)>, b: Seq<(PathView, u64)>, n: int)
    requires
        n <= a.len() <= b.len(),
        forall|i: int| 0 <= i < a.len() ==> a[i] == b[i],
    ensures
        sum_of(a, n) == sum_of(b, n),
    decreases n,
{
    if n > 0 {
        lemma_sum_prefix(a, b, n - 1);
    }
}

/// Whether a list has the given files, largest first.
pub open spec fn largest_first(files: Seq<(PathView, u64)>, list: Seq<(PathView, u64)>) -> bool {
    exists|by_size: Seq<usize>| #[trigger]
        order::is_order(entry_sizes(files), by_size) && list == order::arranged(files, by_size)
}

impl LargeFilesRun {
    /// The total is that of the files found, and each of them is large enough.
    pub open spec fn wf(self) -> bool {
        &&& self.total_bytes == sum_of(entry_views(self.results@), self.results@.len() as int)
        &&& forall|i: int|
            0 <= i < self.results@.len() ==> (#[trigger] self.results@[i]).size >= self.min_size
    }

    pub fn new(options: LargeFilesOptions) -> (r: LargeFilesRun)
        ensures
            r.wf(),
            r.min_size == options.min_size,
            r.files_scanned == 0,
            r.results@.len() == 0,
    {
        LargeFilesRun {
            min_size: options.min_size,
            files_scanned: 0,
            total_bytes: 0,
            results: Vec::new(),
        }
    }

    /// Takes note of a file: an event every 1000 files.
    pub fn scanned(&mut self) -> (event: Option<LargeFileEvent>)
        requires
            old(self).wf(),
            old(self).files_scanned < usize::MAX,
        ensures
            final(self).wf(),
            ({
                let n = (old(self).files_scanned + 1) as usize;
                &&& *final(self) == (LargeFilesRun { files_scanned: n, ..*old(self) })
                &&& event == (if n % 1000 == 0 {
                    Some(LargeFileEvent::Scanning { files_scanned: n })
                } else {
                    None
                })
            }),
    {
        self.files_scanned = self.files_scanned + 1;
        if self.files_scanned % 1000 == 0 {
            Some(LargeFileEvent::Scanning { files_scanned: self.files_scanned })
        } else {
            None
        }
    }

    /// Takes note of the size of a file; one that is large enough brings an
    /// event.
    pub fn sized(&mut self, path: FilePath, size: u64) -> (event: Option<LargeFileEvent>)
        requires
            old(self).wf(),
        ensures
            final(self).wf(),
            final(self).min_size == old(self).min_size,
            final(self).files_scanned == old(self).files_scanned,
            size < old(self).min_size ==> event is None && *final(self) == *old(self),
            size >= old(self).min_size ==> {
                &&& event matches Some(LargeFileEvent::Found(e))
                &&& e@ == (path@, size)
                &&& entry_views(final(self).results@) == entry_views(old(self).results@).push(
                    (path@, size),
                )
            },
    {
        if size < self.min_size {
            return None;
        }
        let ghost before = self.results@;
        let entry = FileEntry { path, size };
        let event = LargeFileEvent::Found(entry.clone());
        self.total_bytes = self.total_bytes.wrapping_add(size);
        self.results.push(entry);
        proof {
            assert(entry_views(self.results@) =~= entry_views(before).push(entry@));
            lemma_sum_prefix(
                entry_views(before),
                entry_views(self.results@),
                before.len() as int,
            );
        }
        Some(event)
    }

    /// The files found, largest first, and the event that ends a complete
    /// search.
    pub fn finish(self) -> (r: (Vec<FileEntry>, LargeFileEvent))
        requires
            self.wf(),
        ensures
            largest_first(entry_views(self.results@), entry_views(r.0@)),
            r.1 == (LargeFileEvent::Finished {
                count: self.results.len(),
                total_bytes: self.total_bytes,
            }),
    {
        let sorted = sort_files(&self.results);
        let event = LargeFileEvent::Finished {
            count: self.results.len(),
            total_bytes: self.total_bytes,
        };
        (sorted, event)
    }
}

/// The files, largest first; equal ones stay in their order.
pub fn sort_files(files: &Vec<FileEntry>) -> (r: Vec<FileEntry>)
    ensures
        largest_first(entry_views(files@), entry_views(r@)),
{
    let ghost all = entry_views(files@);
    let mut keys: Vec<u64> = Vec::new();
    let mut k: usize = 0;
    while k < files.len()
        invariant
            k <= files@.len(),
            keys@.len() == k,
            forall|j: int| 0 <= j < k ==> keys@[j] == files@[j].size,
        decreases files@.len() - k,
    {
        keys.push(files[k].size);
        k = k + 1;
    }
    proof {
        assert(keys@ =~= entry_sizes(all));
    }
    let by_size = order::largest_first(&keys);
    let mut r: Vec<FileEntry> = Vec::new();
    let mut a: usize = 0;
    while a < by_size.len()
        invariant
            a <= by_size@.len(),
            r@.len() == a,
            order::is_order(keys@, by_size@),
            keys@.len() == files@.len(),
            forall|j: int| 0 <= j < a ==> (#[trigger] r@[j])@ == files@[by_size@[j] as int]@,
        decreases by_size@.len() - a,
    {
        proof {
            assert(by_size@[a as int] < keys@.len());
        }
        r.push(files[by_size[a]].clone());
        a = a + 1;
    }
    proof {
        assert(entry_views(r@) =~= order::arranged(all, by_size@));
        assert(order::is_order(entry_sizes(all), by_size@));
    }
    r
}

/// Sorting keeps every file and puts the larger ones first.
pub proof fn law_sorted_files(files: Seq<(PathView, u64)>, list: Seq<(PathView, u64)>)
    requires
        largest_first(files, list),
    ensures
        list.len() == files.len(),
        forall|i: int| 0 <= i < files.len() ==> list.contains(#[trigger] files[i]),
        forall|a: int| 0 <= a < list.len() ==> files.contains(#[trigger] list[a]),
        forall|a: int, b: int|
            0 <= a < b < list.len() ==> (#[trigger] list[a]).1 >= (#[trigger] list[b]).1,
{
    let by_size = choose|by_size: Seq<usize>| #[trigger]
        order::is_order(entry_sizes(files), by_size) && list == order::arranged(files, by_size);
    order::law_order_is_complete(entry_sizes(files), by_size);
    assert forall|i: int| 0 <= i < files.len() implies list.contains(#[trigger] files[i]) by {
        assert(order::lists(by_size, i));
        let a = choose|a: int| 0 <= a < by_size.len() && #[trigger] by_size[a] as int == i;
        assert(list[a] == files[i]);
    }
    assert forall|a: int| 0 <= a < list.len() implies files.contains(#[trigger] list[a]) by {
        assert(by_size[a] < entry_sizes(files).len());
        assert(list[a] == files[by_size[a] as int]);
    }
    assert forall|a: int, b: int| 0 <= a < b < list.len() implies (#[trigger] list[a]).1 >= (
    #[trigger] list[b]).1 by {
        assert(order::comes_first(entry_sizes(files), by_size[a] as int, by_size[b] as int));
        assert(by_size[a] < entry_sizes(files).len());
        assert(by_size[b] < entry_sizes(files).len());
    }
}

/// A file is found exactly when it is as large as was asked for, and then it is
/// listed with its size.
pub proof fn law_large_files_are_found(
    run: &mut LargeFilesRun,
    path: FilePath,
    size: u64,
    event: Option<LargeFileEvent>,
)
    requires
        call_ensures(LargeFilesRun::sized, (run, path, size), event),
        run.wf(),
    ensures
        event is Some == (size >= old(run).min_size),
        event is Some ==> (event->0 matches LargeFileEvent::Found(e) && e.path@ == path@ && e.size
            == size),
        event is Some ==> final(run).results@.len() == old(run).results@.len() + 1
            && final(run).results@.last().path@ == path@ && final(run).results@.last().size == size,
        event is None ==> final(run).results == old(run).results,
        event is Some && old(run).total_bytes + size <= u64::MAX ==> final(run).total_bytes
            == old(run).total_bytes + size,
{
    if event is Some {
        let a = entry_views(run.results@);
        let b = entry_views(final(run).results@);
        assert(b == a.push((path@, size)));
        assert(b.len() == final(run).results@.len());
        assert(b.last() == final(run).results@.last()@);
        lemma_sum_prefix(a, b, a.len() as int);
    }
}

/// Whether a list has a file with the given size.
pub open spec fn lists_file(v: Seq<FileEntry>, path: PathView, size: u64) -> bool {
    exists|a: int| 0 <= a < v.len() && (#[trigger] v[a]).path@ == path && v[a].size == size
}

/// Sorting keeps every file as it is, loses none of them, and puts
/// the larger ones first.
pub proof fn law_sorting_keeps_every_file(files: &Vec<FileEntry>, r: Vec<FileEntry>)
    requires
        call_ensures(sort_files, (files,), r),
    ensures
        r@.len() == files@.len(),
        forall|i: int|
            0 <= i < files@.len() ==> lists_file(r@, (#[trigger] files@[i]).path@, files@[i].size),
        forall|a: int, b: int|
            0 <= a < b < r@.len() ==> (#[trigger] r@[a]).size >= (#[trigger] r@[b]).size,
{
    let from = entry_views(files@);
    let to = entry_views(r@);
    law_sorted_files(from, to);
    assert forall|i: int| 0 <= i < files@.len() implies lists_file(
        r@,
        (#[trigger] files@[i]).path@,
        files@[i].size,
    ) by {
        assert(to.contains(from[i]));
        let a = choose|a: int| 0 <= a < to.len() && to[a] == from[i];
        assert(r@[a]@ == files@[i]@);
    }
    assert forall|a: int, b: int| 0 <= a < b < r@.len() implies (#[trigger] r@[a]).size >= (
    #[trigger] r@[b]).size by {
        assert(to[a].1 >= to[b].1);
    }
}

/// A finished search gives back what was found, the largest first, and tells
/// how many files that are.
pub proof fn law_search_gives_what_was_found(
    run: LargeFilesRun,
    r: (Vec<FileEntry>, LargeFileEvent),
)
    requires
        call_ensures(LargeFilesRun::finish, (run,), r),
        run.wf(),
    ensures
        r.0@.len() == run.results@.len(),
        r.1 == (LargeFileEvent::Finished {
            count: run.results.len(),
            total_bytes: run.total_bytes,
        }),
        forall|i: int|
            0 <= i < run.results@.len() ==> lists_file(r.0@, (#[trigger] run.results@[i]).path@, run.results@[i].size),
        forall|a: int, b: int|
            0 <= a < b < r.0@.len() ==> (#[trigger] r.0@[a]).size >= (#[trigger] r.0@[b]).size,
{
    let from = entry_views(run.results@);
    let to = entry_views(r.0@);
    law_sorted_files(from, to);
    assert forall|i: int| 0 <= i < run.results@.len() implies lists_file(r.0@, (#[trigger] run.results@[i]).path@, run.results@[i].size) by {
        assert(to.contains(from[i]));
        let a = choose|a: int| 0 <= a < to.len() && to[a] == from[i];
        assert(r.0@[a]@ == run.results@[i]@);
    }
    assert forall|a: int, b: int| 0 <= a < b < r.0@.len() implies (#[trigger] r.0@[a]).size >= (
    #[trigger] r.0@[b]).size by {
        assert(to[a].1 >= to[b].1);
    }
}

/// A search starts with nothing found and with the size that was asked for.
pub proof fn law_search_for_large_files_starts_empty(options: LargeFilesOptions, run: LargeFilesRun)
    requires
        call_ensures(LargeFilesRun::new, (options,), run),
    ensures
        run.min_size == options.min_size,
        run.results@.len() == 0,
        run.files_scanned == 0,
{
}

} // verus!
