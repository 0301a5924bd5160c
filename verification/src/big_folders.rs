//! Finding out which folders take up space. A folder counts everything below
//! it, however deep, so that a deeply nested one shows up too.

use vstd::prelude::*;

use crate::index::PathIndex;
use crate::order;
use crate::paths::{FilePath, PathView};

verus! {

#[derive(Debug, Clone, Copy, PartialEq, Eq, Structural)]
pub struct BigFoldersOptions {
    pub min_size: u64,
}

impl Default for BigFoldersOptions {
    /// Folders from 500 MiB on.
    fn default() -> (r: BigFoldersOptions)
        ensures
            r.min_size == 500 * 1024 * 1024,
    {
        BigFoldersOptions { min_size: 524_288_000 }
    }
}

#[derive(Debug, PartialEq, Eq)]
pub struct FolderEntry {
    pub path: FilePath,
    pub size: u64,
    pub file_count: usize,
}

#[verifier::ext_equal]
pub ghost struct FolderView {
    pub path: PathView,
    pub size: u64,
    pub file_count: usize,
}

impl View for FolderEntry {
    type V = FolderView;

    open spec fn view(&self) -> FolderView {
        FolderView { path: self.path@, size: self.size, file_count: self.file_count }
    }
}

impl Clone for FolderEntry {
    fn clone(&self) -> (r: FolderEntry)
        ensures
            r@ == self@,
    {
        FolderEntry { path: self.path.clone(), size: self.size, file_count: self.file_count }
    }
}

/// What the search tells about its progress.
#[derive(Debug, PartialEq, Eq)]
pub enum BigFolderEvent {
    Scanning { files_scanned: usize },
    Found(FolderEntry),
    Finished { count: usize },
    Cancelled,
}

/// Whether a file found below `root` counts for a folder: the folder is
/// `root` or below it, and the file is somewhere below the folder.
pub open spec fn counts_for(root: PathView, file: PathView, folder: PathView) -> bool {
    folder.under(root) && file.under(folder) && folder.parts.len() < file.parts.len()
}

/// Whether a folder holds the file and is at least `k` components deep.
spec fn deep_enough(file: PathView, folder: PathView, k: int) -> bool {
    file.under(folder) && k <= folder.parts.len() < file.parts.len()
}

/// Whether a list has an entry for a folder.
pub open spec fn lists_folder(v: Seq<FolderEntry>, folder: PathView) -> bool {
    exists|a: int| 0 <= a < v.len() && (#[trigger] v[a]).path@ == folder
}

/// What each folder holds: bytes, and how many files.
pub struct FolderTotals {
    names: PathIndex,
    sizes: Vec<u64>,
    counts: Vec<usize>,
    files: Ghost<Seq<CountedFile>>,
}

/// A file that was counted: below which root it was found, and its size.
pub ghost struct CountedFile {
    pub root: PathView,
    pub path: PathView,
    pub size: u64,
}

/// The bytes that the first `n` files bring to a folder, modulo 2^64.
pub open spec fn bytes_below(files: Seq<CountedFile>, folder: PathView, n: int) -> u64
    decreases n,
{
    if n <= 0 {
        0
    } else if counts_for(files[n - 1].root, files[n - 1].path, folder) {
        bytes_below(files, folder, n - 1).wrapping_add(files[n - 1].size)
    } else {
        bytes_below(files, folder, n - 1)
    }
}

/// How many of the first `n` files count for a folder, modulo the size of a
/// `usize`.
pub open spec fn files_below(files: Seq<CountedFile>, folder: PathView, n: int) -> usize
    decreases n,
{
    if n <= 0 {
        0
    } else if counts_for(files[n - 1].root, files[n - 1].path, folder) {
        files_below(files, folder, n - 1).wrapping_add(1)
    } else {
        files_below(files, folder, n - 1)
    }
}

proof fn lemma_below_prefix(a: Seq<CountedFile>, b: Seq<CountedFile>, folder: PathView, n: int)
    requires
        n <= a.len() <= b.len(),
        forall|i: int| 0 <= i < a.len() ==> a[i] == b[i],
    ensures
        bytes_below(a, folder, n) == bytes_below(b, folder, n),
        files_below(a, folder, n) == files_below(b, folder, n),
    decreases n,
{
    if n > 0 {
        lemma_below_prefix(a, b, folder, n - 1);
    }
}

impl FolderTotals {
    spec fn shape(self) -> bool {
        &&& self.names.wf()
        &&& self.sizes@.len() == self.names@.len()
        &&& self.counts@.len() == self.names@.len()
    }

    /// What is held of each folder is what the files counted so far bring.
    pub closed spec fn wf(self) -> bool {
        &&& self.shape()
        &&& forall|f: PathView| #[trigger]
            self.size_of(f) == bytes_below(self.files@, f, self.files@.len() as int)
        &&& forall|f: PathView| #[trigger]
            self.count_of(f) == files_below(self.files@, f, self.files@.len() as int)
    }

    /// The files counted so far.
    pub closed spec fn counted(self) -> Seq<CountedFile> {
        self.files@
    }

    /// A folder's total is the sum over all files below it, however deep.
    pub proof fn law_totals_are_cumulative(self, folder: PathView)
        requires
            self.wf(),
        ensures
            self.size_of(folder) == bytes_below(
                self.counted(),
                folder,
                self.counted().len() as int,
            ),
            self.count_of(folder) == files_below(
                self.counted(),
                folder,
                self.counted().len() as int,
            ),
    {
    }

    /// Whether a folder holds any file.
    pub closed spec fn has(self, folder: PathView) -> bool {
        self.names@.contains(folder)
    }

    /// The bytes that a folder holds, modulo 2^64.
    pub closed spec fn size_of(self, folder: PathView) -> u64 {
        if self.names@.contains(folder) {
            self.sizes@[self.names@.index_of(folder)]
        } else {
            0
        }
    }

    /// How many files a folder holds.
    pub closed spec fn count_of(self, folder: PathView) -> usize {
        if self.names@.contains(folder) {
            self.counts@[self.names@.index_of(folder)]
        } else {
            0
        }
    }

    pub fn new() -> (r: FolderTotals)
        ensures
            r.wf(),
            forall|f: PathView| !r.has(f),
            forall|f: PathView| r.size_of(f) == 0,
            forall|f: PathView| r.count_of(f) == 0,
            r.counted() == Seq::<CountedFile>::empty(),
    {
        FolderTotals {
            names: PathIndex::new(),
            sizes: Vec::new(),
            counts: Vec::new(),
            files: Ghost(Seq::empty()),
        }
    }

    fn add_one(&mut self, folder: FilePath, size: u64)
        requires
            old(self).shape(),
        ensures
            final(self).shape(),
            final(self).files == old(self).files,
            forall|f: PathView| #[trigger] final(self).has(f) == (old(self).has(f) || f == folder@),
            forall|f: PathView| #[trigger]
                final(self).size_of(f) == (if f == folder@ {
                    old(self).size_of(f).wrapping_add(size)
                } else {
                    old(self).size_of(f)
                }),
            forall|f: PathView| #[trigger]
                final(self).count_of(f) == (if f == folder@ {
                    old(self).count_of(f).wrapping_add(1)
                } else {
                    old(self).count_of(f)
                }),
    {
        let ghost before = *self;
        let ghost key = folder@;
        let i: usize = self.names.insert(folder);
        if i < self.sizes.len() {
            let s: u64 = self.sizes[i];
            let c: usize = self.counts[i];
            self.sizes.set(i, s.wrapping_add(size));
            self.counts.set(i, c.wrapping_add(1));
        } else {
            self.sizes.push(size);
            self.counts.push(1);
        }
        proof {
            before.names.lemma_unique();
            self.names.lemma_unique();
            let names = self.names@;
            assert(names[i as int] == key);
            assert(names.contains(key));
            assert(names.index_of(key) == i);
            if before.names@.contains(key) {
                assert(before.names@.index_of(key) == i);
            }
            assert forall|f: PathView| f != key implies names.contains(f)
                == before.names@.contains(f) && self.size_of(f) == before.size_of(f)
                && self.count_of(f) == before.count_of(f) by {
                if before.names@.contains(f) {
                    let j = before.names@.index_of(f);
                    assert(names[j] == f);
                    assert(names.contains(f));
                    assert(names.index_of(f) == j);
                } else if names.contains(f) {
                    let j = names.index_of(f);
                    assert(before.names@[j] == f);
                }
            }
            assert forall|f: PathView| #[trigger] self.has(f) == (before.has(f) || f == key) by {
                if f != key {
                    assert(names.contains(f) == before.names@.contains(f));
                }
            }
            assert forall|f: PathView| #[trigger]
                self.size_of(f) == (if f == key {
                    before.size_of(f).wrapping_add(size)
                } else {
                    before.size_of(f)
                }) by {}
            assert forall|f: PathView| #[trigger]
                self.count_of(f) == (if f == key {
                    before.count_of(f).wrapping_add(1)
                } else {
                    before.count_of(f)
                }) by {}
        }
    }

    fn count_file(&mut self, root: &FilePath, file: &FilePath, size: u64)
        requires
            old(self).shape(),
        ensures
            final(self).shape(),
            final(self).files == old(self).files,
            forall|f: PathView| #[trigger]
                final(self).has(f) == (old(self).has(f) || counts_for(root@, file@, f)),
            forall|f: PathView| #[trigger]
                final(self).size_of(f) == (if counts_for(root@, file@, f) {
                    old(self).size_of(f).wrapping_add(size)
                } else {
                    old(self).size_of(f)
                }),
            forall|f: PathView| #[trigger]
                final(self).count_of(f) == (if counts_for(root@, file@, f) {
                    old(self).count_of(f).wrapping_add(1)
                } else {
                    old(self).count_of(f)
                }),
    {
        let ghost before = *self;
        let parent = match file.parent() {
            Some(p) => p,
            None => return,
        };
        if !parent.starts_with(root) {
            proof {
                assert forall|f: PathView| !counts_for(root@, file@, f) by {
                    if counts_for(root@, file@, f) {
                        let n = root@.parts.len() as int;
                        assert(parent@.parts.take(n) =~= f.parts.take(n)) by {
                            let k = f.parts.len() as int;
                            assert(file@.parts.take(k) == f.parts);
                            assert forall|i: int| 0 <= i < n implies parent@.parts[i]
                                == f.parts[i] by {
                                assert(file@.parts.take(k)[i] == f.parts[i]);
                            }
                        }
                        assert(parent@.under(root@));
                    }
                }
            }
            return;
        }
        let mut folder = parent;
        let stop: usize = root.parts.len();
        let ghost n = file@.parts.len() as int;
        let ghost done = n;
        proof {
            assert(file@.under(folder@)) by {
                assert(file@.parts.take(n - 1) =~= folder@.parts);
            }
        }
        loop
            invariant_except_break
                self.shape(),
                self.files == before.files,
                stop == root.parts@.len(),
                n == file@.parts.len(),
                stop <= folder@.parts.len() < n,
                done == folder@.parts.len() + 1,
                folder@.under(root@),
                file@.under(folder@),
                forall|f: PathView| #[trigger]
                    self.has(f) == (before.has(f) || deep_enough(file@, f, done)),
                forall|f: PathView| #[trigger]
                    self.size_of(f) == (if deep_enough(file@, f, done) {
                        before.size_of(f).wrapping_add(size)
                    } else {
                        before.size_of(f)
                    }),
                forall|f: PathView| #[trigger]
                    self.count_of(f) == (if deep_enough(file@, f, done) {
                        before.count_of(f).wrapping_add(1)
                    } else {
                        before.count_of(f)
                    }),
            ensures
                self.shape(),
                self.files == before.files,
                done == stop,
                stop == root.parts@.len(),
                folder@.under(root@),
                file@.under(folder@),
                folder@.parts.len() == stop,
                stop < n,
                n == file@.parts.len(),
                forall|f: PathView| #[trigger]
                    self.has(f) == (before.has(f) || deep_enough(file@, f, done)),
                forall|f: PathView| #[trigger]
                    self.size_of(f) == (if deep_enough(file@, f, done) {
                        before.size_of(f).wrapping_add(size)
                    } else {
                        before.size_of(f)
                    }),
                forall|f: PathView| #[trigger]
                    self.count_of(f) == (if deep_enough(file@, f, done) {
                        before.count_of(f).wrapping_add(1)
                    } else {
                        before.count_of(f)
                    }),
            decreases folder@.parts.len(),
        {
            let ghost here = folder@;
            let ghost mid = *self;
            self.add_one(folder.clone(), size);
            proof {
                assert forall|f: PathView|
                    deep_enough(file@, f, done - 1) == (deep_enough(file@, f, done) || f == here) by {
                    if deep_enough(file@, f, done - 1) && !deep_enough(file@, f, done) {
                        assert(f.parts.len() == here.parts.len());
                        assert(f.parts =~= here.parts);
                        assert(f =~= here);
                    }
                }
                assert(!deep_enough(file@, here, done));
                assert forall|f: PathView| #[trigger]
                    self.has(f) == (before.has(f) || deep_enough(file@, f, done - 1)) by {
                    assert(self.has(f) == (mid.has(f) || f == here));
                    assert(mid.has(f) == (before.has(f) || deep_enough(file@, f, done)));
                }
                assert forall|f: PathView| #[trigger]
                    self.size_of(f) == (if deep_enough(file@, f, done - 1) {
                        before.size_of(f).wrapping_add(size)
                    } else {
                        before.size_of(f)
                    }) by {
                    assert(mid.size_of(f) == (if deep_enough(file@, f, done) {
                        before.size_of(f).wrapping_add(size)
                    } else {
                        before.size_of(f)
                    }));
                }
                assert forall|f: PathView| #[trigger]
                    self.count_of(f) == (if deep_enough(file@, f, done - 1) {
                        before.count_of(f).wrapping_add(1)
                    } else {
                        before.count_of(f)
                    }) by {
                    assert(mid.count_of(f) == (if deep_enough(file@, f, done) {
                        before.count_of(f).wrapping_add(1)
                    } else {
                        before.count_of(f)
                    }));
                }
                done = done - 1;
            }
            if folder.parts.len() == stop {
                break;
            }
            match folder.parent() {
                Some(p) => {
                    proof {
                        let k = here.parts.len() - 1;
                        assert(p@.parts.take(root@.parts.len() as int) =~= root@.parts) by {
                            assert forall|i: int| 0 <= i < root@.parts.len() implies p@.parts[i]
                                == root@.parts[i] by {
                                assert(here.parts.take(root@.parts.len() as int)[i]
                                    == root@.parts[i]);
                            }
                        }
                        assert(file@.parts.take(k) =~= p@.parts) by {
                            assert forall|i: int| 0 <= i < k implies file@.parts[i] == p@.parts[i] by {
                                assert(file@.parts.take(k + 1)[i] == here.parts[i]);
                            }
                        }
                    }
                    folder = p;
                },
                None => {
                    break;
                },
            }
        }
        proof {
            assert forall|f: PathView|
                counts_for(root@, file@, f) == deep_enough(file@, f, stop as int) by {
                if deep_enough(file@, f, stop as int) {
                    let r = root@.parts.len() as int;
                    assert(f.parts.take(r) =~= root@.parts) by {
                        assert forall|i: int| 0 <= i < r implies f.parts[i] == root@.parts[i] by {
                            assert(file@.parts.take(f.parts.len() as int)[i] == f.parts[i]);
                            assert(file@.parts.take(folder@.parts.len() as int)[i]
                                == folder@.parts[i]);
                            assert(folder@.parts.take(r)[i] == root@.parts[i]);
                        }
                    }
                }
            }
        }
    }

    /// Counts a file found below `root` for every folder that holds it, up to
    /// and with `root`.
    pub fn add_file(&mut self, root: &FilePath, file: &FilePath, size: u64)
        requires
            old(self).wf(),
        ensures
            final(self).wf(),
            final(self).counted() == old(self).counted().push(
                CountedFile { root: root@, path: file@, size },
            ),
            forall|f: PathView| #[trigger]
                final(self).has(f) == (old(self).has(f) || counts_for(root@, file@, f)),
            forall|f: PathView| #[trigger]
                final(self).size_of(f) == (if counts_for(root@, file@, f) {
                    old(self).size_of(f).wrapping_add(size)
                } else {
                    old(self).size_of(f)
                }),
            forall|f: PathView| #[trigger]
                final(self).count_of(f) == (if counts_for(root@, file@, f) {
                    old(self).count_of(f).wrapping_add(1)
                } else {
                    old(self).count_of(f)
                }),
            old(self).with_file(*final(self), root@, file@, size),
    {
        let ghost before = *self;
        self.count_file(root, file, size);
        let ghost mid = *self;
        proof {
            let entry = CountedFile { root: root@, path: file@, size };
            let old_files = before.files@;
            self.files@ = old_files.push(entry);
            let n = old_files.len() as int;
            assert forall|f: PathView| #[trigger]
                self.size_of(f) == bytes_below(self.files@, f, n + 1) by {
                lemma_below_prefix(old_files, self.files@, f, n);
                assert(mid.size_of(f) == self.size_of(f));
                assert(before.size_of(f) == bytes_below(old_files, f, n));
            }
            assert forall|f: PathView| #[trigger]
                self.count_of(f) == files_below(self.files@, f, n + 1) by {
                lemma_below_prefix(old_files, self.files@, f, n);
                assert(mid.count_of(f) == self.count_of(f));
                assert(before.count_of(f) == files_below(old_files, f, n));
            }
            assert forall|f: PathView| #[trigger]
                self.has(f) == (before.has(f) || counts_for(root@, file@, f)) by {
                assert(mid.has(f) == self.has(f));
            }
            assert forall|f: PathView| #[trigger]
                self.size_of(f) == (if counts_for(root@, file@, f) {
                    before.size_of(f).wrapping_add(size)
                } else {
                    before.size_of(f)
                }) by {
                assert(mid.size_of(f) == self.size_of(f));
            }
            assert forall|f: PathView| #[trigger]
                self.count_of(f) == (if counts_for(root@, file@, f) {
                    before.count_of(f).wrapping_add(1)
                } else {
                    before.count_of(f)
                }) by {
                assert(mid.count_of(f) == self.count_of(f));
            }
        }
    }

    /// Whether `after` has one more file: it counts for every folder that holds
    /// it, up to the root below which it was found, and for no other.
    pub open spec fn with_file(
        self,
        after: FolderTotals,
        root: PathView,
        file: PathView,
        size: u64,
    ) -> bool {
        &&& forall|f: PathView| #[trigger]
            after.has(f) == (self.has(f) || counts_for(root, file, f))
        &&& forall|f: PathView| #[trigger]
            after.size_of(f) == (if counts_for(root, file, f) {
                self.size_of(f).wrapping_add(size)
            } else {
                self.size_of(f)
            })
        &&& forall|f: PathView| #[trigger]
            after.count_of(f) == (if counts_for(root, file, f) {
                self.count_of(f).wrapping_add(1)
            } else {
                self.count_of(f)
            })
    }

    /// Whether a list has exactly the folders that hold at least `min_size`
    /// bytes, each once and the largest first.
    pub open spec fn lists_big(self, r: Seq<FolderEntry>, min_size: u64) -> bool {
        &&& forall|a: int|
            0 <= a < r.len() ==> {
                let e = #[trigger] r[a];
                &&& self.has(e.path@)
                &&& e.size == self.size_of(e.path@)
                &&& e.file_count == self.count_of(e.path@)
                &&& e.size >= min_size
            }
        &&& forall|f: PathView|
            #[trigger] self.has(f) && self.size_of(f) >= min_size ==> lists_folder(r, f)
        &&& forall|a: int, b: int|
            0 <= a < b < r.len() ==> (#[trigger] r[a]).path@ != (#[trigger] r[b]).path@
                && r[a].size >= r[b].size
    }

    /// The folders that hold at least `min_size` bytes, largest first.
    pub fn big_ones(&self, min_size: u64) -> (r: Vec<FolderEntry>)
        requires
            self.wf(),
        ensures
            forall|a: int|
                0 <= a < r@.len() ==> {
                    let e = #[trigger] r@[a];
                    &&& self.has(e.path@)
                    &&& e.size == self.size_of(e.path@)
                    &&& e.file_count == self.count_of(e.path@)
                    &&& e.size >= min_size
                },
            forall|f: PathView|
                #[trigger] self.has(f) && self.size_of(f) >= min_size ==> lists_folder(r@, f),
            forall|a: int, b: int|
                0 <= a < b < r@.len() ==> (#[trigger] r@[a]).path@ != (#[trigger] r@[b]).path@
                    && r@[a].size >= r@[b].size,
            self.lists_big(r@, min_size),
    {
        proof {
            self.names.lemma_unique();
        }
        let mut found: Vec<FolderEntry> = Vec::new();
        let mut keys: Vec<u64> = Vec::new();
        let mut i: usize = 0;
        while i < self.names.len()
            invariant
                self.wf(),
                self.names@.no_duplicates(),
                i <= self.names@.len(),
                keys@.len() == found@.len(),
                forall|a: int| 0 <= a < found@.len() ==> keys@[a] == (#[trigger] found@[a]).size,
                forall|a: int|
                    0 <= a < found@.len() ==> {
                        let e = #[trigger] found@[a];
                        &&& self.has(e.path@)
                        &&& self.names@.index_of(e.path@) < i
                        &&& e.size == self.size_of(e.path@)
                        &&& e.file_count == self.count_of(e.path@)
                        &&& e.size >= min_size
                    },
                forall|j: int|
                    0 <= j < i && self.sizes@[j] >= min_size ==> lists_folder(
                        found@,
                        #[trigger] self.names@[j],
                    ),
                forall|a: int, b: int|
                    0 <= a < b < found@.len() ==> (#[trigger] found@[a]).path@ != (
                    #[trigger] found@[b]).path@,
            decreases self.names@.len() - i,
        {
            let ghost before = found@;
            let size: u64 = self.sizes[i];
            proof {
                let f = self.names@[i as int];
                assert(self.names@.contains(f));
                assert(self.names@.index_of(f) == i);
            }
            if size >= min_size {
                let e = FolderEntry {
                    path: self.names.get(i).clone(),
                    size,
                    file_count: self.counts[i],
                };
                keys.push(size);
                found.push(e);
                proof {
                    assert(found@[before.len() as int].path@ == self.names@[i as int]);
                    assert forall|j: int|
                        0 <= j < i + 1 && self.sizes@[j] >= min_size implies lists_folder(
                        found@,
                        #[trigger] self.names@[j],
                    ) by {
                        if j < i {
                            assert(lists_folder(before, self.names@[j]));
                            let a = choose|a: int|
                                0 <= a < before.len() && (#[trigger] before[a]).path@
                                    == self.names@[j];
                            assert(found@[a].path@ == self.names@[j]);
                        } else {
                            assert(found@[before.len() as int].path@ == self.names@[j]);
                        }
                    }
                }
            }
            i = i + 1;
        }
        let by_size = order::largest_first(&keys);
        let mut r: Vec<FolderEntry> = Vec::new();
        let mut a: usize = 0;
        while a < by_size.len()
            invariant
                a <= by_size@.len(),
                r@.len() == a,
                order::is_order(keys@, by_size@),
                keys@.len() == found@.len(),
                forall|j: int| 0 <= j < a ==> (#[trigger] r@[j])@ == found@[by_size@[j] as int]@,
            decreases by_size@.len() - a,
        {
            proof {
                assert(by_size@[a as int] < keys@.len());
            }
            r.push(found[by_size[a]].clone());
            a = a + 1;
        }
        proof {
            order::law_order_is_complete(keys@, by_size@);
            assert forall|x: int| 0 <= x < r@.len() implies {
                let e = #[trigger] r@[x];
                &&& self.has(e.path@)
                &&& e.size == self.size_of(e.path@)
                &&& e.file_count == self.count_of(e.path@)
                &&& e.size >= min_size
            } by {
                let y = by_size@[x] as int;
                assert(by_size@[x] < keys@.len());
                assert(r@[x]@ == found@[y]@);
            }
            assert forall|f: PathView|
                #[trigger] self.has(f) && self.size_of(f) >= min_size implies lists_folder(r@, f) by {
                let j = self.names@.index_of(f);
                assert(self.names@[j] == f);
                assert(lists_folder(found@, self.names@[j]));
                let y = choose|y: int|
                    0 <= y < found@.len() && (#[trigger] found@[y]).path@ == self.names@[j];
                assert(order::lists(by_size@, y));
                let x = choose|x: int| 0 <= x < by_size@.len() && #[trigger] by_size@[x] as int == y;
                assert(r@[x]@ == found@[y]@);
            }
            assert forall|x: int, y: int| 0 <= x < y < r@.len() implies (#[trigger] r@[x]).path@ != (
            #[trigger] r@[y]).path@ && r@[x].size >= r@[y].size by {
                let p = by_size@[x] as int;
                let q = by_size@[y] as int;
                assert(by_size@[x] < keys@.len());
                assert(by_size@[y] < keys@.len());
                assert(order::comes_first(keys@, p, q));
                assert(r@[x]@ == found@[p]@);
                assert(r@[y]@ == found@[q]@);
                assert(p != q);
                assert(keys@[p] == found@[p].size);
                assert(keys@[q] == found@[q].size);
                if p < q {
                    assert(found@[p].path@ != found@[q].path@);
                } else {
                    assert(found@[q].path@ != found@[p].path@);
                }
            }
        }
        r
    }
}

/// A file that counts for a folder counts for every folder around it, up to
/// the root.
pub proof fn law_outer_folder_counts_all(
    root: PathView,
    file: PathView,
    outer: PathView,
    inner: PathView,
)
    requires
        outer.under(root),
        inner.under(outer),
        counts_for(root, file, inner),
    ensures
        counts_for(root, file, outer),
{
    let k = outer.parts.len() as int;
    assert(file.parts.take(k) =~= outer.parts) by {
        assert forall|i: int| 0 <= i < k implies file.parts[i] == outer.parts[i] by {
            assert(file.parts.take(inner.parts.len() as int)[i] == inner.parts[i]);
            assert(inner.parts.take(k)[i] == outer.parts[i]);
        }
    }
}

/// The state of a search for big folders.
pub struct BigFoldersRun {
    pub min_size: u64,
    pub files_scanned: usize,
    pub totals: FolderTotals,
}

impl BigFoldersRun {
    pub fn new(options: BigFoldersOptions) -> (r: BigFoldersRun)
        ensures
            r.totals.wf(),
            r.totals.counted() == Seq::<CountedFile>::empty(),
            forall|f: PathView| !r.totals.has(f),
            r.min_size == options.min_size,
            r.files_scanned == 0,
    {
        BigFoldersRun {
            min_size: options.min_size,
            files_scanned: 0,
            totals: FolderTotals::new(),
        }
    }

    /// Takes note of a file: an event every 1000 files.
    pub fn scanned(&mut self) -> (event: Option<BigFolderEvent>)
        requires
            old(self).files_scanned < usize::MAX,
        ensures
            ({
                let n = (old(self).files_scanned + 1) as usize;
                &&& *final(self) == (BigFoldersRun { files_scanned: n, ..*old(self) })
                &&& event == (if n % 1000 == 0 {
                    Some(BigFolderEvent::Scanning { files_scanned: n })
                } else {
                    None
                })
            }),
    {
        self.files_scanned = self.files_scanned + 1;
        if self.files_scanned % 1000 == 0 {
            Some(BigFolderEvent::Scanning { files_scanned: self.files_scanned })
        } else {
            None
        }
    }

    /// The big folders, largest first, and the event that ends a complete
    /// search.
    pub fn finish(&self) -> (r: (Vec<FolderEntry>, BigFolderEvent))
        requires
            self.totals.wf(),
        ensures
            forall|a: int|
                0 <= a < r.0@.len() ==> {
                    let e = #[trigger] r.0@[a];
                    &&& self.totals.has(e.path@)
                    &&& e.size == self.totals.size_of(e.path@)
                    &&& e.file_count == self.totals.count_of(e.path@)
                    &&& e.size >= self.min_size
                },
            forall|f: PathView|
                #[trigger] self.totals.has(f) && self.totals.size_of(f) >= self.min_size
                    ==> lists_folder(r.0@, f),
            forall|a: int, b: int|
                0 <= a < b < r.0@.len() ==> (#[trigger] r.0@[a]).path@ != (
                #[trigger] r.0@[b]).path@ && r.0@[a].size >= r.0@[b].size,
            r.1 == (BigFolderEvent::Finished { count: r.0.len() }),
            self.totals.lists_big(r.0@, self.min_size),
    {
        let found = self.totals.big_ones(self.min_size);
        let event = BigFolderEvent::Finished { count: found.len() };
        (found, event)
    }
}

/// A file counts for every folder on the way from the root to it, however deep
/// it lies, and for no folder beside that way.
pub proof fn law_files_count_for_all_folders_around(
    totals: &mut FolderTotals,
    root: &FilePath,
    file: &FilePath,
    size: u64,
    u: (),
    folder: PathView,
)
    requires
        call_ensures(FolderTotals::add_file, (totals, root, file, size), u),
        totals.wf(),
        totals.size_of(folder) + size <= u64::MAX,
        totals.count_of(folder) < usize::MAX,
    ensures
        ({
            let around = folder.root == root@.root && file@.root == root@.root
                && root@.parts.is_prefix_of(folder.parts) && folder.parts.is_prefix_of(file@.parts)
                && folder.parts.len() < file@.parts.len();
            &&& around ==> final(totals).has(folder) && final(totals).size_of(folder) == old(totals).size_of(folder) + size && final(totals).count_of(folder) == old(totals).count_of(
                folder,
            ) + 1
            &&& !around ==> final(totals).has(folder) == old(totals).has(folder) && final(totals).size_of(folder) == old(totals).size_of(folder) && final(totals).count_of(folder)
                == old(totals).count_of(folder)
        }),
{
    let n = root@.parts.len() as int;
    let m = folder.parts.len() as int;
    if n <= m {
        assert(folder.parts.take(n) =~= folder.parts.subrange(0, n));
    }
    if m <= file@.parts.len() {
        assert(file@.parts.take(m) =~= file@.parts.subrange(0, m));
    }
    assert(final(totals).has(folder) == (totals.has(folder) || counts_for(root@, file@, folder)));
    assert(final(totals).size_of(folder) == (if counts_for(root@, file@, folder) {
        totals.size_of(folder).wrapping_add(size)
    } else {
        totals.size_of(folder)
    }));
    assert(final(totals).count_of(folder) == (if counts_for(root@, file@, folder) {
        totals.count_of(folder).wrapping_add(1)
    } else {
        totals.count_of(folder)
    }));
}

/// A finished search lists a folder with what it holds exactly when that is as
/// much as was asked for; the larger ones come first.
pub proof fn law_big_folders_are_listed(
    run: &BigFoldersRun,
    r: (Vec<FolderEntry>, BigFolderEvent),
    folder: PathView,
)
    requires
        call_ensures(BigFoldersRun::finish, (run,), r),
        run.totals.wf(),
    ensures
        run.totals.has(folder) && run.totals.size_of(folder) >= run.min_size ==> exists|a: int|
            0 <= a < r.0@.len() && (#[trigger] r.0@[a]).path@ == folder && r.0@[a].size
                == run.totals.size_of(folder) && r.0@[a].file_count == run.totals.count_of(folder),
        !run.totals.has(folder) || run.totals.size_of(folder) < run.min_size ==> forall|a: int|
            0 <= a < r.0@.len() ==> (#[trigger] r.0@[a]).path@ != folder,
        forall|a: int, b: int|
            0 <= a < b < r.0@.len() ==> (#[trigger] r.0@[a]).size >= (#[trigger] r.0@[b]).size,
        r.1 == (BigFolderEvent::Finished { count: r.0.len() }),
{
    if run.totals.has(folder) && run.totals.size_of(folder) >= run.min_size {
        assert(lists_folder(r.0@, folder));
        let a = choose|a: int| 0 <= a < r.0@.len() && (#[trigger] r.0@[a]).path@ == folder;
        assert(r.0@[a].size == run.totals.size_of(folder));
    }
}

/// A search starts with nothing counted and with the size that was asked for.
pub proof fn law_search_for_big_folders_starts_empty(options: BigFoldersOptions, run: BigFoldersRun)
    requires
        call_ensures(BigFoldersRun::new, (options,), run),
    ensures
        run.min_size == options.min_size,
        run.totals.counted().len() == 0,
        run.files_scanned == 0,
{
}

} // verus!
