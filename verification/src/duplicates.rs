//! Finding duplicate files through a funnel: files of one size, then files
//! whose beginnings have one hash, then files whose contents have one hash.

use std::collections::HashMap;

use vstd::prelude::*;

use crate::hash;
use crate::paths;
use crate::paths::{FilePath, PathView};

verus! {

broadcast use vstd::std_specs::hash::group_hash_axioms;

/// How many bytes of a file the first hash covers.
pub const PARTIAL_HASH_BYTES: usize = 65_536;

#[derive(Debug, Clone, Copy, PartialEq, Eq)]
pub struct DupOptions {
    /// Files smaller than this are left out.
    pub min_size: u64,
}

impl Default for DupOptions {
    fn default() -> (r: DupOptions)
        ensures
            r.min_size == 4096,
    {
        DupOptions { min_size: 4096 }
    }
}

/// Files that hold the same contents.
#[derive(Debug, PartialEq, Eq)]
pub struct DuplicateGroup {
    /// The hash of the contents, in hexadecimal notation.
    pub hash: String,
    pub size: u64,
    pub paths: Vec<FilePath>,
}

/// What the search tells about its progress.
#[derive(Debug, PartialEq, Eq)]
pub enum DupEvent {
    Scanning { files_found: usize },
    Hashing { done: usize, total: usize },
    GroupFound(DuplicateGroup),
    Finished { groups: usize, wasted_bytes: u64 },
    Cancelled,
}

/// Files of one size.
#[derive(Debug)]
pub struct SizeClass {
    pub size: u64,
    pub paths: Vec<FilePath>,
}

/// The files found, by size.
#[derive(Debug)]
pub struct BySize {
    at: HashMap<u64, usize>,
    classes: Vec<SizeClass>,
}

impl View for BySize {
    type V = Map<u64, Seq<PathView>>;

    closed spec fn view(&self) -> Map<u64, Seq<PathView>> {
        Map::new(
            |s: u64| self.at@.dom().contains(s),
            |s: u64| paths::views(self.classes@[self.at@[s] as int].paths@),
        )
    }
}

impl BySize {
    /// Every size that occurs has one class, and every class is found by its size.
    pub closed spec fn wf(self) -> bool {
        &&& forall|s: u64| #[trigger]
            self.at@.dom().contains(s) ==> self.at@[s] < self.classes@.len()
                && self.classes@[self.at@[s] as int].size == s
        &&& forall|i: int|
            0 <= i < self.classes@.len() ==> self.at@.dom().contains(
                (#[trigger] self.classes@[i]).size,
            ) && self.at@[self.classes@[i].size] == i
    }

    pub fn new() -> (r: BySize)
        ensures
            r.wf(),
            r@ == Map::<u64, Seq<PathView>>::empty(),
    {
        let r = BySize { at: HashMap::new(), classes: Vec::new() };
        proof {
            assert(r@ =~= Map::<u64, Seq<PathView>>::empty());
        }
        r
    }

    /// Adds a file after those of its size.
    pub fn insert(&mut self, size: u64, path: FilePath)
        requires
            old(self).wf(),
        ensures
            final(self).wf(),
            final(self)@ == old(self)@.insert(
                size,
                (if old(self)@.dom().contains(size) {
                    old(self)@[size]
                } else {
                    Seq::empty()
                }).push(path@),
            ),
    {
        let ghost before = *self;
        let found: Option<usize> = match self.at.get(&size) {
            Some(i) => Some(*i),
            None => None,
        };
        match found {
            Some(i) => {
                let ghost class = self.classes@[i as int];
                let mut moved = SizeClass { size, paths: Vec::new() };
                std::mem::swap(&mut moved, &mut self.classes[i]);
                moved.paths.push(path);
                std::mem::swap(&mut moved, &mut self.classes[i]);
                proof {
                    assert(paths::views(self.classes@[i as int].paths@) =~= paths::views(
                        class.paths@,
                    ).push(path@));
                    assert(self@ =~= before@.insert(size, before@[size].push(path@)));
                }
            },
            None => {
                let n: usize = self.classes.len();
                let mut paths: Vec<FilePath> = Vec::new();
                paths.push(path);
                self.classes.push(SizeClass { size, paths });
                self.at.insert(size, n);
                proof {
                    assert(paths::views(self.classes@[n as int].paths@) =~= Seq::empty().push(path@));
                    assert forall|s: u64| before@.dom().contains(s) implies #[trigger] self@[s]
                        == before@[s] by {
                        assert(before.at@[s] < n);
                    }
                    assert(self@ =~= before@.insert(size, Seq::empty().push(path@)));
                }
            },
        }
    }

    /// The classes of more than one file: those that can hold duplicates.
    pub fn candidates(self) -> (r: Vec<SizeClass>)
        requires
            self.wf(),
        ensures
            forall|i: int|
                0 <= i < r@.len() ==> {
                    &&& self@.dom().contains((#[trigger] r@[i]).size)
                    &&& paths::views(r@[i].paths@) == self@[r@[i].size]
                    &&& r@[i].paths@.len() > 1
                },
            forall|i: int, j: int|
                0 <= i < j < r@.len() ==> (#[trigger] r@[i]).size != (#[trigger] r@[j]).size,
            forall|s: u64|
                #[trigger] self@.dom().contains(s) && self@[s].len() > 1 ==> exists|i: int|
                    0 <= i < r@.len() && (#[trigger] r@[i]).size == s,
            shared_sizes(self@, r@),
    {
        let ghost this = self;
        let ghost all = self.classes@;
        let mut rest = self.classes;
        let mut r: Vec<SizeClass> = Vec::new();
        proof {
            assert(rest@ == all);
            assert(all.take(all.len() as int) =~= all);
        }
        while rest.len() > 0
            invariant
                this.wf(),
                this.classes@ == all,
                rest@.len() <= all.len(),
                rest@ == all.take(rest@.len() as int),
                forall|i: int|
                    0 <= i < r@.len() ==> {
                        &&& this@.dom().contains((#[trigger] r@[i]).size)
                        &&& paths::views(r@[i].paths@) == this@[r@[i].size]
                        &&& r@[i].paths@.len() > 1
                        &&& this.at@[r@[i].size] >= rest@.len()
                    },
                forall|i: int, j: int|
                    0 <= i < j < r@.len() ==> (#[trigger] r@[i]).size != (#[trigger] r@[j]).size,
                forall|k: int|
                    rest@.len() <= k < all.len() && (#[trigger] all[k]).paths@.len() > 1
                        ==> exists|i: int|
                        0 <= i < r@.len() && (#[trigger] r@[i]).size == all[k].size,
            decreases rest@.len(),
        {
            let ghost n = rest@.len() - 1;
            let ghost old_r = r@;
            match rest.pop() {
                Some(class) => {
                    proof {
                        assert(class == all[n]);
                        assert(rest@ =~= all.take(n));
                        assert(this.at@[class.size] == n);
                        assert(paths::views(class.paths@) == this@[class.size]);
                    }
                    if class.paths.len() > 1 {
                        r.push(class);
                        proof {
                            assert(r@[old_r.len() as int] == all[n]);
                            assert forall|k: int|
                                n <= k < all.len() && (#[trigger] all[k]).paths@.len()
                                    > 1 implies exists|i: int|
                                0 <= i < r@.len() && (#[trigger] r@[i]).size == all[k].size by {
                                if k == n {
                                    assert(r@[old_r.len() as int].size == all[k].size);
                                } else {
                                    let i = choose|i: int|
                                        0 <= i < old_r.len() && (#[trigger] old_r[i]).size
                                            == all[k].size;
                                    assert(r@[i].size == all[k].size);
                                }
                            }
                        }
                    }
                },
                None => {},
            }
        }
        proof {
            assert forall|s: u64|
                #[trigger] this@.dom().contains(s) && this@[s].len() > 1 implies exists|i: int|
                0 <= i < r@.len() && (#[trigger] r@[i]).size == s by {
                let k = this.at@[s] as int;
                assert(all[k].size == s);
                assert(all[k].paths@.len() == this@[s].len());
            }
        }
        r
    }
}

/// Whether classes are those files of one size, several of which there are:
/// every such size once, and no other.
pub open spec fn shared_sizes(files: Map<u64, Seq<PathView>>, classes: Seq<SizeClass>) -> bool {
    &&& forall|i: int|
        0 <= i < classes.len() ==> {
            &&& files.dom().contains((#[trigger] classes[i]).size)
            &&& paths::views(classes[i].paths@) == files[classes[i].size]
            &&& classes[i].paths@.len() > 1
        }
    &&& forall|i: int, j: int|
        0 <= i < j < classes.len() ==> (#[trigger] classes[i]).size != (#[trigger] classes[j]).size
    &&& forall|s: u64|
        #[trigger] files.dom().contains(s) && files[s].len() > 1 ==> exists|i: int|
            0 <= i < classes.len() && (#[trigger] classes[i]).size == s
}

/// The hashes that could be computed, as bytes.
pub open spec fn keys_of(v: Seq<Option<[u8; 32]>>) -> Seq<Option<Seq<u8>>> {
    v.map_values(
        |k: Option<[u8; 32]>|
            match k {
                Some(a) => Some(a@),
                None => None,
            },
    )
}

/// The positions among the first `n` that have the key `k`, ascending.
pub open spec fn positions(keys: Seq<Option<Seq<u8>>>, k: Option<Seq<u8>>, n: int) -> Seq<int>
    decreases n,
{
    if n <= 0 {
        Seq::empty()
    } else if keys[n - 1] == k {
        positions(keys, k, n - 1).push(n - 1)
    } else {
        positions(keys, k, n - 1)
    }
}

/// Whether position `i` has a key that no earlier position has.
pub open spec fn leads(keys: Seq<Option<Seq<u8>>>, i: int) -> bool {
    keys[i] is Some && forall|j: int| 0 <= j < i ==> #[trigger] keys[j] != keys[i]
}

/// The groups of more than one position with the same key, among those that
/// start before `n`; ordered by where they start.
pub open spec fn groups(keys: Seq<Option<Seq<u8>>>, n: int) -> Seq<Seq<int>>
    decreases n,
{
    if n <= 0 {
        Seq::empty()
    } else {
        let before = groups(keys, n - 1);
        let here = positions(keys, keys[n - 1], keys.len() as int);
        if leads(keys, n - 1) && here.len() > 1 {
            before.push(here)
        } else {
            before
        }
    }
}

pub open spec fn as_ints(v: Seq<usize>) -> Seq<int> {
    v.map_values(|i: usize| i as int)
}

fn positions_like(keys: &Vec<Option<[u8; 32]>>, at: usize) -> (r: Vec<usize>)
    requires
        at < keys@.len(),
    ensures
        as_ints(r@) == positions(keys_of(keys@), keys_of(keys@)[at as int], keys@.len() as int),
        forall|x: int| 0 <= x < r@.len() ==> #[trigger] r@[x] < keys@.len(),
{
    let ghost ks = keys_of(keys@);
    let mut r: Vec<usize> = Vec::new();
    let mut i: usize = 0;
    while i < keys.len()
        invariant
            ks == keys_of(keys@),
            at < keys@.len(),
            i <= keys@.len(),
            as_ints(r@) == positions(ks, ks[at as int], i as int),
            forall|x: int| 0 <= x < r@.len() ==> #[trigger] r@[x] < i,
        decreases keys@.len() - i,
    {
        let ghost before = r@;
        let same = hash::same_hash(&keys[i], &keys[at]);
        proof {
            assert(same == (ks[i as int] == ks[at as int]));
        }
        if same {
            r.push(i);
            proof {
                assert(as_ints(r@) =~= as_ints(before).push(i as int));
            }
        }
        i = i + 1;
    }
    r
}

fn is_leading(keys: &Vec<Option<[u8; 32]>>, at: usize) -> (r: bool)
    requires
        at < keys@.len(),
    ensures
        r == leads(keys_of(keys@), at as int),
{
    let ghost ks = keys_of(keys@);
    if keys[at].is_none() {
        return false;
    }
    let mut i: usize = 0;
    while i < at
        invariant
            ks == keys_of(keys@),
            i <= at < keys@.len(),
            forall|j: int| 0 <= j < i ==> #[trigger] ks[j] != ks[at as int],
        decreases at - i,
    {
        let same = hash::same_hash(&keys[i], &keys[at]);
        proof {
            assert(same == (ks[i as int] == ks[at as int]));
        }
        if same {
            return false;
        }
        i = i + 1;
    }
    true
}

pub open spec fn all_ints(v: Seq<Vec<usize>>) -> Seq<Seq<int>> {
    v.map_values(|g: Vec<usize>| as_ints(g@))
}

/// The groups of more than one position with the same key. Positions without
/// a key are in no group.
pub fn group_positions(keys: &Vec<Option<[u8; 32]>>) -> (r: Vec<Vec<usize>>)
    ensures
        all_ints(r@) == groups(keys_of(keys@), keys@.len() as int),
        forall|g: int, x: int|
            0 <= g < r@.len() && 0 <= x < r@[g]@.len() ==> #[trigger] r@[g]@[x] < keys@.len(),
        forall|g: int| 0 <= g < r@.len() ==> (#[trigger] r@[g])@.len() > 1,
{
    let ghost ks = keys_of(keys@);
    let mut r: Vec<Vec<usize>> = Vec::new();
    let mut i: usize = 0;
    while i < keys.len()
        invariant
            ks == keys_of(keys@),
            i <= keys@.len(),
            all_ints(r@) == groups(ks, i as int),
            forall|g: int, x: int|
                0 <= g < r@.len() && 0 <= x < r@[g]@.len() ==> #[trigger] r@[g]@[x] < keys@.len(),
            forall|g: int| 0 <= g < r@.len() ==> (#[trigger] r@[g])@.len() > 1,
        decreases keys@.len() - i,
    {
        let ghost before = r@;
        if is_leading(keys, i) {
            let here = positions_like(keys, i);
            proof {
                assert(as_ints(here@).len() == here@.len());
            }
            if here.len() > 1 {
                r.push(here);
                proof {
                    assert(all_ints(r@) =~= all_ints(before).push(as_ints(here@)));
                }
            }
        }
        i = i + 1;
    }
    r
}

/// The items at the given positions.
pub open spec fn picked(v: Seq<PathView>, at: Seq<int>) -> Seq<PathView> {
    at.map_values(|i: int| v[i])
}

fn pick(paths: &Vec<FilePath>, at: &Vec<usize>) -> (r: Vec<FilePath>)
    requires
        forall|x: int| 0 <= x < at@.len() ==> #[trigger] at@[x] < paths@.len(),
    ensures
        paths::views(r@) == picked(paths::views(paths@), as_ints(at@)),
        r@.len() == at@.len(),
{
    let mut r: Vec<FilePath> = Vec::new();
    let mut i: usize = 0;
    while i < at.len()
        invariant
            i <= at@.len(),
            r@.len() == i,
            forall|x: int| 0 <= x < at@.len() ==> #[trigger] at@[x] < paths@.len(),
            forall|x: int| 0 <= x < i ==> (#[trigger] r@[x])@ == paths@[at@[x] as int]@,
        decreases at@.len() - i,
    {
        r.push(paths[at[i]].clone());
        i = i + 1;
    }
    proof {
        assert(paths::views(r@) =~= picked(paths::views(paths@), as_ints(at@)));
    }
    r
}

pub open spec fn all_path_views(v: Seq<Vec<FilePath>>) -> Seq<Seq<PathView>> {
    v.map_values(|g: Vec<FilePath>| paths::views(g@))
}

/// The groups of files of one size whose beginnings have the same hash. Files
/// that could not be read are in no group.
pub fn collisions(paths: &Vec<FilePath>, partials: &Vec<Option<[u8; 32]>>) -> (r: Vec<
    Vec<FilePath>,
>)
    requires
        paths@.len() == partials@.len(),
    ensures
        all_path_views(r@) == groups(keys_of(partials@), partials@.len() as int).map_values(
            |g: Seq<int>| picked(paths::views(paths@), g),
        ),
{
    let gs = group_positions(partials);
    let ghost want = groups(keys_of(partials@), partials@.len() as int).map_values(
        |g: Seq<int>| picked(paths::views(paths@), g),
    );
    let mut r: Vec<Vec<FilePath>> = Vec::new();
    let mut i: usize = 0;
    while i < gs.len()
        invariant
            i <= gs@.len(),
            r@.len() == i,
            paths@.len() == partials@.len(),
            forall|g: int, x: int|
                0 <= g < gs@.len() && 0 <= x < gs@[g]@.len() ==> #[trigger] gs@[g]@[x]
                    < paths@.len(),
            forall|g: int|
                0 <= g < i ==> paths::views((#[trigger] r@[g])@) == picked(
                    paths::views(paths@),
                    as_ints(gs@[g]@),
                ),
        decreases gs@.len() - i,
    {
        r.push(pick(paths, &gs[i]));
        i = i + 1;
    }
    proof {
        assert(all_ints(gs@).len() == gs@.len());
        assert forall|g: int| 0 <= g < r@.len() implies all_path_views(r@)[g] == want[g] by {
            assert(all_ints(gs@)[g] == as_ints(gs@[g]@));
        }
        assert(all_path_views(r@) =~= want);
    }
    r
}

/// The bytes that the copies beyond the first take up, modulo 2^64.
pub open spec fn wasted_by(size: u64, count: nat) -> u64 {
    size.wrapping_mul((count - 1) as u64)
}

/// A group as characters: hash, size and paths.
pub open spec fn group_view(g: DuplicateGroup) -> (Seq<char>, u64, Seq<PathView>) {
    (g.hash@, g.size, paths::views(g.paths@))
}

pub open spec fn group_views(v: Seq<DuplicateGroup>) -> Seq<(Seq<char>, u64, Seq<PathView>)> {
    v.map_values(|g: DuplicateGroup| group_view(g))
}

/// The duplicate groups among files of one size with the given hashes of
/// their contents.
pub open spec fn confirmed(size: u64, paths: Seq<PathView>, fulls: Seq<Option<Seq<u8>>>) -> Seq<
    (Seq<char>, u64, Seq<PathView>),
> {
    groups(fulls, fulls.len() as int).map_values(
        |g: Seq<int>| (hash::hex(fulls[g[0]]->0), size, picked(paths, g)),
    )
}

/// Bytes wasted after the first `n` of the groups, starting from `so_far`.
pub open spec fn wasted_after(
    so_far: u64,
    found: Seq<(Seq<char>, u64, Seq<PathView>)>,
    n: int,
) -> u64
    decreases n,
{
    if n <= 0 {
        so_far
    } else {
        wasted_after(so_far, found, n - 1).wrapping_add(
            wasted_by(found[n - 1].1, found[n - 1].2.len()),
        )
    }
}

/// What the search does next.
#[derive(Debug)]
pub enum DupStep {
    /// Stop: the user asked for it.
    Stop,
    /// Hash the beginnings of these files, all of the given size.
    Class(SizeClass),
    /// The search is complete.
    Done,
}

/// The state of a search for duplicates.
#[derive(Debug)]
pub struct DupRun {
    pub min_size: u64,
    pub files: BySize,
    pub files_found: usize,
    pub classes: Vec<SizeClass>,
    pub groups: usize,
    pub wasted_bytes: u64,
}

impl DupRun {
    pub fn new(options: DupOptions) -> (r: DupRun)
        ensures
            r.files.wf(),
            r.files@ == Map::<u64, Seq<PathView>>::empty(),
            r.min_size == options.min_size,
            r.files_found == 0,
            r.classes@.len() == 0,
            r.groups == 0,
            r.wasted_bytes == 0,
    {
        DupRun {
            min_size: options.min_size,
            files: BySize::new(),
            files_found: 0,
            classes: Vec::new(),
            groups: 0,
            wasted_bytes: 0,
        }
    }

    /// Takes note of a file. Every 500 files bring an event.
    pub fn found(&mut self, path: FilePath, size: u64) -> (event: Option<DupEvent>)
        requires
            old(self).files.wf(),
            old(self).files_found < usize::MAX,
        ensures
            final(self).files.wf(),
            size < old(self).min_size ==> event is None && *final(self) == *old(self),
            size >= old(self).min_size ==> {
                let n = (old(self).files_found + 1) as usize;
                &&& final(self).files@ == old(self).files@.insert(
                    size,
                    (if old(self).files@.dom().contains(size) {
                        old(self).files@[size]
                    } else {
                        Seq::empty()
                    }).push(path@),
                )
                &&& *final(self) == (DupRun {
                    files: final(self).files,
                    files_found: n,
                    ..*old(self)
                })
                &&& event == (if n % 500 == 0 {
                    Some(DupEvent::Scanning { files_found: n })
                } else {
                    None
                })
            },
    {
        if size < self.min_size {
            return None;
        }
        self.files.insert(size, path);
        self.files_found = self.files_found + 1;
        if self.files_found % 500 == 0 {
            Some(DupEvent::Scanning { files_found: self.files_found })
        } else {
            None
        }
    }

    /// Ends the scan: only sizes that several files have are looked at further.
    pub fn scanned(&mut self) -> (event: DupEvent)
        requires
            old(self).files.wf(),
        ensures
            event == (DupEvent::Scanning { files_found: old(self).files_found }),
            final(self).files.wf(),
            final(self).files@ == Map::<u64, Seq<PathView>>::empty(),
            *final(self) == (DupRun {
                files: final(self).files,
                classes: final(self).classes,
                ..*old(self)
            }),
            forall|i: int|
                0 <= i < final(self).classes@.len() ==> {
                    &&& old(self).files@.dom().contains((#[trigger] final(self).classes@[i]).size)
                    &&& paths::views(final(self).classes@[i].paths@)
                        == old(self).files@[final(self).classes@[i].size]
                    &&& final(self).classes@[i].paths@.len() > 1
                },
            forall|i: int, j: int|
                0 <= i < j < final(self).classes@.len() ==> (#[trigger] final(self).classes@[i]).size != (#[trigger] final(self).classes@[j]).size,
            forall|s: u64|
                #[trigger] old(self).files@.dom().contains(s) && old(self).files@[s].len() > 1
                    ==> exists|i: int|
                    0 <= i < final(self).classes@.len() && (#[trigger] final(self).classes@[i]).size == s,
            shared_sizes(old(self).files@, final(self).classes@),
    {
        let mut files = BySize::new();
        std::mem::swap(&mut files, &mut self.files);
        self.classes = files.candidates();
        DupEvent::Scanning { files_found: self.files_found }
    }

    /// The next size to look at, given whether a stop was asked for.
    pub fn next(&mut self, cancelled: bool) -> (step: DupStep)
        ensures
            old(self).classes@.len() == 0 ==> step is Done && *final(self) == *old(self),
            old(self).classes@.len() > 0 && cancelled ==> step is Stop && *final(self) == *old(self),
            old(self).classes@.len() > 0 && !cancelled ==> {
                &&& step == DupStep::Class(old(self).classes@.last())
                &&& final(self).classes@ == old(self).classes@.drop_last()
                &&& *final(self) == (DupRun { classes: final(self).classes, ..*old(self) })
            },
    {
        if self.classes.len() == 0 {
            return DupStep::Done;
        }
        if cancelled {
            return DupStep::Stop;
        }
        match self.classes.pop() {
            Some(class) => DupStep::Class(class),
            None => DupStep::Done,
        }
    }

    /// The duplicate groups among files of one size, from the hashes of their
    /// contents; those that could not be read are in no group.
    pub fn confirm(&mut self, size: u64, paths: &Vec<FilePath>, fulls: &Vec<Option<[u8; 32]>>) -> (r:
        Vec<DuplicateGroup>)
        requires
            paths@.len() == fulls@.len(),
            old(self).groups + paths@.len() <= usize::MAX,
        ensures
            group_views(r@) == confirmed(size, paths::views(paths@), keys_of(fulls@)),
            *final(self) == (DupRun {
                groups: (old(self).groups + r@.len()) as usize,
                wasted_bytes: wasted_after(
                    old(self).wasted_bytes,
                    group_views(r@),
                    r@.len() as int,
                ),
                ..*old(self)
            }),
    {
        let ghost keys = keys_of(fulls@);
        let ghost want = confirmed(size, paths::views(paths@), keys);
        let ghost start = *self;
        let gs = group_positions(fulls);
        proof {
            lemma_groups_len(keys, keys.len() as int);
            assert(all_ints(gs@).len() == gs@.len());
        }
        let mut r: Vec<DuplicateGroup> = Vec::new();
        let mut i: usize = 0;
        while i < gs.len()
            invariant
                i <= gs@.len() <= paths@.len(),
                r@.len() == i,
                keys == keys_of(fulls@),
                all_ints(gs@) == groups(keys, keys.len() as int),
                all_ints(gs@).len() == gs@.len(),
                want == confirmed(size, paths::views(paths@), keys),
                paths@.len() == fulls@.len(),
                start.groups + paths@.len() <= usize::MAX,
                forall|g: int, x: int|
                    0 <= g < gs@.len() && 0 <= x < gs@[g]@.len() ==> #[trigger] gs@[g]@[x]
                        < paths@.len(),
                forall|g: int| 0 <= g < gs@.len() ==> (#[trigger] gs@[g])@.len() > 1,
                group_views(r@) == want.take(i as int),
                *self == (DupRun {
                    groups: (start.groups + i) as usize,
                    wasted_bytes: wasted_after(start.wasted_bytes, want, i as int),
                    ..start
                }),
            decreases gs@.len() - i,
        {
            let ghost before = r@;
            let lead: usize = gs[i][0];
            proof {
                assert(all_ints(gs@)[i as int] == as_ints(gs@[i as int]@));
                assert(gs@[i as int]@[0] < paths@.len());
                lemma_group_key(keys, keys.len() as int, i as int);
                assert(as_ints(gs@[i as int]@)[0] == lead);
                assert(keys[lead as int] is Some);
            }
            let hash = match &fulls[lead] {
                Some(h) => hash::to_hex(h),
                None => String::new(),
            };
            let dup_paths = pick(paths, &gs[i]);
            let copies: u64 = dup_paths.len() as u64 - 1;
            self.wasted_bytes = self.wasted_bytes.wrapping_add(size.wrapping_mul(copies));
            self.groups = self.groups + 1;
            let group = DuplicateGroup { hash, size, paths: dup_paths };
            r.push(group);
            proof {
                assert(group_view(group) == want[i as int]);
                assert(group_views(r@) =~= group_views(before).push(group_view(group)));
                assert(group_views(r@) =~= want.take(i + 1));
            }
            i = i + 1;
        }
        proof {
            assert(want.take(i as int) =~= want);
        }
        r
    }

    /// The event that ends a complete search.
    pub fn finished(&self) -> (event: DupEvent)
        ensures
            event == (DupEvent::Finished {
                groups: self.groups,
                wasted_bytes: self.wasted_bytes,
            }),
    {
        DupEvent::Finished { groups: self.groups, wasted_bytes: self.wasted_bytes }
    }
}

/// How many files the first `n` classes hold, modulo the size of a `usize`.
pub open spec fn class_total(classes: Seq<SizeClass>, n: int) -> usize
    decreases n,
{
    if n <= 0 {
        0
    } else {
        class_total(classes, n - 1).wrapping_add(classes[n - 1].paths.len())
    }
}

/// How many files have to be hashed.
pub fn total_candidates(classes: &Vec<SizeClass>) -> (total: usize)
    ensures
        total == class_total(classes@, classes@.len() as int),
{
    let mut total: usize = 0;
    let mut i: usize = 0;
    while i < classes.len()
        invariant
            i <= classes@.len(),
            total == class_total(classes@, i as int),
        decreases classes@.len() - i,
    {
        total = total.wrapping_add(classes[i].paths.len());
        i = i + 1;
    }
    total
}

/// The event after the beginning of the `done`-th of `total` files was
/// hashed: every 50 files bring one.
pub fn hashing_event(done: usize, total: usize) -> (event: Option<DupEvent>)
    ensures
        event == (if done % 50 == 0 {
            Some(DupEvent::Hashing { done, total })
        } else {
            None
        }),
{
    if done % 50 == 0 {
        Some(DupEvent::Hashing { done, total })
    } else {
        None
    }
}

proof fn lemma_groups_len(keys: Seq<Option<Seq<u8>>>, n: int)
    requires
        0 <= n,
    ensures
        groups(keys, n).len() <= n,
    decreases n,
{
    if n > 0 {
        lemma_groups_len(keys, n - 1);
    }
}

proof fn lemma_positions(keys: Seq<Option<Seq<u8>>>, k: Option<Seq<u8>>, n: int)
    requires
        n <= keys.len(),
    ensures
        forall|i: int| 0 <= i < n && keys[i] == k ==> #[trigger] positions(keys, k, n).contains(i),
        forall|x: int|
            0 <= x < positions(keys, k, n).len() ==> {
                let i = #[trigger] positions(keys, k, n)[x];
                0 <= i < n && keys[i] == k
            },
    decreases n,
{
    if n > 0 {
        lemma_positions(keys, k, n - 1);
        let before = positions(keys, k, n - 1);
        let after = positions(keys, k, n);
        assert forall|i: int| 0 <= i < n && keys[i] == k implies #[trigger] after.contains(i) by {
            if i == n - 1 {
                assert(after[before.len() as int] == i);
            } else {
                assert(before.contains(i));
                let x = choose|x: int| 0 <= x < before.len() && before[x] == i;
                assert(after[x] == i);
            }
        }
        assert forall|x: int| 0 <= x < after.len() implies {
            let i = #[trigger] after[x];
            0 <= i < n && keys[i] == k
        } by {
            if x < before.len() {
                assert(after[x] == before[x]);
            }
        }
    }
}

proof fn lemma_group_key(keys: Seq<Option<Seq<u8>>>, n: int, g: int)
    requires
        n <= keys.len(),
        0 <= g < groups(keys, n).len(),
    ensures
        ({
            let group = groups(keys, n)[g];
            &&& group.len() > 1
            &&& exists|k: Option<Seq<u8>>|
                k is Some && group == #[trigger] positions(keys, k, keys.len() as int)
            &&& 0 <= group[0] < keys.len()
            &&& keys[group[0]] is Some
        }),
    decreases n,
{
    if n > 0 {
        let before = groups(keys, n - 1);
        if g < before.len() {
            lemma_group_key(keys, n - 1, g);
            assert(groups(keys, n)[g] == before[g]);
        } else {
            let k = keys[n - 1];
            lemma_positions(keys, k, keys.len() as int);
            assert(groups(keys, n)[g] == positions(keys, k, keys.len() as int));
        }
    }
}

proof fn lemma_leader(keys: Seq<Option<Seq<u8>>>, i: int) -> (l: int)
    requires
        0 <= i < keys.len(),
        keys[i] is Some,
    ensures
        0 <= l <= i,
        keys[l] == keys[i],
        leads(keys, l),
    decreases i,
{
    if leads(keys, i) {
        i
    } else {
        let j = choose|j: int| 0 <= j < i && #[trigger] keys[j] == keys[i];
        lemma_leader(keys, j)
    }
}

proof fn lemma_group_listed(keys: Seq<Option<Seq<u8>>>, l: int, n: int)
    requires
        0 <= l < n <= keys.len(),
        leads(keys, l),
        positions(keys, keys[l], keys.len() as int).len() > 1,
    ensures
        groups(keys, n).contains(positions(keys, keys[l], keys.len() as int)),
    decreases n,
{
    let group = positions(keys, keys[l], keys.len() as int);
    let after = groups(keys, n);
    let before = groups(keys, n - 1);
    if l == n - 1 {
        assert(after[before.len() as int] == group);
    } else {
        lemma_group_listed(keys, l, n - 1);
        let x = choose|x: int| 0 <= x < before.len() && before[x] == group;
        assert(after[x] == group);
    }
}

/// Two files are in one group exactly when their hashes could be computed and
/// are the same.
pub proof fn law_grouped_iff_same_key(keys: Seq<Option<Seq<u8>>>, i: int, j: int)
    requires
        0 <= i < j < keys.len(),
    ensures
        (keys[i] is Some && keys[i] == keys[j]) <==> exists|g: Seq<int>|
            groups(keys, keys.len() as int).contains(g) && #[trigger] g.contains(i) && g.contains(
                j,
            ),
{
    let n = keys.len() as int;
    if keys[i] is Some && keys[i] == keys[j] {
        let l = lemma_leader(keys, i);
        let group = positions(keys, keys[l], n);
        lemma_positions(keys, keys[l], n);
        assert(group.contains(i) && group.contains(j));
        let x = choose|x: int| 0 <= x < group.len() && group[x] == i;
        let y = choose|y: int| 0 <= y < group.len() && group[y] == j;
        assert(x != y);
        lemma_group_listed(keys, l, n);
    }
    if exists|g: Seq<int>|
        groups(keys, n).contains(g) && #[trigger] g.contains(i) && g.contains(j) {
        let g = choose|g: Seq<int>|
            groups(keys, n).contains(g) && #[trigger] g.contains(i) && g.contains(j);
        let x = choose|x: int| 0 <= x < groups(keys, n).len() && groups(keys, n)[x] == g;
        lemma_group_key(keys, n, x);
        let k = choose|k: Option<Seq<u8>>| k is Some && g == #[trigger] positions(keys, k, n);
        lemma_positions(keys, k, n);
        let a = choose|a: int| 0 <= a < g.len() && g[a] == i;
        let b = choose|b: int| 0 <= b < g.len() && g[b] == j;
        assert(keys[g[a]] == k && keys[g[b]] == k);
    }
}

/// The hashes of the beginnings of the given contents.
pub open spec fn partial_keys(contents: Seq<Seq<u8>>) -> Seq<Option<Seq<u8>>> {
    contents.map_values(
        |c: Seq<u8>| Some(hash::digest(hash::beginning(c, PARTIAL_HASH_BYTES as nat))),
    )
}

/// The hashes of the given contents.
pub open spec fn full_keys(contents: Seq<Seq<u8>>) -> Seq<Option<Seq<u8>>> {
    contents.map_values(|c: Seq<u8>| Some(hash::digest(c)))
}

/// Files with the same contents always come out in the same group: they pass
/// the first hash together, and the second.
pub proof fn law_identical_files_are_grouped(contents: Seq<Seq<u8>>, i: int, j: int)
    requires
        0 <= i < j < contents.len(),
        contents[i] == contents[j],
    ensures
        exists|g: Seq<int>|
            groups(partial_keys(contents), contents.len() as int).contains(g)
                && #[trigger] g.contains(i) && g.contains(j),
        exists|g: Seq<int>|
            groups(full_keys(contents), contents.len() as int).contains(g) && #[trigger] g.contains(
                i,
            ) && g.contains(j),
{
    law_grouped_iff_same_key(partial_keys(contents), i, j);
    law_grouped_iff_same_key(full_keys(contents), i, j);
}

proof fn lemma_group_members(keys: Seq<Option<Seq<u8>>>, g: int) -> (k: Option<Seq<u8>>)
    requires
        0 <= g < groups(keys, keys.len() as int).len(),
    ensures
        k is Some,
        groups(keys, keys.len() as int)[g].len() > 1,
        forall|x: int|
            0 <= x < groups(keys, keys.len() as int)[g].len() ==> {
                let i = #[trigger] groups(keys, keys.len() as int)[g][x];
                0 <= i < keys.len() && keys[i] == k
            },
{
    let n = keys.len() as int;
    lemma_group_key(keys, n, g);
    let group = groups(keys, n)[g];
    let k = choose|k: Option<Seq<u8>>|
        k is Some && group == #[trigger] positions(keys, k, keys.len() as int);
    lemma_positions(keys, k, n);
    k
}

/// Files whose contents have the same hash come out in one group, and a group
/// holds nothing but files of the given size with the hash that it tells;
/// files that could not be read are in none.
pub proof fn law_groups_hold_the_same_contents(
    run: &mut DupRun,
    size: u64,
    paths: &Vec<FilePath>,
    fulls: &Vec<Option<[u8; 32]>>,
    r: Vec<DuplicateGroup>,
    i: int,
    j: int,
)
    requires
        call_ensures(DupRun::confirm, (run, size, paths, fulls), r),
        paths@.len() == fulls@.len(),
        run.groups + paths@.len() <= usize::MAX,
        0 <= i < j < paths@.len(),
    ensures
        fulls@[i] is Some && fulls@[j] is Some && fulls@[i]->0@ == fulls@[j]->0@ ==> exists|g: int|
            0 <= g < r@.len() && (#[trigger] r@[g]).hash@ == hash::hex(fulls@[i]->0@)
                && paths::views(r@[g].paths@).contains(paths@[i]@) && paths::views(
                r@[g].paths@,
            ).contains(paths@[j]@),
        forall|g: int|
            0 <= g < r@.len() ==> (#[trigger] r@[g]).size == size && r@[g].paths@.len() > 1,
        forall|g: int, x: int|
            0 <= g < r@.len() && 0 <= x < r@[g].paths@.len() ==> exists|k: int|
                0 <= k < paths@.len() && (#[trigger] paths@[k])@ == (
                #[trigger] r@[g].paths@[x])@ && fulls@[k] is Some && hash::hex(fulls@[k]->0@)
                    == r@[g].hash@,
        final(run).groups == old(run).groups + r@.len(),
        r@.len() == 0 ==> final(run).wasted_bytes == old(run).wasted_bytes,
        r@.len() == 1 && old(run).wasted_bytes + size * (r@[0].paths@.len() - 1) <= u64::MAX
            ==> final(run).wasted_bytes == old(run).wasted_bytes + size * (r@[0].paths@.len() - 1),
{
    let keys = keys_of(fulls@);
    let n = keys.len() as int;
    let all = groups(keys, n);
    let ps = paths::views(paths@);
    let views = group_views(r@);
    lemma_groups_len(keys, n);
    assert(views.len() == all.len() && views.len() == r@.len());
    assert forall|g: int| 0 <= g < r@.len() implies {
        &&& (#[trigger] r@[g]).size == size
        &&& r@[g].hash@ == hash::hex(keys[all[g][0]]->0)
        &&& paths::views(r@[g].paths@) == picked(ps, all[g])
        &&& r@[g].paths@.len() == all[g].len()
        &&& all[g].len() > 1
    } by {
        assert(views[g] == group_view(r@[g]));
        let k = lemma_group_members(keys, g);
        assert(paths::views(r@[g].paths@).len() == r@[g].paths@.len());
    }
    assert forall|g: int, x: int|
        0 <= g < r@.len() && 0 <= x < r@[g].paths@.len() implies exists|k: int|
        0 <= k < paths@.len() && (#[trigger] paths@[k])@ == (#[trigger] r@[g].paths@[x])@
            && fulls@[k] is Some && hash::hex(fulls@[k]->0@) == r@[g].hash@ by {
        let key = lemma_group_members(keys, g);
        assert(r@[g].paths@.len() == all[g].len());
        let k = all[g][x];
        assert(0 <= k < keys.len() && keys[k] == key);
        assert(keys[all[g][0]] == key);
        assert(paths::views(r@[g].paths@)[x] == ps[k]);
        assert(paths@[k]@ == r@[g].paths@[x]@);
    }
    if fulls@[i] is Some && fulls@[j] is Some && fulls@[i]->0@ == fulls@[j]->0@ {
        law_grouped_iff_same_key(keys, i, j);
        let group = choose|g: Seq<int>|
            all.contains(g) && #[trigger] g.contains(i) && g.contains(j);
        let g = choose|g: int| 0 <= g < all.len() && all[g] == group;
        let key = lemma_group_members(keys, g);
        let x = choose|x: int| 0 <= x < group.len() && group[x] == i;
        let y = choose|y: int| 0 <= y < group.len() && group[y] == j;
        assert(all[g][x] == i && all[g][y] == j);
        assert(r@[g].size == size);
        assert(paths::views(r@[g].paths@)[x] == ps[i]);
        assert(paths::views(r@[g].paths@)[y] == ps[j]);
        assert(all[g][0] == all[g][0int]);
        assert(keys[all[g][0]] == key);
    }
    if r@.len() == 1 {
        assert(views[0] == group_view(r@[0]));
        assert(paths::views(r@[0].paths@).len() == r@[0].paths@.len());
        reveal_with_fuel(wasted_after, 2);
        let c = (r@[0].paths@.len() - 1) as u64;
        assert(r@[0].paths.len() <= usize::MAX);
        assert(c == r@[0].paths@.len() - 1);
        assert(size * c >= 0) by (nonlinear_arith);
        if run.wasted_bytes + size * (r@[0].paths@.len() - 1) <= u64::MAX {
            vstd::arithmetic::div_mod::lemma_small_mod((size * c) as nat, 0x1_0000_0000_0000_0000);
            assert(wasted_by(size, r@[0].paths@.len()) == size * c);
        }
    }
}

/// A file takes part in the search exactly when it is as large as was asked
/// for; it joins the files of its own size.
pub proof fn law_files_join_those_of_their_size(
    run: &mut DupRun,
    path: FilePath,
    size: u64,
    event: Option<DupEvent>,
    other: u64,
)
    requires
        call_ensures(DupRun::found, (run, path, size), event),
        run.files.wf(),
        run.files_found < usize::MAX,
        other != size,
    ensures
        size < old(run).min_size ==> final(run).files@ == old(run).files@
            && final(run).files_found == old(run).files_found,
        size >= old(run).min_size ==> {
            &&& final(run).files_found == old(run).files_found + 1
            &&& final(run).files@.dom().contains(size)
            &&& final(run).files@[size].last() == path@
            &&& old(run).files@.dom().contains(size) ==> final(run).files@[size].drop_last() == old(run).files@[size]
            &&& !old(run).files@.dom().contains(size) ==> final(run).files@[size].len() == 1
        },
        final(run).files@.dom().contains(other) == old(run).files@.dom().contains(other),
        old(run).files@.dom().contains(other) ==> final(run).files@[other] == old(run).files@[other],
{
    if size >= run.min_size && run.files@.dom().contains(size) {
        assert(final(run).files@[size].drop_last() =~= run.files@[size]);
    }
}

/// Files of one size are looked at further exactly when there are several of
/// them, and then all of them are.
pub proof fn law_only_shared_sizes_are_looked_at(run: &mut DupRun, event: DupEvent, size: u64)
    requires
        call_ensures(DupRun::scanned, (run,), event),
        run.files.wf(),
    ensures
        old(run).files@.dom().contains(size) && old(run).files@[size].len() > 1 ==> exists|i: int|
            0 <= i < final(run).classes@.len() && (#[trigger] final(run).classes@[i]).size == size
                && paths::views(final(run).classes@[i].paths@) == old(run).files@[size],
        !old(run).files@.dom().contains(size) || old(run).files@[size].len() <= 1 ==> forall|i: int|
            0 <= i < final(run).classes@.len() ==> (#[trigger] final(run).classes@[i]).size != size,
{
    let classes = final(run).classes@;
    if run.files@.dom().contains(size) && run.files@[size].len() > 1 {
        let i = choose|i: int| 0 <= i < classes.len() && (#[trigger] classes[i]).size == size;
        assert(paths::views(classes[i].paths@) == run.files@[size]);
    } else {
        assert forall|i: int| 0 <= i < classes.len() implies (#[trigger] classes[i]).size
            != size by {
            assert(paths::views(classes[i].paths@).len() == classes[i].paths@.len());
        }
    }
}

/// Whether two paths are those of files with the same hash.
pub open spec fn share_a_key(
    paths: Seq<FilePath>,
    keys: Seq<Option<[u8; 32]>>,
    a: PathView,
    b: PathView,
) -> bool {
    exists|k: int, m: int|
        0 <= k < paths.len() && 0 <= m < paths.len() && (#[trigger] paths[k])@ == a && (
        #[trigger] paths[m])@ == b && keys[k] is Some && keys[m] is Some && keys[k]->0@
            == keys[m]->0@
}

/// Files whose beginnings have the same hash go on together; those whose hash
/// no other file has, and those that could not be read, are dropped.
pub proof fn law_same_beginnings_go_on_together(
    paths: &Vec<FilePath>,
    partials: &Vec<Option<[u8; 32]>>,
    r: Vec<Vec<FilePath>>,
    i: int,
    j: int,
)
    requires
        call_ensures(collisions, (paths, partials), r),
        paths@.len() == partials@.len(),
        0 <= i < j < paths@.len(),
    ensures
        partials@[i] is Some && partials@[j] is Some && partials@[i]->0@ == partials@[j]->0@
            ==> exists|g: int|
            0 <= g < r@.len() && paths::views((#[trigger] r@[g])@).contains(paths@[i]@)
                && paths::views(r@[g]@).contains(paths@[j]@),
        forall|g: int, x: int, y: int|
            0 <= g < r@.len() && 0 <= x < y < r@[g]@.len() ==> share_a_key(
                paths@,
                partials@,
                (#[trigger] r@[g]@[x])@,
                (#[trigger] r@[g]@[y])@,
            ),
        forall|g: int| 0 <= g < r@.len() ==> (#[trigger] r@[g])@.len() > 1,
{
    let keys = keys_of(partials@);
    let n = keys.len() as int;
    let all = groups(keys, n);
    let ps = paths::views(paths@);
    let views = all_path_views(r@);
    assert(views.len() == all.len() && views.len() == r@.len());
    assert forall|g: int| 0 <= g < r@.len() implies (#[trigger] r@[g])@.len() > 1
        && paths::views(r@[g]@) == picked(ps, all[g]) && r@[g]@.len() == all[g].len() by {
        assert(views[g] == picked(ps, all[g]));
        let k = lemma_group_members(keys, g);
        assert(paths::views(r@[g]@).len() == r@[g]@.len());
    }
    assert forall|g: int, x: int, y: int|
        0 <= g < r@.len() && 0 <= x < y < r@[g]@.len() implies share_a_key(
                paths@,
                partials@,
                (#[trigger] r@[g]@[x])@,
                (#[trigger] r@[g]@[y])@,
            ) by {
        let key = lemma_group_members(keys, g);
        assert(r@[g]@.len() == all[g].len());
        let k = all[g][x];
        let m = all[g][y];
        assert(keys[k] == key && keys[m] == key);
        assert(paths::views(r@[g]@)[x] == ps[k]);
        assert(paths::views(r@[g]@)[y] == ps[m]);
        assert(paths@[k]@ == r@[g]@[x]@);
        assert(paths@[m]@ == r@[g]@[y]@);
    }
    if partials@[i] is Some && partials@[j] is Some && partials@[i]->0@ == partials@[j]->0@ {
        law_grouped_iff_same_key(keys, i, j);
        let group = choose|g: Seq<int>|
            all.contains(g) && #[trigger] g.contains(i) && g.contains(j);
        let g = choose|g: int| 0 <= g < all.len() && all[g] == group;
        let x = choose|x: int| 0 <= x < group.len() && group[x] == i;
        let y = choose|y: int| 0 <= y < group.len() && group[y] == j;
        assert(r@[g]@.len() > 1);
        assert(paths::views(r@[g]@)[x] == ps[i]);
        assert(paths::views(r@[g]@)[y] == ps[j]);
    }
}

/// One more file to hash is one more in the total.
pub proof fn law_candidates_add_up(
    a: &Vec<SizeClass>,
    b: &Vec<SizeClass>,
    c: SizeClass,
    x: usize,
    y: usize,
)
    requires
        call_ensures(total_candidates, (a,), x),
        call_ensures(total_candidates, (b,), y),
        b@ == a@.push(c),
        x + c.paths@.len() <= usize::MAX,
    ensures
        y == x + c.paths@.len(),
        a@.len() == 0 ==> x == 0,
{
    lemma_class_total(a@, b@, a@.len() as int);
}

proof fn lemma_class_total(a: Seq<SizeClass>, b: Seq<SizeClass>, n: int)
    requires
        0 <= n <= a.len() <= b.len(),
        forall|i: int| 0 <= i < a.len() ==> a[i] == b[i],
    ensures
        class_total(a, n) == class_total(b, n),
    decreases n,
{
    if n > 0 {
        lemma_class_total(a, b, n - 1);
    }
}

/// A search for copies starts with nothing found and with the size that was
/// asked for, and tells at the end what it counted.
pub proof fn law_search_for_copies_starts_empty(options: DupOptions, run: DupRun, event: DupEvent)
    requires
        call_ensures(DupRun::new, (options,), run),
        call_ensures(DupRun::finished, (&run,), event),
    ensures
        run.min_size == options.min_size,
        run.files@ == Map::<u64, Seq<PathView>>::empty(),
        event == (DupEvent::Finished { groups: 0, wasted_bytes: 0 }),
{
}

/// What is told at the end is what was counted.
pub proof fn law_end_tells_the_groups(run: &DupRun, event: DupEvent)
    requires
        call_ensures(DupRun::finished, (run,), event),
    ensures
        event matches DupEvent::Finished { groups, wasted_bytes } && groups == run.groups
            && wasted_bytes == run.wasted_bytes,
{
}

/// Every class of files is looked at once, unless a stop is asked for.
pub proof fn law_classes_are_looked_at_once(run: &mut DupRun, cancelled: bool, step: DupStep)
    requires
        call_ensures(DupRun::next, (run, cancelled), step),
    ensures
        step is Done <==> old(run).classes@.len() == 0,
        step is Stop <==> cancelled && old(run).classes@.len() > 0,
        step matches DupStep::Class(c) ==> old(run).classes@ == final(run).classes@.push(c),
        !(step is Class) ==> final(run).classes == old(run).classes,
        final(run).groups == old(run).groups && final(run).wasted_bytes == old(run).wasted_bytes,
{
    if step is Class {
        assert(run.classes@ =~= run.classes@.drop_last().push(run.classes@.last()));
    }
}

} // verus!
