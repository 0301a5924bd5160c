//! Files and folders dropped onto the window.

use vstd::prelude::*;

use crate::paths::{FilePath, PathView};

verus! {

/// The folder that something dropped stands for: itself when it is a folder,
/// otherwise the folder that it lies in.
pub open spec fn folder_of(path: PathView, is_dir: bool) -> Option<PathView> {
    if is_dir {
        Some(path)
    } else {
        path.parent()
    }
}

/// The folder that something dropped stands for.
pub fn as_dir(path: &FilePath, is_dir: bool) -> (r: Option<FilePath>)
    ensures
        match folder_of(path@, is_dir) {
            Some(p) => r is Some && r->0@ == p,
            None => r is None,
        },
{
    if is_dir {
        Some(path.clone())
    } else {
        path.parent()
    }
}

/// Something dropped, and whether it is a folder.
#[derive(Debug, PartialEq, Eq)]
pub struct Dropped {
    pub path: FilePath,
    pub is_dir: bool,
}

impl Dropped {
    /// The folder that this stands for.
    pub fn as_dir(&self) -> (r: Option<FilePath>)
        ensures
            match folder_of(self.path@, self.is_dir) {
                Some(p) => r is Some && r->0@ == p,
                None => r is None,
            },
    {
        as_dir(&self.path, self.is_dir)
    }
}

/// The first folder that the things dropped stand for, from `i` on.
pub open spec fn first_folder(dropped: Seq<Dropped>, i: int) -> Option<PathView>
    decreases dropped.len() - i,
{
    if i < 0 || i >= dropped.len() {
        None
    } else {
        match folder_of(dropped[i].path@, dropped[i].is_dir) {
            Some(p) => Some(p),
            None => first_folder(dropped, i + 1),
        }
    }
}

/// The first folder that the things dropped stand for.
pub fn find_folder(dropped: &Vec<Dropped>) -> (r: Option<FilePath>)
    ensures
        match first_folder(dropped@, 0) {
            Some(p) => r is Some && r->0@ == p,
            None => r is None,
        },
{
    let mut i: usize = 0;
    while i < dropped.len()
        invariant
            i <= dropped@.len(),
            first_folder(dropped@, 0) == first_folder(dropped@, i as int),
        decreases dropped@.len() - i,
    {
        match dropped[i].as_dir() {
            Some(p) => return Some(p),
            None => {},
        }
        i = i + 1;
    }
    None
}

/// Roots after the folders of the first `n` things dropped were added: each
/// that is not among them yet.
pub open spec fn with_folders(
    roots: Seq<PathView>,
    dropped: Seq<Dropped>,
    n: int,
) -> Seq<PathView>
    decreases n,
{
    if n <= 0 {
        roots
    } else {
        let before = with_folders(roots, dropped, n - 1);
        match folder_of(dropped[n - 1].path@, dropped[n - 1].is_dir) {
            Some(p) => if before.contains(p) {
                before
            } else {
                before.push(p)
            },
            None => before,
        }
    }
}

/// Whether a path is among the roots.
pub fn has_root(roots: &Vec<FilePath>, path: &FilePath) -> (r: bool)
    ensures
        r == crate::paths::views(roots@).contains(path@),
{
    let ghost all = crate::paths::views(roots@);
    let mut i: usize = 0;
    while i < roots.len()
        invariant
            i <= roots@.len(),
            all == crate::paths::views(roots@),
            forall|j: int| 0 <= j < i ==> all[j] != path@,
        decreases roots@.len() - i,
    {
        proof {
            assert(all[i as int] == roots@[i as int]@);
        }
        if roots[i].same(path) {
            return true;
        }
        i = i + 1;
    }
    false
}

/// Adds a root unless it is there.
pub fn add_root(roots: &mut Vec<FilePath>, root: FilePath)
    ensures
        crate::paths::views(final(roots)@) == ({
            let before = crate::paths::views(old(roots)@);
            if before.contains(root@) {
                before
            } else {
                before.push(root@)
            }
        }),
{
    if !has_root(roots, &root) {
        proof {
            crate::paths::paths_push(roots@, root);
        }
        roots.push(root);
    }
}

/// Adds the folders that the things dropped stand for to the roots.
pub fn add_folders(roots: &mut Vec<FilePath>, dropped: &Vec<Dropped>)
    ensures
        crate::paths::views(final(roots)@) == with_folders(
            crate::paths::views(old(roots)@),
            dropped@,
            dropped@.len() as int,
        ),
{
    let ghost start = crate::paths::views(roots@);
    let mut i: usize = 0;
    while i < dropped.len()
        invariant
            i <= dropped@.len(),
            crate::paths::views(roots@) == with_folders(start, dropped@, i as int),
        decreases dropped@.len() - i,
    {
        match dropped[i].as_dir() {
            Some(p) => add_root(roots, p),
            None => {},
        }
        i = i + 1;
    }
}

/// A folder stands for itself, and a file for the folder it lies in.
pub proof fn law_files_stand_for_their_folder(path: &FilePath, is_dir: bool, r: Option<FilePath>)
    requires
        call_ensures(as_dir, (path, is_dir), r),
    ensures
        is_dir ==> r is Some && r->0@ == path@,
        !is_dir && path@.parts.len() > 0 ==> {
            &&& r is Some
            &&& r->0@.root == path@.root
            &&& r->0@.parts.len() == path@.parts.len() - 1
            &&& r->0@.child(path@.parts.last()) == path@
        },
        !is_dir && path@.parts.len() == 0 ==> r is None,
{
    if !is_dir && path@.parts.len() > 0 {
        assert(path@.parts.drop_last().push(path@.parts.last()) =~= path@.parts);
    }
}

/// The first of the things dropped that has a folder decides.
pub proof fn law_first_folder_counts(dropped: &Vec<Dropped>, r: Option<FilePath>)
    requires
        call_ensures(find_folder, (dropped,), r),
        dropped@.len() > 0,
    ensures
        dropped@[0].is_dir ==> r is Some && r->0@ == dropped@[0].path@,
        !dropped@[0].is_dir && dropped@[0].path@.parts.len() > 0 ==> r is Some && r->0@.parts
            == dropped@[0].path@.parts.drop_last() && r->0@.root == dropped@[0].path@.root,
{
}

pub proof fn lemma_with_folders(roots: Seq<PathView>, dropped: Seq<Dropped>, n: int)
    requires
        0 <= n <= dropped.len(),
    ensures
        roots.len() <= with_folders(roots, dropped, n).len() <= roots.len() + n,
        forall|i: int|
            0 <= i < roots.len() ==> #[trigger] with_folders(roots, dropped, n)[i] == roots[i],
        forall|i: int|
            0 <= i < n && folder_of((#[trigger] dropped[i]).path@, dropped[i].is_dir) is Some
                ==> with_folders(roots, dropped, n).contains(
                folder_of(dropped[i].path@, dropped[i].is_dir)->0,
            ),
        roots.no_duplicates() ==> with_folders(roots, dropped, n).no_duplicates(),
    decreases n,
{
    if n > 0 {
        lemma_with_folders(roots, dropped, n - 1);
        let before = with_folders(roots, dropped, n - 1);
        let all = with_folders(roots, dropped, n);
        assert forall|i: int|
            0 <= i < n && folder_of(
                (#[trigger] dropped[i]).path@,
                dropped[i].is_dir,
            ) is Some implies all.contains(folder_of(dropped[i].path@, dropped[i].is_dir)->0) by {
            let p = folder_of(dropped[i].path@, dropped[i].is_dir)->0;
            if before.contains(p) {
                let k = choose|k: int| 0 <= k < before.len() && before[k] == p;
                assert(all[k] == p);
            } else {
                assert(i == n - 1);
                assert(all.last() == p);
            }
        }
        if roots.no_duplicates() {
            assert forall|a: int, b: int| 0 <= a < b < all.len() implies all[a] != all[b] by {
                if b == before.len() {
                    assert(before.contains(before[a]));
                }
            }
        }
    }
}

/// What is dropped is added to the roots that were there, each folder once.
pub proof fn law_dropped_folders_are_added(
    roots: &mut Vec<FilePath>,
    dropped: &Vec<Dropped>,
    u: (),
    i: int,
)
    requires
        call_ensures(add_folders, (roots, dropped), u),
        0 <= i < dropped@.len(),
    ensures
        forall|k: int|
            0 <= k < old(roots)@.len() ==> (#[trigger] final(roots)@[k])@ == old(roots)@[k]@,
        final(roots)@.len() >= old(roots)@.len(),
        dropped@[i].is_dir ==> crate::paths::views(final(roots)@).contains(dropped@[i].path@),
        (!dropped@[i].is_dir && dropped@[i].path@.parts.len() > 0) ==> crate::paths::views(
            final(roots)@,
        ).contains(
            (PathView {
                root: dropped@[i].path@.root,
                parts: dropped@[i].path@.parts.drop_last(),
            }),
        ),
        crate::paths::views(old(roots)@).no_duplicates() ==> crate::paths::views(
            final(roots)@,
        ).no_duplicates(),
{
    let a = crate::paths::views(roots@);
    let b = crate::paths::views(final(roots)@);
    lemma_with_folders(a, dropped@, dropped@.len() as int);
    assert(a.len() == roots@.len() && b.len() == final(roots)@.len());
    assert forall|k: int| 0 <= k < old(roots)@.len() implies (#[trigger] final(roots)@[k])@ == old(roots)@[k]@ by {
        assert(b[k] == a[k]);
        assert(a[k] == roots@[k]@);
        assert(b[k] == final(roots)@[k]@);
    }
    assert(folder_of(dropped@[i].path@, dropped@[i].is_dir) is Some || (!dropped@[i].is_dir
        && dropped@[i].path@.parts.len() == 0));
}

/// A root that is added is there afterwards, once, and nothing else changes.
pub proof fn law_roots_are_added_once(
    roots: &mut Vec<FilePath>,
    root: FilePath,
    u: (),
    later: &Vec<FilePath>,
    there: bool,
)
    requires
        call_ensures(add_root, (roots, root), u),
        *later == *final(roots),
        call_ensures(has_root, (later, &root), there),
    ensures
        there,
        final(roots)@.len() <= old(roots)@.len() + 1,
        crate::paths::views(old(roots)@).contains(root@) ==> final(roots)@.len() == old(roots)@.len(),
        forall|k: int|
            0 <= k < old(roots)@.len() ==> (#[trigger] final(roots)@[k])@ == old(roots)@[k]@,
{
    let a = crate::paths::views(roots@);
    let b = crate::paths::views(final(roots)@);
    assert(a.len() == roots@.len() && b.len() == final(roots)@.len());
    if !a.contains(root@) {
        assert(b.last() == root@);
    }
    assert forall|k: int| 0 <= k < old(roots)@.len() implies (#[trigger] final(roots)@[k])@ == old(roots)@[k]@ by {
        assert(b[k] == a[k]);
        assert(a[k] == roots@[k]@);
        assert(b[k] == final(roots)@[k]@);
    }
}

} // verus!
