//! The paths that are ticked in a list, and lists that lose entries.

use vstd::prelude::*;

use crate::index::PathIndex;
use crate::paths;
use crate::paths::{FilePath, PathView};

verus! {

/// A set of paths, in the order in which they were ticked.
#[derive(Debug)]
pub struct Selection {
    index: PathIndex,
}

impl View for Selection {
    type V = Seq<PathView>;

    closed spec fn view(&self) -> Seq<PathView> {
        self.index@
    }
}

/// The paths with one more, unless it is among them.
pub open spec fn with(s: Seq<PathView>, p: PathView) -> Seq<PathView> {
    if s.contains(p) {
        s
    } else {
        s.push(p)
    }
}

/// The paths with the first `n` of others as well.
pub open spec fn with_all(s: Seq<PathView>, more: Seq<PathView>, n: int) -> Seq<PathView>
    decreases n,
{
    if n <= 0 {
        s
    } else {
        with(with_all(s, more, n - 1), more[n - 1])
    }
}

/// The paths that are not among those that are gone.
pub open spec fn without(s: Seq<PathView>, gone: Seq<PathView>) -> Seq<PathView> {
    s.filter(|p: PathView| !gone.contains(p))
}

/// Taking paths out leaves exactly the others.
pub proof fn law_without(s: Seq<PathView>, gone: Seq<PathView>, p: PathView)
    ensures
        without(s, gone).contains(p) == (s.contains(p) && !gone.contains(p)),
{
    let keep = |p: PathView| !gone.contains(p);
    if s.contains(p) && keep(p) {
        let i = choose|i: int| 0 <= i < s.len() && s[i] == p;
        s.lemma_filter_contains(keep, i);
    }
    if s.filter(keep).contains(p) {
        s.lemma_filter_contains_rev(keep, p);
        let i = choose|i: int| 0 <= i < s.filter(keep).len() && s.filter(keep)[i] == p;
        s.lemma_filter_pred(keep, i);
    }
}

impl Selection {
    /// No path is listed twice.
    pub closed spec fn wf(self) -> bool {
        self.index.wf()
    }

    /// No path is ticked twice.
    pub proof fn lemma_unique(self)
        requires
            self.wf(),
        ensures
            self@.no_duplicates(),
    {
        self.index.lemma_unique();
    }

    pub fn new() -> (r: Selection)
        ensures
            r.wf(),
            r@ == Seq::<PathView>::empty(),
    {
        Selection { index: PathIndex::new() }
    }

    pub fn len(&self) -> (n: usize)
        ensures
            n == self@.len(),
    {
        self.index.len()
    }

    pub fn is_empty(&self) -> (r: bool)
        ensures
            r == (self@.len() == 0),
    {
        self.index.len() == 0
    }

    pub fn contains(&self, p: &FilePath) -> (r: bool)
        requires
            self.wf(),
        ensures
            r == self@.contains(p@),
    {
        match self.index.find(p) {
            Some(_) => true,
            None => false,
        }
    }

    pub fn insert(&mut self, p: FilePath)
        requires
            old(self).wf(),
        ensures
            final(self).wf(),
            final(self)@ == with(old(self)@, p@),
    {
        self.index.insert(p);
    }

    pub fn clear(&mut self)
        ensures
            final(self).wf(),
            final(self)@ == Seq::<PathView>::empty(),
    {
        self.index = PathIndex::new();
    }

    /// Takes paths out.
    pub fn remove_all(&mut self, gone: &Vec<FilePath>)
        requires
            old(self).wf(),
        ensures
            final(self).wf(),
            final(self)@ == without(old(self)@, paths::views(gone@)),
    {
        let out = Selection::of(gone);
        let ghost all = self.index@;
        let ghost missing = paths::views(gone@);
        let ghost keep = |p: PathView| !missing.contains(p);
        let mut rest = PathIndex::new();
        let mut i: usize = 0;
        proof {
            self.index.lemma_unique();
            reveal(Seq::filter);
            assert(all.take(0) =~= Seq::<PathView>::empty());
        }
        while i < self.index.len()
            invariant
                i <= all.len(),
                all == self.index@,
                all.no_duplicates(),
                out.wf(),
                forall|p: PathView| out@.contains(p) == missing.contains(p),
                keep == (|p: PathView| !missing.contains(p)),
                rest.wf(),
                rest@ == all.take(i as int).filter(keep),
            decreases all.len() - i,
        {
            let p = self.index.get(i);
            proof {
                reveal(Seq::filter);
                assert(all.take(i + 1).drop_last() =~= all.take(i as int));
                assert(all.take(i + 1).last() == all[i as int]);
                let before = all.take(i as int);
                if before.filter(keep).contains(p@) {
                    let x = choose|x: int|
                        0 <= x < before.filter(keep).len() && before.filter(keep)[x] == p@;
                    before.lemma_filter_contains_rev(keep, p@);
                    let y = choose|y: int| 0 <= y < before.len() && before[y] == p@;
                    assert(all[y] == all[i as int]);
                }
            }
            if !out.contains(p) {
                rest.insert(p.clone());
            }
            i = i + 1;
        }
        proof {
            assert(all.take(i as int) =~= all);
        }
        self.index = rest;
    }

    /// Takes one path out.
    pub fn remove(&mut self, p: &FilePath)
        requires
            old(self).wf(),
        ensures
            final(self).wf(),
            final(self)@ == without(old(self)@, seq![p@]),
    {
        let mut one: Vec<FilePath> = Vec::new();
        one.push(p.clone());
        proof {
            assert(paths::views(one@) =~= seq![p@]);
        }
        self.remove_all(&one);
    }

    /// The paths given, each once.
    pub fn of(list: &Vec<FilePath>) -> (r: Selection)
        ensures
            r.wf(),
            r@ == with_all(Seq::empty(), paths::views(list@), list@.len() as int),
            forall|p: PathView| #[trigger] r@.contains(p) == paths::views(list@).contains(p),
    {
        let mut r = Selection::new();
        r.add(list);
        proof {
            let all = paths::views(list@);
            assert forall|p: PathView| #[trigger] r@.contains(p) == all.contains(p) by {
                lemma_with_all(Seq::empty(), all, all.len() as int, p);
                assert(all.take(all.len() as int) =~= all);
            }
        }
        r
    }

    /// Ticks the paths given as well.
    pub fn add(&mut self, list: &Vec<FilePath>)
        requires
            old(self).wf(),
        ensures
            final(self).wf(),
            final(self)@ == with_all(old(self)@, paths::views(list@), list@.len() as int),
    {
        let ghost start = self@;
        let mut i: usize = 0;
        while i < list.len()
            invariant
                i <= list@.len(),
                self.wf(),
                self@ == with_all(start, paths::views(list@), i as int),
            decreases list@.len() - i,
        {
            proof {
                assert(paths::views(list@)[i as int] == list@[i as int]@);
            }
            self.insert(list[i].clone());
            i = i + 1;
        }
    }

    /// The paths that are ticked.
    pub fn paths(&self) -> (r: Vec<FilePath>)
        ensures
            paths::views(r@) == self@,
    {
        let mut r: Vec<FilePath> = Vec::new();
        let mut i: usize = 0;
        while i < self.index.len()
            invariant
                i <= self.index@.len(),
                paths::views(r@) == self.index@.take(i as int),
            decreases self.index@.len() - i,
        {
            let p = self.index.get(i).clone();
            proof {
                paths::paths_push(r@, p);
                assert(self.index@.take(i + 1) =~= self.index@.take(i as int).push(p@));
            }
            r.push(p);
            i = i + 1;
        }
        proof {
            assert(self.index@.take(i as int) =~= self.index@);
        }
        r
    }
}

/// What is among the paths after others were added.
pub proof fn lemma_with_all(s: Seq<PathView>, more: Seq<PathView>, n: int, p: PathView)
    requires
        0 <= n <= more.len(),
    ensures
        with_all(s, more, n).contains(p) == (s.contains(p) || more.take(n).contains(p)),
    decreases n,
{
    if n > 0 {
        lemma_with_all(s, more, n - 1, p);
        let before = with_all(s, more, n - 1);
        let after = with_all(s, more, n);
        let fewer = more.take(n - 1);
        let x = more[n - 1];
        assert(more.take(n) =~= fewer.push(x));
        assert(fewer.push(x)[fewer.len() as int] == x);
        if fewer.contains(p) {
            let i = choose|i: int| 0 <= i < fewer.len() && fewer[i] == p;
            assert(fewer.push(x)[i] == p);
        }
        if !before.contains(x) {
            assert(after[before.len() as int] == x);
            if before.contains(p) {
                let i = choose|i: int| 0 <= i < before.len() && before[i] == p;
                assert(after[i] == p);
            }
        }
    } else {
        assert(more.take(0) =~= Seq::<PathView>::empty());
    }
}

/// The first `n` items less those that are not to be kept.
pub open spec fn kept<T>(items: Seq<T>, keep: Seq<bool>, n: int) -> Seq<T>
    decreases n,
{
    if n <= 0 {
        Seq::empty()
    } else if keep[n - 1] {
        kept(items, keep, n - 1).push(items[n - 1])
    } else {
        kept(items, keep, n - 1)
    }
}

/// Keeping what meets a condition is filtering by it.
pub proof fn lemma_kept<T>(items: Seq<T>, keep: Seq<bool>, pred: spec_fn(T) -> bool, n: int)
    requires
        0 <= n <= items.len(),
        forall|i: int| 0 <= i < items.len() ==> keep[i] == pred(#[trigger] items[i]),
    ensures
        kept(items, keep, n) == items.take(n).filter(pred),
    decreases n,
{
    reveal(Seq::filter);
    if n > 0 {
        lemma_kept(items, keep, pred, n - 1);
        assert(items.take(n).drop_last() =~= items.take(n - 1));
        assert(items.take(n).last() == items[n - 1]);
    } else {
        assert(items.take(0) =~= Seq::<T>::empty());
    }
}

/// The items that are to be kept.
pub(crate) fn keep_at<T>(items: Vec<T>, keep: &Vec<bool>) -> (r: Vec<T>)
    requires
        items@.len() == keep@.len(),
    ensures
        r@ == kept(items@, keep@, items@.len() as int),
{
    let ghost all = items@;
    let mut r: Vec<T> = Vec::new();
    let n: usize = keep.len();
    let mut i: usize = 0;
    for item in it: items
        invariant
            it.seq() == all,
            i == it.index(),
            all.len() == keep@.len() == n,
            r@ == kept(all, keep@, i as int),
    {
        if keep[i] {
            r.push(item);
        }
        i = i + 1;
    }
    r
}

/// A path that is ticked is there, and every other one is there as before.
pub proof fn law_ticked_paths_are_there(s: &mut Selection, p: FilePath, u: (), q: PathView)
    requires
        s.wf(),
        call_ensures(Selection::insert, (s, p), u),
    ensures
        final(s)@.contains(q) <==> old(s)@.contains(q) || q == p@,
        final(s)@.no_duplicates(),
{
    final(s).lemma_unique();
    let a = s@;
    let b = final(s)@;
    if a.contains(q) {
        let k = choose|k: int| 0 <= k < a.len() && a[k] == q;
        assert(b[k] == q);
    }
    if !a.contains(p@) {
        assert(b.last() == p@);
        if b.contains(q) && q != p@ {
            let k = choose|k: int| 0 <= k < b.len() && b[k] == q;
            assert(a[k] == q);
        }
    }
}

/// A path whose tick is taken away is no longer there, and every other one is
/// there as before.
pub proof fn law_unticked_paths_are_gone(
    s: &mut Selection,
    p: &FilePath,
    u: (),
    q: PathView,
)
    requires
        s.wf(),
        call_ensures(Selection::remove, (s, p), u),
    ensures
        final(s)@.contains(q) <==> old(s)@.contains(q) && q != p@,
{
    law_without(s@, seq![p@], q);
    let one = seq![p@];
    assert(one[0] == p@);
}

/// Paths that are taken out are gone, and every other one is there as before.
pub proof fn law_removed_paths_are_gone(s: &mut Selection, gone: &Vec<FilePath>, u: (), q: PathView)
    requires
        s.wf(),
        call_ensures(Selection::remove_all, (s, gone), u),
    ensures
        final(s)@.contains(q) <==> old(s)@.contains(q) && !(exists|i: int|
            0 <= i < gone@.len() && (#[trigger] gone@[i])@ == q),
{
    let g = paths::views(gone@);
    law_without(s@, g, q);
    assert(g.len() == gone@.len());
    if g.contains(q) {
        let i = choose|i: int| 0 <= i < g.len() && g[i] == q;
        assert(gone@[i]@ == q);
    }
    if exists|i: int| 0 <= i < gone@.len() && (#[trigger] gone@[i])@ == q {
        let i = choose|i: int| 0 <= i < gone@.len() && (#[trigger] gone@[i])@ == q;
        assert(g[i] == q);
    }
}

/// Paths that are ticked as well are there, beside those that were.
pub proof fn law_added_paths_are_there(
    s: &mut Selection,
    list: &Vec<FilePath>,
    u: (),
    q: PathView,
    later: &Selection,
    found: Vec<FilePath>,
)
    requires
        s.wf(),
        call_ensures(Selection::add, (s, list), u),
        *later == *final(s),
        call_ensures(Selection::paths, (later,), found),
    ensures
        final(s)@.contains(q) <==> old(s)@.contains(q) || paths::views(list@).contains(q),
        paths::views(found@).contains(q) <==> final(s)@.contains(q),
        paths::views(found@).no_duplicates(),
{
    let more = paths::views(list@);
    lemma_with_all(s@, more, more.len() as int, q);
    assert(more.take(more.len() as int) =~= more);
    final(s).lemma_unique();
}

} // verus!
