//! Lists of what was found: which entries a search text leaves, in which order.

use vstd::prelude::*;

use crate::big_folders::FolderEntry;
use crate::large_files::FileEntry;
use crate::order;
use crate::paths;
use crate::paths::{FilePath, PathView};
use crate::search::SearchMatch;
use crate::text;
use crate::ui::selection;
use crate::ui::selection::Selection;

verus! {

#[derive(Debug, Clone, Copy, PartialEq, Eq, Structural)]
pub enum SortBy {
    SizeDesc,
    NameAsc,
}

impl SortBy {
    pub fn label(self) -> (r: &'static str)
        ensures
            r@ == (match self {
                SortBy::SizeDesc => "Largest first"@,
                SortBy::NameAsc => "Name"@,
            }),
    {
        match self {
            SortBy::SizeDesc => "Largest first",
            SortBy::NameAsc => "Name",
        }
    }
}

/// Something found at a place, with a size.
pub trait Listed: Sized {
    spec fn place(self) -> PathView;

    spec fn bytes(self) -> u64;

    fn path(&self) -> (p: &FilePath)
        ensures
            p@ == self.place(),
    ;

    fn size(&self) -> (n: u64)
        ensures
            n == self.bytes(),
    ;
}

impl Listed for FileEntry {
    open spec fn place(self) -> PathView {
        self.path@
    }

    open spec fn bytes(self) -> u64 {
        self.size
    }

    fn path(&self) -> (p: &FilePath) {
        &self.path
    }

    fn size(&self) -> (n: u64) {
        self.size
    }
}

impl Listed for FolderEntry {
    open spec fn place(self) -> PathView {
        self.path@
    }

    open spec fn bytes(self) -> u64 {
        self.size
    }

    fn path(&self) -> (p: &FilePath) {
        &self.path
    }

    fn size(&self) -> (n: u64) {
        self.size
    }
}

impl Listed for SearchMatch {
    open spec fn place(self) -> PathView {
        self.path@
    }

    open spec fn bytes(self) -> u64 {
        self.size
    }

    fn path(&self) -> (p: &FilePath) {
        &self.path
    }

    fn size(&self) -> (n: u64) {
        self.size
    }
}

/// What a search text looks for.
pub open spec fn needle_of(search: Seq<char>) -> Seq<char> {
    text::lowercase(text::trimmed(search))
}

/// Whether a path holds what is looked for. Case does not count, and nothing
/// looked for is in every path.
pub open spec fn fits(path: PathView, needle: Seq<char>) -> bool {
    needle.len() == 0 || text::contains(text::lowercase(path.shown()), needle)
}

/// The positions, among the first `n`, of the entries that fit.
pub open spec fn fitting<T: Listed>(items: Seq<T>, needle: Seq<char>, n: int) -> Seq<usize>
    decreases n,
{
    if n <= 0 {
        Seq::empty()
    } else if fits(items[n - 1].place(), needle) {
        fitting(items, needle, n - 1).push((n - 1) as usize)
    } else {
        fitting(items, needle, n - 1)
    }
}

pub open spec fn sizes_at<T: Listed>(items: Seq<T>, at: Seq<usize>) -> Seq<u64> {
    at.map_values(|i: usize| items[i as int].bytes())
}

pub open spec fn names_at<T: Listed>(items: Seq<T>, at: Seq<usize>) -> Seq<Option<Seq<char>>> {
    at.map_values(|i: usize| items[i as int].place().file_name())
}

/// Whether an order is the chosen one for the entries at some positions.
pub open spec fn orders<T: Listed>(
    items: Seq<T>,
    at: Seq<usize>,
    sort_by: SortBy,
    by: Seq<usize>,
) -> bool {
    match sort_by {
        SortBy::SizeDesc => order::is_order(sizes_at(items, at), by),
        SortBy::NameAsc => order::is_order(names_at(items, at), by),
    }
}

/// Whether a list has the positions of the entries that fit, in the chosen
/// order.
pub open spec fn is_listing<T: Listed>(
    items: Seq<T>,
    search: Seq<char>,
    sort_by: SortBy,
    list: Seq<usize>,
) -> bool {
    let at = fitting(items, needle_of(search), items.len() as int);
    exists|by: Seq<usize>| #[trigger]
        orders(items, at, sort_by, by) && list == order::arranged(at, by)
}

proof fn lemma_fitting<T: Listed>(items: Seq<T>, needle: Seq<char>, n: int, i: int)
    requires
        0 <= n <= items.len() <= usize::MAX,
        0 <= i < items.len(),
    ensures
        fitting(items, needle, n).contains(i as usize) == (i < n && fits(
            items[i].place(),
            needle,
        )),
        forall|a: int|
            0 <= a < fitting(items, needle, n).len() ==> #[trigger] fitting(items, needle, n)[a]
                < n,
    decreases n,
{
    if n > 0 {
        lemma_fitting(items, needle, n - 1, i);
        let before = fitting(items, needle, n - 1);
        let after = fitting(items, needle, n);
        if fits(items[n - 1].place(), needle) {
            assert(after[before.len() as int] == (n - 1) as usize);
            if before.contains(i as usize) {
                let a = choose|a: int| 0 <= a < before.len() && before[a] == i as usize;
                assert(after[a] == i as usize);
            }
            if after.contains(i as usize) {
                let a = choose|a: int| 0 <= a < after.len() && after[a] == i as usize;
                if a < before.len() {
                    assert(before[a] == i as usize);
                }
            }
        }
    }
}

/// A list shows an entry exactly when the entry holds what is looked for.
pub proof fn law_listing_is_complete<T: Listed>(
    items: Seq<T>,
    search: Seq<char>,
    sort_by: SortBy,
    list: Seq<usize>,
    i: int,
)
    requires
        is_listing(items, search, sort_by, list),
        items.len() <= usize::MAX,
        0 <= i < items.len(),
    ensures
        list.contains(i as usize) == fits(items[i].place(), needle_of(search)),
{
    let needle = needle_of(search);
    let at = fitting(items, needle, items.len() as int);
    let by = choose|by: Seq<usize>| #[trigger]
        orders(items, at, sort_by, by) && list == order::arranged(at, by);
    lemma_fitting(items, needle, items.len() as int, i);
    match sort_by {
        SortBy::SizeDesc => order::law_order_is_complete(sizes_at(items, at), by),
        SortBy::NameAsc => order::law_order_is_complete(names_at(items, at), by),
    }
    if at.contains(i as usize) {
        let a = choose|a: int| 0 <= a < at.len() && at[a] == i as usize;
        assert(order::lists(by, a));
        let b = choose|b: int| 0 <= b < by.len() && #[trigger] by[b] as int == a;
        assert(list[b] == i as usize);
    }
    if list.contains(i as usize) {
        let b = choose|b: int| 0 <= b < list.len() && list[b] == i as usize;
        assert(at[by[b] as int] == i as usize);
    }
}

/// Whether a path holds what is looked for.
fn path_fits(path: &FilePath, needle: &str) -> (r: bool)
    ensures
        r == fits(path@, needle@),
{
    if needle.is_empty() {
        return true;
    }
    let shown = path.display();
    text::contains_text(text::to_lower(shown.as_str()).as_str(), needle)
}

/// The positions of the entries that fit, in the chosen order.
pub fn listing<T: Listed>(items: &Vec<T>, search: &str, sort_by: SortBy) -> (list: Vec<usize>)
    ensures
        is_listing(items@, search@, sort_by, list@),
        forall|a: int| 0 <= a < list@.len() ==> #[trigger] list@[a] < items@.len(),
{
    let needle = text::to_lower(text::trim(search).as_str());
    let mut at: Vec<usize> = Vec::new();
    let mut sizes: Vec<u64> = Vec::new();
    let mut names: Vec<Option<String>> = Vec::new();
    let mut i: usize = 0;
    while i < items.len()
        invariant
            i <= items@.len(),
            needle@ == needle_of(search@),
            at@ == fitting(items@, needle@, i as int),
            forall|a: int| 0 <= a < at@.len() ==> #[trigger] at@[a] < i,
            sizes@ == sizes_at(items@, at@),
            order::name_views(names@) == names_at(items@, at@),
        decreases items@.len() - i,
    {
        if path_fits(items[i].path(), needle.as_str()) {
            let ghost at0 = at@;
            let ghost sizes0 = sizes@;
            let ghost names0 = names@;
            at.push(i);
            sizes.push(items[i].size());
            names.push(items[i].path().file_name());
            proof {
                assert(sizes_at(items@, at@) =~= sizes_at(items@, at0).push(
                    items@[i as int].bytes(),
                ));
                assert(names_at(items@, at@) =~= names_at(items@, at0).push(
                    items@[i as int].place().file_name(),
                ));
                assert(order::name_views(names@) =~= order::name_views(names0).push(
                    items@[i as int].place().file_name(),
                ));
            }
        }
        i = i + 1;
    }
    let by = match sort_by {
        SortBy::SizeDesc => order::largest_first(&sizes),
        SortBy::NameAsc => order::by_name(&names),
    };
    proof {
        assert(orders(items@, at@, sort_by, by@));
    }
    let mut list: Vec<usize> = Vec::new();
    let mut j: usize = 0;
    while j < by.len()
        invariant
            j <= by@.len(),
            by@.len() == at@.len(),
            forall|a: int| 0 <= a < by@.len() ==> #[trigger] by@[a] < at@.len(),
            forall|a: int| 0 <= a < at@.len() ==> #[trigger] at@[a] < items@.len(),
            list@.len() == j,
            forall|a: int| 0 <= a < j ==> #[trigger] list@[a] == at@[by@[a] as int],
            forall|a: int| 0 <= a < j ==> #[trigger] list@[a] < items@.len(),
        decreases by@.len() - j,
    {
        list.push(at[by[j]]);
        j = j + 1;
    }
    proof {
        assert(list@ =~= order::arranged(at@, by@));
    }
    list
}

/// The entries that are still there.
pub open spec fn still_listed<T: Listed>(items: Seq<T>, gone: Seq<PathView>) -> Seq<T> {
    items.filter(|t: T| !gone.contains(t.place()))
}

/// Forgets the entries that are gone.
pub fn forget<T: Listed>(items: Vec<T>, gone: &Vec<FilePath>) -> (r: Vec<T>)
    ensures
        r@ == still_listed(items@, paths::views(gone@)),
{
    let out = Selection::of(gone);
    let ghost all = items@;
    let ghost missing = paths::views(gone@);
    let mut keep: Vec<bool> = Vec::new();
    let mut i: usize = 0;
    while i < items.len()
        invariant
            i <= items@.len(),
            out.wf(),
            forall|p: PathView| #[trigger] out@.contains(p) == missing.contains(p),
            keep@.len() == i,
            forall|j: int|
                0 <= j < i ==> #[trigger] keep@[j] == !missing.contains(items@[j].place()),
        decreases items@.len() - i,
    {
        keep.push(!out.contains(items[i].path()));
        i = i + 1;
    }
    proof {
        selection::lemma_kept(all, keep@, |t: T| !missing.contains(t.place()), all.len() as int);
        assert(all.take(all.len() as int) =~= all);
    }
    selection::keep_at(items, &keep)
}

/// Forgetting leaves exactly the entries that are not gone.
pub proof fn law_forget_spares_the_rest<T: Listed>(items: Seq<T>, gone: Seq<PathView>, t: T)
    ensures
        still_listed(items, gone).contains(t) == (items.contains(t) && !gone.contains(t.place())),
{
    let keep = |t: T| !gone.contains(t.place());
    if items.contains(t) && keep(t) {
        let i = choose|i: int| 0 <= i < items.len() && items[i] == t;
        items.lemma_filter_contains(keep, i);
    }
    if items.filter(keep).contains(t) {
        items.lemma_filter_contains_rev(keep, t);
        let i = choose|i: int| 0 <= i < items.filter(keep).len() && items.filter(keep)[i] == t;
        items.lemma_filter_pred(keep, i);
    }
}

/// The paths of the entries at some positions.
pub open spec fn paths_at<T: Listed>(items: Seq<T>, at: Seq<usize>) -> Seq<PathView> {
    at.map_values(|i: usize| items[i as int].place())
}

/// Ticks the entries at some positions.
pub fn select_shown<T: Listed>(selected: &mut Selection, items: &Vec<T>, shown: &Vec<usize>)
    requires
        old(selected).wf(),
        forall|a: int| 0 <= a < shown@.len() ==> #[trigger] shown@[a] < items@.len(),
    ensures
        final(selected).wf(),
        final(selected)@ == selection::with_all(
            old(selected)@,
            paths_at(items@, shown@),
            shown@.len() as int,
        ),
{
    let ghost start = selected@;
    let mut i: usize = 0;
    while i < shown.len()
        invariant
            i <= shown@.len(),
            selected.wf(),
            forall|a: int| 0 <= a < shown@.len() ==> #[trigger] shown@[a] < items@.len(),
            selected@ == selection::with_all(start, paths_at(items@, shown@), i as int),
        decreases shown@.len() - i,
    {
        let at: usize = shown[i];
        let p = items[at].path().clone();
        proof {
            assert(paths_at(items@, shown@)[i as int] == p@);
        }
        selected.insert(p);
        i = i + 1;
    }
}

/// The paths of all entries.
pub open spec fn all_paths<T: Listed>(items: Seq<T>) -> Seq<PathView> {
    items.map_values(|t: T| t.place())
}

/// Ticks all entries.
pub fn select_all<T: Listed>(selected: &mut Selection, items: &Vec<T>)
    requires
        old(selected).wf(),
    ensures
        final(selected).wf(),
        final(selected)@ == selection::with_all(
            old(selected)@,
            all_paths(items@),
            items@.len() as int,
        ),
{
    let ghost start = selected@;
    let mut i: usize = 0;
    while i < items.len()
        invariant
            i <= items@.len(),
            selected.wf(),
            selected@ == selection::with_all(start, all_paths(items@), i as int),
        decreases items@.len() - i,
    {
        let p = items[i].path().clone();
        proof {
            assert(all_paths(items@)[i as int] == p@);
        }
        selected.insert(p);
        i = i + 1;
    }
}

/// Ticks an entry, or takes the tick away.
pub fn tick(selected: &mut Selection, path: &FilePath, checked: bool)
    requires
        old(selected).wf(),
    ensures
        final(selected).wf(),
        final(selected)@ == (if checked {
            selection::with(old(selected)@, path@)
        } else {
            selection::without(old(selected)@, seq![path@])
        }),
{
    if checked {
        selected.insert(path.clone());
    } else {
        selected.remove(path);
    }
}

/// A list shows what holds the search text, in whatever case, and nothing else;
/// it shows each entry once, and all of them where nothing is looked for.
pub proof fn law_shown_entries_hold_the_text<T: Listed>(
    items: &Vec<T>,
    search: &str,
    sort_by: SortBy,
    list: Vec<usize>,
    i: int,
    at: int,
)
    requires
        call_ensures(listing::<T>, (items, search, sort_by), list),
        0 <= i < items@.len(),
    ensures
        ({
            let needle = text::lowercase(text::trimmed(search@));
            let shown = text::lowercase(items@[i].place().shown());
            &&& (0 <= at && at + needle.len() <= shown.len() && shown.subrange(
                at,
                at + needle.len(),
            ) == needle) ==> list@.contains(i as usize)
            &&& (list@.contains(i as usize) && needle.len() > 0) ==> exists|k: int|
                0 <= k <= shown.len() - needle.len() && #[trigger] shown.subrange(
                    k,
                    k + needle.len(),
                ) == needle
            &&& needle.len() == 0 ==> list@.contains(i as usize)
        }),
{
    assert(items.len() <= usize::MAX);
    law_listing_is_complete(items@, search@, sort_by, list@, i);
    let needle = needle_of(search@);
    let shown = text::lowercase(items@[i].place().shown());
    if 0 <= at && at + needle.len() <= shown.len() && shown.subrange(at, at + needle.len())
        == needle {
        assert(text::stands_at(shown, needle, at));
        assert(text::contains(shown, needle));
    }
    if list@.contains(i as usize) && needle.len() > 0 {
        assert(text::contains(shown, needle));
        let k = choose|k: int| text::stands_at(shown, needle, k);
        assert(shown.subrange(k, k + needle.len()) == needle);
    }
}

/// Entries stand in the chosen order: larger ones before smaller ones, or one
/// name before the next.
pub proof fn law_entries_stand_in_order<T: Listed>(
    items: &Vec<T>,
    search: &str,
    sort_by: SortBy,
    list: Vec<usize>,
    a: int,
    b: int,
)
    requires
        call_ensures(listing::<T>, (items, search, sort_by), list),
        0 <= a < b < list@.len(),
    ensures
        sort_by is SizeDesc ==> items@[list@[a] as int].bytes() >= items@[list@[b] as int].bytes(),
        sort_by is NameAsc ==> {
            let x = items@[list@[a] as int].place().file_name();
            let y = items@[list@[b] as int].place().file_name();
            &&& y is None ==> x is None
            &&& (x matches Some(s) && y matches Some(t) && s.len() > 0 && t.len() > 0) ==> x->0[0]
                <= y->0[0]
        },
{
    let at = fitting(items@, needle_of(search@), items@.len() as int);
    let by = choose|by: Seq<usize>| #[trigger]
        orders(items@, at, sort_by, by) && list@ == order::arranged(at, by);
    assert(list@[a] == at[by[a] as int] && list@[b] == at[by[b] as int]);
    let i = by[a] as int;
    let j = by[b] as int;
    match sort_by {
        SortBy::SizeDesc => {
            let keys = sizes_at(items@, at);
            assert(order::comes_first(keys, i, j));
            assert(keys[i] == items@[list@[a] as int].bytes());
            assert(keys[j] == items@[list@[b] as int].bytes());
        },
        SortBy::NameAsc => {
            let keys = names_at(items@, at);
            assert(order::comes_first(keys, i, j));
            assert(keys[i] == items@[list@[a] as int].place().file_name());
            assert(keys[j] == items@[list@[b] as int].place().file_name());
            <Option<Seq<char>> as order::Ordered>::lemma_ahead(keys[i], keys[j], keys[i]);
        },
    }
}

/// What is gone is forgotten, and everything else stays.
pub proof fn law_only_what_is_gone_is_forgotten<T: Listed>(
    items: Vec<T>,
    gone: &Vec<FilePath>,
    r: Vec<T>,
    t: T,
)
    requires
        call_ensures(forget::<T>, (items, gone), r),
    ensures
        r@.contains(t) <==> items@.contains(t) && !paths::views(gone@).contains(t.place()),
{
    law_forget_spares_the_rest(items@, paths::views(gone@), t);
}

/// Ticking what is shown ticks just that, beside what was ticked before.
pub proof fn law_shown_entries_are_ticked<T: Listed>(
    selected: &mut Selection,
    items: &Vec<T>,
    shown: &Vec<usize>,
    u: (),
    p: PathView,
)
    requires
        selected.wf(),
        forall|a: int| 0 <= a < shown@.len() ==> #[trigger] shown@[a] < items@.len(),
        call_ensures(select_shown::<T>, (selected, items, shown), u),
    ensures
        final(selected)@.contains(p) <==> old(selected)@.contains(p) || exists|a: int|
            0 <= a < shown@.len() && items@[#[trigger] shown@[a] as int].place() == p,
{
    let more = paths_at(items@, shown@);
    selection::lemma_with_all(selected@, more, more.len() as int, p);
    assert(more.take(more.len() as int) =~= more);
    if more.contains(p) {
        let a = choose|a: int| 0 <= a < more.len() && more[a] == p;
        assert(items@[shown@[a] as int].place() == p);
    }
    if exists|a: int| 0 <= a < shown@.len() && items@[#[trigger] shown@[a] as int].place() == p {
        let a = choose|a: int|
            0 <= a < shown@.len() && items@[#[trigger] shown@[a] as int].place() == p;
        assert(more[a] == p);
    }
}

/// Ticking everything ticks each entry, whatever its size or name.
pub proof fn law_all_entries_are_ticked<T: Listed>(
    selected: &mut Selection,
    items: &Vec<T>,
    u: (),
    i: int,
)
    requires
        selected.wf(),
        call_ensures(select_all::<T>, (selected, items), u),
        0 <= i < items@.len(),
    ensures
        final(selected)@.contains(items@[i].place()),
{
    let more = all_paths(items@);
    let p = items@[i].place();
    selection::lemma_with_all(selected@, more, more.len() as int, p);
    assert(more.take(more.len() as int) =~= more);
    assert(more[i] == p);
}

/// A tick is set or taken away as asked, and no other changes.
pub proof fn law_a_tick_changes_one_entry(
    selected: &mut Selection,
    path: &FilePath,
    checked: bool,
    u: (),
    q: PathView,
)
    requires
        selected.wf(),
        call_ensures(tick, (selected, path, checked), u),
    ensures
        final(selected)@.contains(path@) == checked,
        q != path@ ==> final(selected)@.contains(q) == old(selected)@.contains(q),
{
    let a = selected@;
    let b = final(selected)@;
    let one = seq![path@];
    assert(one[0] == path@);
    if checked {
        if !a.contains(path@) {
            assert(b.last() == path@);
        }
        if a.contains(q) {
            let k = choose|k: int| 0 <= k < a.len() && a[k] == q;
            assert(b[k] == q);
        }
        if b.contains(q) && q != path@ {
            let k = choose|k: int| 0 <= k < b.len() && b[k] == q;
            assert(a[k] == q);
        }
    } else {
        selection::law_without(a, one, q);
        selection::law_without(a, one, path@);
    }
}

} // verus!
