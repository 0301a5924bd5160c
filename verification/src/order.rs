//! Ordering items by size, largest first, or by name; equal ones stay in their
//! order.

use vstd::prelude::*;

use crate::text;

verus! {

/// What items are ordered by.
pub trait Ordered: Sized {
    /// Whether an item with this key stands before one with the other.
    spec fn ahead(self, other: Self) -> bool;

    /// Keys fall into classes that stand one after the other.
    proof fn lemma_ahead(a: Self, b: Self, c: Self)
        ensures
            !a.ahead(a),
            a.ahead(b) && b.ahead(c) ==> a.ahead(c),
            !a.ahead(b) && !b.ahead(c) ==> !a.ahead(c),
    ;
}

/// Keys that can be looked at.
pub trait Ranked: Ordered {
    fn is_ahead(&self, other: &Self) -> (r: bool)
        ensures
            r == self.ahead(*other),
    ;
}

impl Ordered for u64 {
    /// The larger size stands first.
    open spec fn ahead(self, other: u64) -> bool {
        self > other
    }

    proof fn lemma_ahead(a: u64, b: u64, c: u64) {
    }
}

impl Ranked for u64 {
    fn is_ahead(&self, other: &u64) -> (r: bool) {
        *self > *other
    }
}

/// Whether a text stands before another, from position `i` on, at which the
/// shorter one may end.
pub open spec fn text_before(a: Seq<char>, b: Seq<char>, i: int) -> bool
    decreases b.len() - i,
{
    if i < 0 || i >= b.len() {
        false
    } else if i >= a.len() {
        true
    } else if a[i] != b[i] {
        a[i] < b[i]
    } else {
        text_before(a, b, i + 1)
    }
}

proof fn lemma_text_before(a: Seq<char>, b: Seq<char>, c: Seq<char>, i: int)
    requires
        0 <= i,
    ensures
        !text_before(a, a, i),
        text_before(a, b, i) && text_before(b, c, i) ==> text_before(a, c, i),
        !text_before(a, b, i) && !text_before(b, c, i) ==> !text_before(a, c, i),
    decreases a.len() + b.len() + c.len() - i,
{
    if i < a.len() + b.len() + c.len() {
        lemma_text_before(a, b, c, i + 1);
    }
}

impl Ordered for Option<Seq<char>> {
    /// What has no name stands first; names stand as their characters do.
    open spec fn ahead(self, other: Option<Seq<char>>) -> bool {
        match (self, other) {
            (None, Some(_)) => true,
            (Some(a), Some(b)) => text_before(a, b, 0),
            _ => false,
        }
    }

    proof fn lemma_ahead(a: Option<Seq<char>>, b: Option<Seq<char>>, c: Option<Seq<char>>) {
        match (a, b, c) {
            (Some(x), Some(y), Some(z)) => lemma_text_before(x, y, z, 0),
            (Some(x), _, _) => lemma_text_before(x, x, x, 0),
            _ => {},
        }
    }
}

/// A name to order by.
struct NameKey {
    name: Option<Vec<char>>,
}

impl NameKey {
    spec fn key(self) -> Option<Seq<char>> {
        match self.name {
            Some(v) => Some(v@),
            None => None,
        }
    }
}

impl Ordered for NameKey {
    closed spec fn ahead(self, other: NameKey) -> bool {
        self.key().ahead(other.key())
    }

    proof fn lemma_ahead(a: NameKey, b: NameKey, c: NameKey) {
        <Option<Seq<char>> as Ordered>::lemma_ahead(a.key(), b.key(), c.key());
    }
}

impl Ranked for NameKey {
    fn is_ahead(&self, other: &NameKey) -> (r: bool) {
        match (&self.name, &other.name) {
            (None, Some(_)) => true,
            (Some(a), Some(b)) => {
                let mut i: usize = 0;
                while i < a.len() && i < b.len() && a[i] == b[i]
                    invariant
                        i <= a@.len(),
                        i <= b@.len(),
                        text_before(a@, b@, 0) == text_before(a@, b@, i as int),
                    decreases a@.len() - i,
                {
                    i = i + 1;
                }
                if i >= b.len() {
                    false
                } else if i >= a.len() {
                    true
                } else {
                    a[i] < b[i]
                }
            },
            _ => false,
        }
    }
}

/// Whether item `i` comes before item `j`: its key is ahead, or level with the
/// other and the item comes earlier.
pub open spec fn comes_first<K: Ordered>(keys: Seq<K>, i: int, j: int) -> bool {
    keys[i].ahead(keys[j]) || (!keys[j].ahead(keys[i]) && i < j)
}

proof fn lemma_comes_first<K: Ordered>(keys: Seq<K>, i: int, j: int, k: int)
    ensures
        comes_first(keys, i, j) && comes_first(keys, j, k) ==> comes_first(keys, i, k),
        i != j ==> comes_first(keys, i, j) != comes_first(keys, j, i),
        !comes_first(keys, i, i),
{
    let (a, b, c) = (keys[i], keys[j], keys[k]);
    K::lemma_ahead(a, b, c);
    K::lemma_ahead(b, a, c);
    K::lemma_ahead(a, c, b);
    K::lemma_ahead(c, b, a);
    K::lemma_ahead(c, a, b);
    K::lemma_ahead(b, c, a);
    K::lemma_ahead(a, b, a);
    K::lemma_ahead(b, a, b);
}

/// Whether the positions in `order` stand one after the other as they should.
pub open spec fn in_order<K: Ordered>(keys: Seq<K>, order: Seq<usize>) -> bool {
    forall|a: int, b: int|
        0 <= a < b < order.len() ==> comes_first(
            keys,
            #[trigger] order[a] as int,
            #[trigger] order[b] as int,
        )
}

/// Whether `order` lists all items as they should stand.
pub open spec fn is_order<K: Ordered>(keys: Seq<K>, order: Seq<usize>) -> bool {
    &&& order.len() == keys.len()
    &&& forall|a: int| 0 <= a < order.len() ==> (#[trigger] order[a]) < keys.len()
    &&& in_order(keys, order)
}

/// Whether an order lists position `i`.
pub open spec fn lists(order: Seq<usize>, i: int) -> bool {
    exists|a: int| 0 <= a < order.len() && #[trigger] order[a] as int == i
}

/// The items in the given order.
pub open spec fn arranged<T>(items: Seq<T>, order: Seq<usize>) -> Seq<T> {
    Seq::new(order.len(), |a: int| items[order[a] as int])
}

/// An order leaves no item out: each position is listed, and listed once.
pub proof fn law_order_is_complete<K: Ordered>(keys: Seq<K>, order: Seq<usize>)
    requires
        is_order(keys, order),
    ensures
        forall|i: int| 0 <= i < keys.len() ==> #[trigger] lists(order, i),
        forall|a: int, b: int|
            0 <= a < b < order.len() ==> #[trigger] order[a] != #[trigger] order[b],
{
    let at = order.map_values(|p: usize| p as int);
    assert(at.no_duplicates()) by {
        assert forall|a: int, b: int| 0 <= a < at.len() && 0 <= b < at.len() && a != b implies at[a]
            != at[b] by {
            lemma_comes_first(keys, at[a], at[a], at[a]);
            if a < b {
                assert(comes_first(keys, order[a] as int, order[b] as int));
            } else {
                assert(comes_first(keys, order[b] as int, order[a] as int));
            }
        }
    }
    at.unique_seq_to_set();
    let all = vstd::set_lib::set_int_range(0, keys.len() as int);
    vstd::set_lib::lemma_int_range(0, keys.len() as int);
    assert(at.to_set().subset_of(all)) by {
        assert forall|i: int| at.to_set().contains(i) implies all.contains(i) by {
            let a = choose|a: int| 0 <= a < at.len() && at[a] == i;
            assert(order[a] < keys.len());
        }
    }
    vstd::set_lib::lemma_subset_equality(at.to_set(), all);
    assert forall|i: int| 0 <= i < keys.len() implies #[trigger] lists(order, i) by {
        assert(all.contains(i));
        assert(at.to_set().contains(i));
        let a = choose|a: int| 0 <= a < at.len() && at[a] == i;
        assert(order[a] as int == i);
    }
    assert forall|a: int, b: int| 0 <= a < b < order.len() implies #[trigger] order[a]
        != #[trigger] order[b] by {
        assert(comes_first(keys, order[a] as int, order[b] as int));
        lemma_comes_first(keys, order[a] as int, order[a] as int, order[a] as int);
    }
}

/// Whether every position of `left` comes before every position of `right`.
spec fn all_before<K: Ordered>(keys: Seq<K>, left: Seq<usize>, right: Seq<usize>) -> bool {
    forall|a: int, b: int|
        0 <= a < left.len() && 0 <= b < right.len() ==> comes_first(
            keys,
            #[trigger] left[a] as int,
            #[trigger] right[b] as int,
        )
}

spec fn within(order: Seq<usize>, lo: int, hi: int) -> bool {
    forall|a: int| 0 <= a < order.len() ==> lo <= (#[trigger] order[a]) < hi
}

fn earlier<K: Ranked>(keys: &Vec<K>, i: usize, j: usize) -> (r: bool)
    requires
        i < keys@.len(),
        j < keys@.len(),
    ensures
        r == comes_first(keys@, i as int, j as int),
{
    keys[i].is_ahead(&keys[j]) || (!keys[j].is_ahead(&keys[i]) && i < j)
}

fn merge<K: Ranked>(keys: &Vec<K>, left: Vec<usize>, right: Vec<usize>, mid: usize) -> (out: Vec<usize>)
    requires
        in_order(keys@, left@),
        in_order(keys@, right@),
        within(left@, 0, keys@.len() as int),
        within(right@, 0, keys@.len() as int),
        within(left@, 0, mid as int),
        within(right@, mid as int, keys@.len() as int),
        left@.len() + right@.len() <= usize::MAX,
    ensures
        in_order(keys@, out@),
        out@.len() == left@.len() + right@.len(),
        forall|x: usize| #[trigger] out@.contains(x) ==> left@.contains(x) || right@.contains(x),
{
    let mut out: Vec<usize> = Vec::new();
    let mut i: usize = 0;
    let mut j: usize = 0;
    while i < left.len() || j < right.len()
        invariant
            i <= left@.len(),
            j <= right@.len(),
            out@.len() == i + j,
            in_order(keys@, left@),
            in_order(keys@, right@),
            within(left@, 0, keys@.len() as int),
            within(right@, 0, keys@.len() as int),
            within(left@, 0, mid as int),
            within(right@, mid as int, keys@.len() as int),
            in_order(keys@, out@),
            all_before(keys@, out@, left@.skip(i as int)),
            all_before(keys@, out@, right@.skip(j as int)),
            forall|x: usize| #[trigger]
                out@.contains(x) ==> left@.contains(x) || right@.contains(x),
        decreases left@.len() - i + right@.len() - j,
    {
        let ghost before = out@;
        let take_left = if j >= right.len() {
            true
        } else if i >= left.len() {
            false
        } else {
            earlier(keys, left[i], right[j])
        };
        let ghost lrest = left@.skip(i as int);
        let ghost rrest = right@.skip(j as int);
        if take_left {
            let x: usize = left[i];
            out.push(x);
            i = i + 1;
            proof {
                assert(lrest[0] == x);
                assert(left@.contains(x));
                let after = left@.skip(i as int);
                assert forall|a: int, b: int|
                    0 <= a < out@.len() && 0 <= b < after.len() implies comes_first(
                    keys@,
                    #[trigger] out@[a] as int,
                    #[trigger] after[b] as int,
                ) by {
                    assert(after[b] == lrest[b + 1]);
                    if a < before.len() {
                        assert(out@[a] == before[a]);
                    } else {
                        assert(left@[i - 1] == x);
                        assert(after[b] == left@[i + b]);
                    }
                }
                assert forall|a: int, b: int|
                    0 <= a < out@.len() && 0 <= b < rrest.len() implies comes_first(
                    keys@,
                    #[trigger] out@[a] as int,
                    #[trigger] rrest[b] as int,
                ) by {
                    if a < before.len() {
                        assert(out@[a] == before[a]);
                    } else {
                        assert(rrest[b] == right@[j + b]);
                        assert(comes_first(keys@, x as int, right@[j as int] as int));
                        if b > 0 {
                            assert(comes_first(
                                keys@,
                                right@[j as int] as int,
                                right@[j + b] as int,
                            ));
                            lemma_comes_first(
                                keys@,
                                x as int,
                                right@[j as int] as int,
                                right@[j + b] as int,
                            );
                        }
                    }
                }
            }
        } else {
            let x: usize = right[j];
            out.push(x);
            j = j + 1;
            proof {
                assert(rrest[0] == x);
                assert(right@.contains(x));
                let after = right@.skip(j as int);
                assert forall|a: int, b: int|
                    0 <= a < out@.len() && 0 <= b < after.len() implies comes_first(
                    keys@,
                    #[trigger] out@[a] as int,
                    #[trigger] after[b] as int,
                ) by {
                    assert(after[b] == rrest[b + 1]);
                    if a < before.len() {
                        assert(out@[a] == before[a]);
                    } else {
                        assert(right@[j - 1] == x);
                        assert(after[b] == right@[j + b]);
                    }
                }
                assert forall|a: int, b: int|
                    0 <= a < out@.len() && 0 <= b < lrest.len() implies comes_first(
                    keys@,
                    #[trigger] out@[a] as int,
                    #[trigger] lrest[b] as int,
                ) by {
                    if a < before.len() {
                        assert(out@[a] == before[a]);
                    } else {
                        assert(lrest[b] == left@[i + b]);
                        lemma_comes_first(keys@, x as int, left@[i as int] as int, 0);
                        assert(comes_first(keys@, x as int, left@[i as int] as int));
                        if b > 0 {
                            assert(comes_first(keys@, left@[i as int] as int, left@[i + b] as int));
                            lemma_comes_first(
                                keys@,
                                x as int,
                                left@[i as int] as int,
                                left@[i + b] as int,
                            );
                        }
                    }
                }
            }
        }
        proof {
            assert forall|a: int, b: int| 0 <= a < b < out@.len() implies comes_first(
                keys@,
                #[trigger] out@[a] as int,
                #[trigger] out@[b] as int,
            ) by {
                assert(out@[a] == before[a]);
                if b < before.len() {
                    assert(out@[b] == before[b]);
                } else if take_left {
                    assert(out@[b] == lrest[0]);
                } else {
                    assert(out@[b] == rrest[0]);
                }
            }
            assert forall|x: usize| #[trigger] out@.contains(x) implies left@.contains(x)
                || right@.contains(x) by {
                let a = choose|a: int| 0 <= a < out@.len() && out@[a] == x;
                if a < before.len() {
                    assert(before[a] == x);
                    assert(before.contains(x));
                }
            }
        }
    }
    out
}

fn order_range<K: Ranked>(keys: &Vec<K>, lo: usize, hi: usize) -> (out: Vec<usize>)
    requires
        lo <= hi <= keys@.len(),
    ensures
        out@.len() == hi - lo,
        within(out@, lo as int, hi as int),
        in_order(keys@, out@),
    decreases hi - lo,
{
    if hi - lo == 0 {
        return Vec::new();
    }
    if hi - lo == 1 {
        let mut one: Vec<usize> = Vec::new();
        one.push(lo);
        return one;
    }
    let mid: usize = lo + (hi - lo) / 2;
    let left = order_range(keys, lo, mid);
    let right = order_range(keys, mid, hi);
    let ghost l = left@;
    let ghost r = right@;
    let out = merge(keys, left, right, mid);
    proof {
        assert forall|a: int| 0 <= a < out@.len() implies lo <= (#[trigger] out@[a]) < hi by {
            let x = out@[a];
            assert(out@.contains(x));
            if l.contains(x) {
                let b = choose|b: int| 0 <= b < l.len() && l[b] == x;
                assert(lo <= l[b] < mid);
            } else {
                let b = choose|b: int| 0 <= b < r.len() && r[b] == x;
                assert(mid <= r[b] < hi);
            }
        }
    }
    out
}

/// The order of the items, largest first.
pub fn largest_first(keys: &Vec<u64>) -> (order: Vec<usize>)
    ensures
        is_order(keys@, order@),
{
    order_range(keys, 0, keys.len())
}

/// Names as characters.
pub open spec fn name_views(names: Seq<Option<String>>) -> Seq<Option<Seq<char>>> {
    names.map_values(
        |n: Option<String>|
            match n {
                Some(s) => Some(s@),
                None => None,
            },
    )
}

/// The order of the items by name.
pub fn by_name(names: &Vec<Option<String>>) -> (order: Vec<usize>)
    ensures
        is_order(name_views(names@), order@),
{
    let mut keys: Vec<NameKey> = Vec::new();
    let mut i: usize = 0;
    while i < names.len()
        invariant
            i <= names@.len(),
            keys@.len() == i,
            forall|j: int| 0 <= j < i ==> (#[trigger] keys@[j]).key() == name_views(names@)[j],
        decreases names@.len() - i,
    {
        let name = match &names[i] {
            Some(s) => Some(text::chars_of(s.as_str())),
            None => None,
        };
        keys.push(NameKey { name });
        i = i + 1;
    }
    let order = order_range(&keys, 0, keys.len());
    proof {
        let all = name_views(names@);
        assert forall|a: int, b: int| 0 <= a < b < order@.len() implies comes_first(
            all,
            #[trigger] order@[a] as int,
            #[trigger] order@[b] as int,
        ) by {
            assert(comes_first(keys@, order@[a] as int, order@[b] as int));
        }
    }
    order
}

/// Sizes come largest first; among equal ones the earlier stays ahead, and each
/// item is there once.
pub proof fn law_largest_come_first(keys: &Vec<u64>, order: Vec<usize>, a: int, b: int)
    requires
        call_ensures(largest_first, (keys,), order),
        0 <= a < b < order@.len(),
    ensures
        order@.len() == keys@.len(),
        order@[a] < keys@.len() && order@[b] < keys@.len(),
        keys@[order@[a] as int] >= keys@[order@[b] as int],
        keys@[order@[a] as int] == keys@[order@[b] as int] ==> order@[a] < order@[b],
        order@[a] != order@[b],
{
}

proof fn lemma_text_order(a: Seq<char>, b: Seq<char>, i: int, k: int)
    requires
        0 <= i <= k,
        k <= a.len(),
        k <= b.len(),
        forall|j: int| i <= j < k ==> a[j] == b[j],
    ensures
        text_before(a, b, i) == text_before(a, b, k),
    decreases k - i,
{
    if i < k {
        lemma_text_order(a, b, i + 1, k);
    }
}

/// Names come in the order of their characters: the first difference decides,
/// and a name comes before a longer one that it starts. What has no name comes
/// before what has one.
pub proof fn law_names_come_in_order(
    names: &Vec<Option<String>>,
    order: Vec<usize>,
    a: int,
    b: int,
    k: int,
)
    requires
        call_ensures(by_name, (names,), order),
        0 <= a < b < order@.len(),
    ensures
        order@.len() == names@.len(),
        order@[a] < names@.len() && order@[b] < names@.len() && order@[a] != order@[b],
        ({
            let x = names@[order@[a] as int];
            let y = names@[order@[b] as int];
            &&& x is Some && y is None ==> false
            &&& (x matches Some(s) && y matches Some(t) && 0 <= k && k < s@.len() && k < t@.len()
                && s@.take(k) == t@.take(k)) ==> x->0@[k] <= y->0@[k]
            &&& (x matches Some(s) && y matches Some(t) && s@.len() > t@.len()) ==> x->0@.take(
                y->0@.len() as int,
            ) != y->0@
        }),
{
    let v = name_views(names@);
    assert(v.len() == names@.len());
    let i = order@[a] as int;
    let j = order@[b] as int;
    assert(comes_first(v, i, j));
    let x = names@[i];
    let y = names@[j];
    if x is Some && y is Some {
        let s = x->0@;
        let t = y->0@;
        assert(v[i] == Some(s) && v[j] == Some(t));
        assert(!text_before(t, s, 0)) by {
            lemma_text_before(s, t, s, 0);
        }
        if 0 <= k && k < s.len() && k < t.len() && s.take(k) == t.take(k) {
            assert forall|m: int| 0 <= m < k implies s[m] == t[m] by {
                assert(s.take(k)[m] == t.take(k)[m]);
            }
            lemma_text_order(t, s, 0, k);
        }
        if s.len() > t.len() && s.take(t.len() as int) == t {
            assert forall|m: int| 0 <= m < t.len() implies s[m] == t[m] by {
                assert(s.take(t.len() as int)[m] == t[m]);
            }
            lemma_text_order(t, s, 0, t.len() as int);
        }
    }
}

} // verus!
