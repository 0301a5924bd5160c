//! A set of paths that tells quickly whether, and as which, a path is in it.

use std::collections::HashMap;

use vstd::prelude::*;

use crate::paths::{FilePath, PathView};
use crate::text;

verus! {

broadcast use vstd::std_specs::hash::group_hash_axioms;

/// A number for the first `n` characters of a text.
pub open spec fn text_number(s: Seq<char>, n: int, start: u64) -> u64
    decreases n,
{
    if n <= 0 {
        start
    } else {
        text_number(s, n - 1, start).wrapping_mul(1_099_511_628_211).wrapping_add(
            s[n - 1] as u64,
        )
    }
}

/// A number for the first `n` components of a path.
pub open spec fn parts_number(parts: Seq<Seq<char>>, n: int, start: u64) -> u64
    decreases n,
{
    if n <= 0 {
        start
    } else {
        let part = parts[n - 1];
        text_number(part, part.len() as int, parts_number(parts, n - 1, start)).wrapping_mul(31)
    }
}

/// A number by which equal paths are found together.
#[verifier::opaque]
pub open spec fn path_number(p: PathView) -> u64 {
    parts_number(
        p.parts,
        p.parts.len() as int,
        text_number(p.root, p.root.len() as int, 14_695_981_039_346_656_037),
    )
}

fn number_of_text(s: &str, start: u64) -> (h: u64)
    ensures
        h == text_number(s@, s@.len() as int, start),
{
    let v = text::chars_of(s);
    let mut h: u64 = start;
    let mut i: usize = 0;
    while i < v.len()
        invariant
            v@ == s@,
            i <= v@.len(),
            h == text_number(s@, i as int, start),
        decreases v@.len() - i,
    {
        h = h.wrapping_mul(1_099_511_628_211).wrapping_add(v[i] as u64);
        i = i + 1;
    }
    h
}

fn number_of_path(p: &FilePath) -> (h: u64)
    ensures
        h == path_number(p@),
{
    proof {
        reveal(path_number);
    }
    let start: u64 = number_of_text(p.root.as_str(), 14_695_981_039_346_656_037);
    let mut h: u64 = start;
    let mut i: usize = 0;
    while i < p.parts.len()
        invariant
            i <= p.parts@.len(),
            h == parts_number(p@.parts, i as int, start),
        decreases p.parts@.len() - i,
    {
        proof {
            assert(p@.parts[i as int] == p.parts@[i as int]@);
        }
        h = number_of_text(p.parts[i].as_str(), h).wrapping_mul(31);
        i = i + 1;
    }
    h
}

/// Paths, each at a position of its own, in the order in which they came.
#[derive(Debug)]
pub struct PathIndex {
    buckets: HashMap<u64, Vec<usize>>,
    paths: Vec<FilePath>,
}

impl View for PathIndex {
    type V = Seq<PathView>;

    closed spec fn view(&self) -> Seq<PathView> {
        self.paths@.map_values(|p: FilePath| p@)
    }
}

impl PathIndex {
    /// No path is listed twice, and each is found by its number.
    pub closed spec fn wf(self) -> bool {
        &&& self@.no_duplicates()
        &&& forall|i: int|
            0 <= i < self@.len() ==> self.buckets@.dom().contains(
                path_number(#[trigger] self@[i]),
            ) && self.buckets@[path_number(self@[i])]@.contains(i as usize)
        &&& forall|h: u64, x: int|
            #![trigger self.buckets@[h]@[x]]
            self.buckets@.dom().contains(h) && 0 <= x < self.buckets@[h]@.len()
                ==> self.buckets@[h]@[x] < self@.len()
    }

    pub fn new() -> (r: PathIndex)
        ensures
            r.wf(),
            r@ == Seq::<PathView>::empty(),
    {
        let r = PathIndex { buckets: HashMap::new(), paths: Vec::new() };
        proof {
            assert(r@ =~= Seq::<PathView>::empty());
        }
        r
    }

    /// No path is listed twice.
    pub proof fn lemma_unique(self)
        requires
            self.wf(),
        ensures
            self@.no_duplicates(),
    {
    }

    pub fn len(&self) -> (n: usize)
        ensures
            n == self@.len(),
    {
        self.paths.len()
    }

    /// The path at a position.
    pub fn get(&self, i: usize) -> (p: &FilePath)
        requires
            i < self@.len(),
        ensures
            p@ == self@[i as int],
    {
        &self.paths[i]
    }

    /// The position of a path.
    pub fn find(&self, p: &FilePath) -> (r: Option<usize>)
        requires
            self.wf(),
        ensures
            r is Some ==> r->0 < self@.len() && self@[r->0 as int] == p@,
            r is None ==> !self@.contains(p@),
    {
        let h: u64 = number_of_path(p);
        match self.buckets.get(&h) {
            Some(bucket) => {
                let mut x: usize = 0;
                while x < bucket.len()
                    invariant
                        self.wf(),
                        h == path_number(p@),
                        self.buckets@.dom().contains(h),
                        *bucket == self.buckets@[h],
                        x <= bucket@.len(),
                        forall|y: int| 0 <= y < x ==> self@[#[trigger] bucket@[y] as int] != p@,
                    decreases bucket@.len() - x,
                {
                    let i: usize = bucket[x];
                    proof {
                        assert(self.buckets@[h]@[x as int] < self@.len());
                        assert(self@[i as int] == self.paths@[i as int]@);
                    }
                    if self.paths[i].same(p) {
                        return Some(i);
                    }
                    x = x + 1;
                }
                proof {
                    if self@.contains(p@) {
                        let i = choose|i: int| 0 <= i < self@.len() && self@[i] == p@;
                        assert(i < self.paths.len());
                        assert(bucket@.contains(i as usize));
                        let y = choose|y: int| 0 <= y < bucket@.len() && bucket@[y] == i as usize;
                        assert(self@[bucket@[y] as int] != p@);
                    }
                }
                None
            },
            None => {
                proof {
                    if self@.contains(p@) {
                        let i = choose|i: int| 0 <= i < self@.len() && self@[i] == p@;
                        assert(self.buckets@.dom().contains(path_number(self@[i])));
                    }
                }
                None
            },
        }
    }

    /// The position of a path, which is added when it is new.
    pub fn insert(&mut self, p: FilePath) -> (i: usize)
        requires
            old(self).wf(),
        ensures
            final(self).wf(),
            old(self)@.contains(p@) ==> final(self)@ == old(self)@ && i < old(self)@.len() && old(self)@[i as int] == p@,
            !old(self)@.contains(p@) ==> final(self)@ == old(self)@.push(p@) && i
                == old(self)@.len(),
    {
        match self.find(&p) {
            Some(i) => {
                proof {
                    assert(self@.contains(p@));
                }
                return i;
            },
            None => {},
        }
        let ghost before = *self;
        let n: usize = self.paths.len();
        let h: u64 = number_of_path(&p);
        let mut bucket: Vec<usize> = match self.buckets.remove(&h) {
            Some(b) => b,
            None => Vec::new(),
        };
        let ghost old_bucket = bucket@;
        bucket.push(n);
        self.buckets.insert(h, bucket);
        self.paths.push(p);
        proof {
            assert(self@ =~= before@.push(p@));
            let after = self.buckets@;
            assert(after[h]@ == old_bucket.push(n));
            assert forall|i: int| 0 <= i < self@.len() implies after.dom().contains(
                path_number(#[trigger] self@[i]),
            ) && after[path_number(self@[i])]@.contains(i as usize) by {
                if i < n {
                    assert(self@[i] == before@[i]);
                    let k = path_number(before@[i]);
                    assert(before.buckets@.dom().contains(k));
                    assert(before.buckets@[k]@.contains(i as usize));
                    if k == h {
                        let y = choose|y: int|
                            0 <= y < old_bucket.len() && old_bucket[y] == i as usize;
                        assert(after[h]@[y] == i as usize);
                    }
                } else {
                    assert(after[h]@[old_bucket.len() as int] == n);
                }
            }
            assert forall|k: u64, x: int|
                #![trigger after[k]@[x]]
                after.dom().contains(k) && 0 <= x < after[k]@.len() implies after[k]@[x]
                < self@.len() by {
                if k == h {
                    if x < old_bucket.len() {
                        assert(after[k]@[x] == old_bucket[x]);
                        assert(before.buckets@[h]@[x] < before@.len());
                    }
                } else {
                    assert(before.buckets@[k]@[x] < before@.len());
                }
            }
        }
        n
    }
}

/// A path that was put in is found, at the position that was given for it; the
/// others keep theirs.
pub proof fn law_what_was_put_in_is_found(
    index: &mut PathIndex,
    p: FilePath,
    i: usize,
    later: &PathIndex,
    q: &FilePath,
    found: Option<usize>,
    k: int,
)
    requires
        index.wf(),
        call_ensures(PathIndex::insert, (index, p), i),
        *later == *final(index),
        q@ == p@,
        call_ensures(PathIndex::find, (later, q), found),
    ensures
        found == Some(i),
        i < final(index)@.len() && final(index)@[i as int] == p@,
        0 <= k < old(index)@.len() ==> final(index)@[k] == old(index)@[k],
{
    final(index).lemma_unique();
    let v = final(index)@;
    assert(v[i as int] == p@);
    assert(v.contains(p@));
    if found is Some && found->0 != i {
        assert(v[found->0 as int] == v[i as int]);
    }
}

} // verus!
