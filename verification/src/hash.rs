//! Streaming BLAKE3 hashing of file contents.

use vstd::prelude::*;

verus! {

/// The most bytes read from a file in one go.
pub const BUF_SIZE: usize = 1_048_576;

#[verifier::external_type_specification]
#[verifier::external_body]
pub struct ExHasher(blake3::Hasher);

/// The bytes that a hasher was given, in order.
pub uninterp spec fn absorbed(h: blake3::Hasher) -> Seq<u8>;

/// Whether a hasher computes the regular hash of a whole input: it has no key,
/// no context, and no offset in a larger input.
pub uninterp spec fn regular(h: blake3::Hasher) -> bool;

/// The most bytes that BLAKE3 hashes: their number fits in 64 bits.
pub const MAX_INPUT: u64 = 0xffff_ffff_ffff_ffff;

/// The BLAKE3 hash of a byte string.
pub uninterp spec fn digest(bytes: Seq<u8>) -> Seq<u8>;

/// `Hasher::new`: a hasher for the regular hash that was given nothing yet.
#[verifier::external_body]
fn hasher_new() -> (h: blake3::Hasher)
    ensures
        regular(h),
        absorbed(h) == Seq::<u8>::empty(),
{
    blake3::Hasher::new()
}

/// `Hasher::update`: gives more bytes to a regular hasher, after those it has.
/// A hasher with an offset takes only so many, and none takes more than the
/// hash is made for.
#[verifier::external_body]
fn hasher_update(h: &mut blake3::Hasher, bytes: &[u8])
    requires
        regular(*old(h)),
        absorbed(*old(h)).len() + bytes@.len() <= MAX_INPUT,
    ensures
        regular(*final(h)),
        absorbed(*final(h)) == absorbed(*old(h)) + bytes@,
{
    h.update(bytes);
}

/// `Hasher::finalize`: the hash of all bytes given to a regular hasher.
#[verifier::external_body]
fn hasher_finalize(h: &blake3::Hasher) -> (r: [u8; 32])
    requires
        regular(*h),
    ensures
        r@ == digest(absorbed(*h)),
{
    *h.finalize().as_bytes()
}

/// The hash of a file that is read piece by piece to its end.
pub struct FullHash {
    hasher: blake3::Hasher,
}

impl FullHash {
    pub closed spec fn wf(self) -> bool {
        regular(self.hasher)
    }

    /// The contents read so far.
    pub closed spec fn seen(self) -> Seq<u8> {
        absorbed(self.hasher)
    }

    pub fn new() -> (r: FullHash)
        ensures
            r.wf(),
            r.seen() == Seq::<u8>::empty(),
    {
        FullHash { hasher: hasher_new() }
    }

    /// Takes in the next piece of the file.
    pub fn absorb(&mut self, piece: &[u8])
        requires
            old(self).wf(),
            old(self).seen().len() + piece@.len() <= MAX_INPUT,
        ensures
            final(self).wf(),
            final(self).seen() == old(self).seen() + piece@,
    {
        hasher_update(&mut self.hasher, piece);
    }

    /// The hash of the contents read.
    pub fn finish(&self) -> (r: [u8; 32])
        requires
            self.wf(),
        ensures
            r@ == digest(self.seen()),
    {
        hasher_finalize(&self.hasher)
    }
}

/// The hash of the beginning of a file: at most a given number of bytes.
pub struct PartialHash {
    hasher: blake3::Hasher,
    remaining: usize,
    limit: usize,
}

impl PartialHash {
    pub closed spec fn wf(self) -> bool {
        &&& regular(self.hasher)
        &&& absorbed(self.hasher).len() + self.remaining == self.limit
    }

    pub closed spec fn seen(self) -> Seq<u8> {
        absorbed(self.hasher)
    }

    /// How many bytes count at most.
    pub closed spec fn limit(self) -> nat {
        self.limit as nat
    }

    pub fn new(bytes: usize) -> (r: PartialHash)
        ensures
            r.wf(),
            r.seen() == Seq::<u8>::empty(),
            r.limit() == bytes,
    {
        PartialHash { hasher: hasher_new(), remaining: bytes, limit: bytes }
    }

    /// How many bytes to read next at most; none when enough was read.
    pub fn want(&self) -> (n: usize)
        requires
            self.wf(),
        ensures
            n == (if self.limit() - self.seen().len() < BUF_SIZE {
                self.limit() - self.seen().len()
            } else {
                BUF_SIZE as int
            }),
    {
        if self.remaining < BUF_SIZE {
            self.remaining
        } else {
            BUF_SIZE
        }
    }

    /// Takes in the next piece of the file, no longer than was wanted.
    pub fn absorb(&mut self, piece: &[u8])
        requires
            old(self).wf(),
            old(self).seen().len() + piece@.len() <= old(self).limit(),
        ensures
            final(self).wf(),
            final(self).seen() == old(self).seen() + piece@,
            final(self).limit() == old(self).limit(),
    {
        hasher_update(&mut self.hasher, piece);
        self.remaining = self.remaining - piece.len();
    }

    /// The hash of what was read.
    pub fn finish(&self) -> (r: [u8; 32])
        requires
            self.wf(),
        ensures
            r@ == digest(self.seen()),
    {
        hasher_finalize(&self.hasher)
    }
}

/// The first `limit` bytes of a file, or all of it when it is shorter.
pub open spec fn beginning(content: Seq<u8>, limit: nat) -> Seq<u8> {
    if content.len() <= limit {
        content
    } else {
        content.take(limit as int)
    }
}

/// Reading a file from its start until the limit or its end is reached, in
/// pieces of any size, hashes exactly its beginning.
pub proof fn law_partial_hash(h: PartialHash, content: Seq<u8>)
    requires
        h.wf(),
        h.seen().len() <= content.len(),
        h.seen() == content.take(h.seen().len() as int),
        h.seen().len() == h.limit() || h.seen().len() == content.len(),
    ensures
        h.seen() == beginning(content, h.limit()),
{
    assert(content.take(content.len() as int) =~= content);
}

/// Whether two hashes are the same; two that could not be computed count as
/// the same.
pub fn same_hash(a: &Option<[u8; 32]>, b: &Option<[u8; 32]>) -> (r: bool)
    ensures
        r == (match (a, b) {
            (Some(x), Some(y)) => x@ == y@,
            (None, None) => true,
            _ => false,
        }),
{
    match (a, b) {
        (Some(x), Some(y)) => crate::bytes::same_bytes(x, y),
        (None, None) => true,
        _ => false,
    }
}

/// A hexadecimal digit in lower case.
pub open spec fn hex_digit(n: int) -> char {
    if n < 10 {
        (48 + n) as char
    } else {
        (87 + n) as char
    }
}

/// Each byte as two hexadecimal digits.
pub open spec fn hex(b: Seq<u8>) -> Seq<char>
    decreases b.len(),
{
    if b.len() == 0 {
        Seq::empty()
    } else {
        hex(b.drop_last()).push(hex_digit(b.last() as int / 16)).push(
            hex_digit(b.last() as int % 16),
        )
    }
}

fn hex_char(n: u8) -> (c: char)
    requires
        n < 16,
    ensures
        c == hex_digit(n as int),
{
    if n < 10 {
        (48 + n) as char
    } else {
        (87 + n) as char
    }
}

/// The bytes in hexadecimal notation.
pub fn to_hex(b: &[u8]) -> (s: String)
    ensures
        s@ == hex(b@),
{
    let mut s = String::new();
    let mut i: usize = 0;
    while i < b.len()
        invariant
            i <= b@.len(),
            s@ == hex(b@.take(i as int)),
        decreases b@.len() - i,
    {
        proof {
            let next = b@.take(i + 1);
            assert(next.drop_last() =~= b@.take(i as int));
            assert(next.last() == b@[i as int]);
        }
        s.push(hex_char(b[i] / 16));
        s.push(hex_char(b[i] % 16));
        i = i + 1;
    }
    proof {
        assert(b@.take(i as int) =~= b@);
    }
    s
}

proof fn lemma_hex(a: Seq<u8>, b: Seq<u8>)
    ensures
        hex(a).len() == 2 * a.len(),
        hex(a) == hex(b) ==> a == b,
    decreases a.len() + b.len(),
{
    lemma_hex_len(a);
    lemma_hex_len(b);
    if hex(a) == hex(b) && a.len() > 0 {
        let x = a.last() as int;
        let y = b.last() as int;
        let n = hex(a).len() as int;
        assert(hex(a)[n - 2] == hex_digit(x / 16) && hex(b)[n - 2] == hex_digit(y / 16));
        assert(hex(a)[n - 1] == hex_digit(x % 16) && hex(b)[n - 1] == hex_digit(y % 16));
        assert(x / 16 == y / 16 && x % 16 == y % 16);
        assert(hex(a).take(n - 2) =~= hex(a.drop_last()));
        assert(hex(b).take(n - 2) =~= hex(b.drop_last()));
        lemma_hex(a.drop_last(), b.drop_last());
        assert(a =~= a.drop_last().push(a.last()));
        assert(b =~= b.drop_last().push(b.last()));
    } else if hex(a) == hex(b) {
        assert(a =~= b);
    }
}

proof fn lemma_hex_len(a: Seq<u8>)
    ensures
        hex(a).len() == 2 * a.len(),
    decreases a.len(),
{
    if a.len() > 0 {
        lemma_hex_len(a.drop_last());
    }
}

/// Two byte strings have the same notation only when they are the same; it has
/// two digits for each byte.
pub proof fn law_notation_tells_bytes_apart(a: &[u8], b: &[u8], x: String, y: String)
    requires
        call_ensures(to_hex, (a,), x),
        call_ensures(to_hex, (b,), y),
    ensures
        x@.len() == 2 * a@.len(),
        x@ == y@ ==> a@ == b@,
        a@ == b@ ==> x@ == y@,
{
    lemma_hex(a@, b@);
}

/// The pieces of a file do not matter: what is hashed is all that was read, in
/// the order in which it was read, and nothing else.
pub proof fn law_hash_is_of_the_whole_content(
    fresh: FullHash,
    h: &mut FullHash,
    piece: &[u8],
    u: (),
    done: &FullHash,
    r: [u8; 32],
)
    requires
        call_ensures(FullHash::new, (), fresh),
        call_ensures(FullHash::absorb, (h, piece), u),
        call_ensures(FullHash::finish, (done,), r),
    ensures
        fresh.seen().len() == 0,
        final(h).seen() == old(h).seen() + piece@,
        r@ == digest(done.seen()),
{
}

/// The hash of a beginning is that of the first bytes and no more: as many are
/// wanted as are missing, and none when there are enough.
pub proof fn law_beginning_ends_at_its_length(h: &PartialHash, n: usize, r: [u8; 32])
    requires
        h.wf(),
        h.seen().len() <= h.limit(),
        call_ensures(PartialHash::want, (h,), n),
        call_ensures(PartialHash::finish, (h,), r),
    ensures
        h.seen().len() + n <= h.limit(),
        h.seen().len() < h.limit() ==> n > 0,
        r@ == digest(h.seen()),
{
}

/// Hashes that differ anywhere are different, and one that is missing equals
/// none.
pub proof fn law_hashes_are_compared_whole(a: &Option<[u8; 32]>, b: &Option<[u8; 32]>, r: bool, i: int)
    requires
        call_ensures(same_hash, (a, b), r),
        0 <= i < 32,
    ensures
        r && a is Some ==> b is Some && a->0@[i] == b->0@[i],
        a is Some && b is Some && a->0@ == b->0@ ==> r,
        a is Some != b is Some ==> !r,
{
}

} // verus!
