//! Byte strings: big-endian integers and UTF-8.

use vstd::prelude::*;
use vstd::slice::{slice_subrange, slice_to_vec};

verus! {

/// The number 256 raised to the `k`-th power.
pub open spec fn pow256(k: nat) -> nat
    decreases k,
{
    if k == 0 {
        1
    } else {
        256 * pow256((k - 1) as nat)
    }
}

/// The last `k` bytes of `n`, most significant first.
pub open spec fn be(n: nat, k: nat) -> Seq<u8>
    decreases k,
{
    if k == 0 {
        Seq::empty()
    } else {
        be(n / 256, (k - 1) as nat).push((n % 256) as u8)
    }
}

/// The number that the bytes stand for, most significant first.
pub open spec fn be_value(b: Seq<u8>) -> nat
    decreases b.len(),
{
    if b.len() == 0 {
        0
    } else {
        be_value(b.drop_last()) * 256 + b.last() as nat
    }
}

pub proof fn lemma_be_len(n: nat, k: nat)
    ensures
        be(n, k).len() == k,
    decreases k,
{
    if k > 0 {
        lemma_be_len(n / 256, (k - 1) as nat);
    }
}

/// A number that fits in `k` bytes is read back from its big-endian form.
pub proof fn law_be_round_trip(n: nat, k: nat)
    requires
        n < pow256(k),
    ensures
        be_value(be(n, k)) == n,
    decreases k,
{
    if k > 0 {
        law_be_round_trip(n / 256, (k - 1) as nat);
        let head = be(n / 256, (k - 1) as nat);
        assert(be(n, k).drop_last() =~= head);
        assert(be(n, k).last() == (n % 256) as u8);
    }
}

pub proof fn lemma_be_value_bound(b: Seq<u8>)
    ensures
        be_value(b) < pow256(b.len()),
    decreases b.len(),
{
    if b.len() > 0 {
        lemma_be_value_bound(b.drop_last());
    }
}

pub proof fn lemma_pow256_values()
    ensures
        pow256(2) == 0x1_0000,
        pow256(4) == 0x1_0000_0000,
        pow256(8) == 0x1_0000_0000_0000_0000,
{
    reveal_with_fuel(pow256, 9);
}

proof fn lemma_pow256_grows(a: nat, b: nat)
    requires
        a <= b,
    ensures
        1 <= pow256(a) <= pow256(b),
    decreases b,
{
    if a < b {
        lemma_pow256_grows(a, (b - 1) as nat);
    } else if b > 0 {
        lemma_pow256_grows((a - 1) as nat, (b - 1) as nat);
    }
}

/// Appends `more` to `buf`.
pub fn push_bytes(buf: &mut Vec<u8>, more: &[u8])
    ensures
        final(buf)@ == old(buf)@ + more@,
{
    let ghost start = buf@;
    let mut i: usize = 0;
    while i < more.len()
        invariant
            i <= more@.len(),
            buf@ == start + more@.take(i as int),
        decreases more@.len() - i,
    {
        buf.push(more[i]);
        i = i + 1;
        proof {
            assert(buf@ =~= start + more@.take(i as int));
        }
    }
    proof {
        assert(more@.take(i as int) =~= more@);
    }
}

/// Appends the last `k` bytes of `n` to `buf`, most significant first.
pub fn push_be(buf: &mut Vec<u8>, n: u64, k: usize)
    ensures
        final(buf)@ == old(buf)@ + be(n as nat, k as nat),
    decreases k,
{
    if k > 0 {
        push_be(buf, n / 256, k - 1);
        let low: u8 = (n % 256) as u8;
        let ghost head = buf@;
        buf.push(low);
        proof {
            assert(old(buf)@ + be(n as nat, k as nat) =~= head.push(low));
        }
    } else {
        proof {
            assert(old(buf)@ + be(n as nat, 0) =~= old(buf)@);
        }
    }
}

/// Reads the number in `b[at..at + k]`, most significant byte first.
pub fn read_be(b: &[u8], at: usize, k: usize) -> (n: u64)
    requires
        k <= 8,
        at + k <= b@.len(),
    ensures
        n == be_value(b@.subrange(at as int, at + k)),
        n < pow256(k as nat),
{
    let mut n: u64 = 0;
    let mut i: usize = 0;
    while i < k
        invariant
            i <= k <= 8,
            at + k <= b.len(),
            n == be_value(b@.subrange(at as int, at + i)),
        decreases k - i,
    {
        let ghost part = b@.subrange(at as int, at + i);
        proof {
            lemma_be_value_bound(part);
            lemma_pow256_grows(i as nat, 7);
            reveal_with_fuel(pow256, 8);
            let next = b@.subrange(at as int, at + i + 1);
            assert(next.drop_last() =~= part);
            assert(next.last() == b@[at + i]);
        }
        n = n * 256 + b[at + i] as u64;
        i = i + 1;
    }
    proof {
        lemma_be_value_bound(b@.subrange(at as int, at + k));
    }
    n
}

/// Whether two byte strings are the same.
pub fn same_bytes(a: &[u8], b: &[u8]) -> (r: bool)
    ensures
        r == (a@ == b@),
{
    if a.len() != b.len() {
        return false;
    }
    let mut i: usize = 0;
    while i < a.len()
        invariant
            i <= a@.len(),
            a@.len() == b@.len(),
            forall|j: int| 0 <= j < i ==> a@[j] == b@[j],
        decreases a@.len() - i,
    {
        if a[i] != b[i] {
            return false;
        }
        i = i + 1;
    }
    proof {
        assert(a@ =~= b@);
    }
    true
}

/// The bytes `b[from..to]`.
pub fn copy_range(b: &[u8], from: usize, to: usize) -> (r: Vec<u8>)
    requires
        from <= to <= b@.len(),
    ensures
        r@ == b@.subrange(from as int, to as int),
{
    slice_to_vec(slice_subrange(b, from, to))
}

/// What the standard library says of bytes that are not UTF-8.
pub uninterp spec fn utf8_error_text(bytes: Seq<u8>) -> Seq<char>;

/// `String::from_utf8`, with its error turned into text: succeeds exactly on
/// well-formed UTF-8 and then gives the characters that the bytes encode.
#[verifier::external_body]
pub(crate) fn utf8_to_string(bytes: Vec<u8>) -> (r: Result<String, String>)
    ensures
        r is Ok == vstd::utf8::valid_utf8(bytes@),
        r is Ok ==> r->Ok_0@ == vstd::utf8::decode_utf8(bytes@),
        r is Err ==> r->Err_0@ == utf8_error_text(bytes@),
{
    String::from_utf8(bytes).map_err(|e| e.to_string())
}

/// Numbers are written with the most significant byte first: in two bytes the
/// first counts 256 times, and in a longer form each byte before the last counts
/// 256 times what it counts in the form without the last one.
pub proof fn law_most_significant_byte_first(n: nat, k: nat)
    requires
        k > 0,
    ensures
        be(n, k).len() == k,
        be(n, k).last() == n % 256,
        be(n, k).drop_last() == be(n / 256, (k - 1) as nat),
        k == 2 && n < 0x1_0000 ==> be(n, k)[0] * 256 + be(n, k)[1] == n,
        k == 4 && n < 0x1_0000_0000 ==> be(n, k)[0] * 0x100_0000 + be(n, k)[1] * 0x1_0000
            + be(n, k)[2] * 256 + be(n, k)[3] == n,
{
    lemma_be_len(n, k);
    assert(be(n, k).drop_last() =~= be(n / 256, (k - 1) as nat));
    reveal_with_fuel(be, 5);
    if k == 4 {
        assert(be(n, 4)[3] == (n % 256) as u8);
        assert(be(n, 4)[2] == (n / 256 % 256) as u8);
        assert(be(n, 4)[1] == (n / 256 / 256 % 256) as u8);
        assert(be(n, 4)[0] == (n / 256 / 256 / 256 % 256) as u8);
    }
    if k == 2 {
        assert(be(n, 2)[1] == (n % 256) as u8);
        assert(be(n, 2)[0] == (n / 256 % 256) as u8);
    }
}

/// The eight bytes of a number, most significant first.
pub proof fn lemma_eight_bytes(n: u64)
    ensures
        be(n as nat, 8).len() == 8,
        be(n as nat, 8)[0] * 0x100_0000_0000_0000 + be(n as nat, 8)[1] * 0x1_0000_0000_0000 + be(
            n as nat,
            8,
        )[2] * 0x100_0000_0000 + be(n as nat, 8)[3] * 0x1_0000_0000 + be(n as nat, 8)[4]
            * 0x100_0000 + be(n as nat, 8)[5] * 0x1_0000 + be(n as nat, 8)[6] * 0x100 + be(
            n as nat,
            8,
        )[7] == n,
{
    let m = n as nat;
    lemma_be_len(m, 8);
    reveal_with_fuel(be, 9);
    let b = be(m, 8);
    assert(b[7] == (m % 256) as u8);
    assert(b[6] == (m / 256 % 256) as u8);
    assert(b[5] == (m / 256 / 256 % 256) as u8);
    assert(b[4] == (m / 256 / 256 / 256 % 256) as u8);
    assert(b[3] == (m / 256 / 256 / 256 / 256 % 256) as u8);
    assert(b[2] == (m / 256 / 256 / 256 / 256 / 256 % 256) as u8);
    assert(b[1] == (m / 256 / 256 / 256 / 256 / 256 / 256 % 256) as u8);
    assert(b[0] == (m / 256 / 256 / 256 / 256 / 256 / 256 / 256 % 256) as u8);
}

/// What is read from a buffer is what was written to it: the number stands at
/// the end of what was there, in as many bytes as were asked for.
pub proof fn law_written_numbers_are_read(
    buf: &mut Vec<u8>,
    n: u64,
    k: usize,
    u: (),
    b: &[u8],
    at: usize,
    r: u64,
)
    requires
        call_ensures(push_be, (buf, n, k), u),
        call_ensures(read_be, (b, at, k), r),
        k <= 8,
        n < pow256(k as nat),
        b@ == final(buf)@,
        at == buf@.len(),
    ensures
        final(buf)@.len() == old(buf)@.len() + k,
        final(buf)@.take(old(buf)@.len() as int) == old(buf)@,
        r == n,
{
    lemma_be_len(n as nat, k as nat);
    law_be_round_trip(n as nat, k as nat);
    assert(final(buf)@.take(buf@.len() as int) =~= buf@);
    assert(b@.subrange(at as int, at + k) =~= be(n as nat, k as nat));
}

} // verus!
