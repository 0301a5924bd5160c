//! Sizes as people read them, and a short log of recent lines.

use std::collections::vec_deque::Iter;
use std::collections::VecDeque;

use vstd::prelude::*;

use crate::text;

verus! {

/// `n / d` rounded to the nearest integer; a tie goes to the even one.
pub open spec fn round_half_even(n: nat, d: nat) -> nat {
    let q = n / d;
    let r = n % d;
    if 2 * r < d || (2 * r == d && q % 2 == 0) {
        q
    } else {
        q + 1
    }
}

/// The step between numbers with 53 significant bits around `n`.
pub open spec fn precision_step(n: nat) -> nat
    decreases n,
{
    if n < 0x20_0000_0000_0000 {
        1
    } else {
        2 * precision_step(n / 2)
    }
}

/// `n` rounded to 53 significant bits.
pub open spec fn rounded(n: nat) -> nat {
    round_half_even(n, precision_step(n)) * precision_step(n)
}

/// 1024 raised to the power of `unit`.
pub open spec fn unit_size(unit: nat) -> nat
    decreases unit,
{
    if unit == 0 {
        1
    } else {
        1024 * unit_size((unit - 1) as nat)
    }
}

/// The unit from `unit` on in which a size is shown: the first in which it is
/// below 1024, and petabytes at the latest.
pub open spec fn unit_for(size: nat, unit: nat) -> nat
    decreases 5 - unit,
{
    if unit < 5 && size >= 1024 * unit_size(unit) {
        unit_for(size, unit + 1)
    } else {
        unit
    }
}

pub open spec fn unit_name(unit: nat) -> Seq<char> {
    if unit == 0 {
        "B"@
    } else if unit == 1 {
        "KB"@
    } else if unit == 2 {
        "MB"@
    } else if unit == 3 {
        "GB"@
    } else if unit == 4 {
        "TB"@
    } else {
        "PB"@
    }
}

/// A size as people read it: bytes in full, larger units with one decimal.
pub open spec fn readable(bytes: u64) -> Seq<char> {
    let size = rounded(bytes as nat);
    let unit = unit_for(size, 0);
    if unit == 0 {
        text::dec(bytes as nat) + " "@ + unit_name(0)
    } else {
        let tenths = round_half_even(size * 10, unit_size(unit));
        text::dec(tenths / 10) + "."@ + text::dec(tenths % 10) + " "@ + unit_name(unit)
    }
}

fn divide_half_even(n: u128, d: u128) -> (r: u128)
    requires
        0 < d < 0x1_0000_0000_0000_0000,
        n < 0x1_0000_0000_0000_0000_0000,
    ensures
        r == round_half_even(n as nat, d as nat),
{
    let q: u128 = n / d;
    let rest: u128 = n % d;
    if 2 * rest < d || (2 * rest == d && q % 2 == 0) {
        q
    } else {
        proof {
            assert(q <= n) by (nonlinear_arith)
                requires
                    q == n / d,
                    d > 0,
            ;
        }
        q + 1
    }
}

fn step_of(n: u64) -> (s: u64)
    ensures
        s == precision_step(n as nat),
        1 <= s <= 2048,
        n < 0x20_0000_0000_0000 * s,
    decreases n,
{
    if n < 0x20_0000_0000_0000 {
        return 1;
    }
    let half: u64 = n / 2;
    let s: u64 = step_of(half);
    proof {
        lemma_step_bound(n);
    }
    2 * s
}

proof fn lemma_step_bound(n: u64)
    ensures
        precision_step(n as nat) <= 2048,
{
    reveal_with_fuel(precision_step, 13);
}

fn round_to_precision(n: u64) -> (r: u128)
    ensures
        r == rounded(n as nat),
        r <= 0x1_0000_0000_0000_0000,
{
    let s: u64 = step_of(n);
    let q: u128 = divide_half_even(n as u128, s as u128);
    proof {
        let m = n as int;
        let d = s as int;
        let a = m / d;
        assert(a * d <= m < (a + 1) * d) by (nonlinear_arith)
            requires
                a == m / d,
                d > 0,
        ;
        assert(a < 0x20_0000_0000_0000) by (nonlinear_arith)
            requires
                a * d <= m,
                m < 0x20_0000_0000_0000 * d,
                d > 0,
        ;
        assert(q <= a + 1);
        assert(q * s <= 0x20_0000_0000_0000 * 2048) by (nonlinear_arith)
            requires
                q <= 0x20_0000_0000_0000,
                s <= 2048,
                0 <= q,
                0 <= s,
        ;
    }
    q * s as u128
}

proof fn lemma_unit_sizes()
    ensures
        unit_size(0) == 1,
        unit_size(1) == 0x400,
        unit_size(2) == 0x10_0000,
        unit_size(3) == 0x4000_0000,
        unit_size(4) == 0x100_0000_0000,
        unit_size(5) == 0x4_0000_0000_0000,
{
    reveal_with_fuel(unit_size, 6);
}

/// A size as people read it.
pub fn human_bytes(bytes: u64) -> (r: String)
    ensures
        r@ == readable(bytes),
{
    let size: u128 = round_to_precision(bytes);
    proof {
        lemma_unit_sizes();
        reveal_with_fuel(unit_for, 7);
    }
    let (unit, scale, name): (u8, u128, &str) = if size < 0x400 {
        (0, 1, "B")
    } else if size < 0x10_0000 {
        (1, 0x400, "KB")
    } else if size < 0x4000_0000 {
        (2, 0x10_0000, "MB")
    } else if size < 0x100_0000_0000 {
        (3, 0x4000_0000, "GB")
    } else if size < 0x4_0000_0000_0000 {
        (4, 0x100_0000_0000, "TB")
    } else {
        (5, 0x4_0000_0000_0000, "PB")
    };
    proof {
        assert(unit_for(size as nat, 0) == unit);
        assert(unit_size(unit as nat) == scale);
        assert(unit_name(unit as nat) == name@);
    }
    if unit == 0 {
        let mut r = text::decimal(bytes);
        r.append(" ");
        r.append("B");
        return r;
    }
    let tenths: u128 = divide_half_even(size * 10, scale);
    proof {
        assert(tenths <= size * 10 + 1) by {
            let n = (size * 10) as int;
            let d = scale as int;
            assert(n / d <= n) by (nonlinear_arith)
                requires
                    n >= 0,
                    d >= 1,
            ;
        }
        assert(tenths <= 0x1_0000_0000_0000_0000) by {
            let n = (size * 10) as int;
            let d = scale as int;
            assert(n / d <= n / 1024) by (nonlinear_arith)
                requires
                    n >= 0,
                    d >= 1024,
            ;
        }
    }
    let whole: u64 = (tenths / 10) as u64;
    let tenth: u64 = (tenths % 10) as u64;
    let mut r = text::decimal(whole);
    r.append(".");
    r.append(text::decimal(tenth).as_str());
    r.append(" ");
    r.append(name);
    r
}

/// A speed as people read it.
pub fn human_rate(bytes_per_sec: u64) -> (r: String)
    ensures
        r@ == readable(bytes_per_sec) + "/s"@,
{
    let mut r = human_bytes(bytes_per_sec);
    r.append("/s");
    r
}

/// Recent lines, newest first; the oldest go when there are too many.
#[derive(Debug)]
pub struct Log {
    lines: VecDeque<String>,
    cap: usize,
}

impl View for Log {
    type V = Seq<Seq<char>>;

    closed spec fn view(&self) -> Seq<Seq<char>> {
        text::views(self.lines@)
    }
}

/// A log after one more line.
pub open spec fn logged(lines: Seq<Seq<char>>, line: Seq<char>, cap: nat) -> Seq<Seq<char>> {
    let all = seq![line] + lines;
    if all.len() > cap {
        all.take(cap as int)
    } else {
        all
    }
}

impl Log {
    /// How many lines are kept.
    pub closed spec fn cap(self) -> nat {
        self.cap as nat
    }

    /// No more lines are held than are kept.
    pub closed spec fn wf(self) -> bool {
        self.lines@.len() <= self.cap
    }

    pub fn new(cap: usize) -> (r: Log)
        ensures
            r.wf(),
            r.cap() == cap,
            r@ == Seq::<Seq<char>>::empty(),
    {
        let r = Log { lines: VecDeque::new(), cap };
        proof {
            assert(r@ =~= Seq::<Seq<char>>::empty());
        }
        r
    }

    /// Puts a line in front.
    pub fn push(&mut self, line: String)
        requires
            old(self).wf(),
        ensures
            final(self).wf(),
            final(self).cap() == old(self).cap(),
            final(self)@ == logged(old(self)@, line@, old(self).cap()),
    {
        let ghost before = self.lines@;
        self.lines.push_front(line);
        proof {
            assert(self.lines@ =~= seq![line] + before);
            assert(text::views(self.lines@) =~= seq![line@] + text::views(before));
        }
        if self.lines.len() > self.cap {
            let ghost full = self.lines@;
            self.lines.pop_back();
            proof {
                assert(text::views(self.lines@) =~= text::views(full).take(full.len() - 1));
            }
        }
    }

    pub fn clear(&mut self)
        requires
            old(self).wf(),
        ensures
            final(self).wf(),
            final(self).cap() == old(self).cap(),
            final(self)@ == Seq::<Seq<char>>::empty(),
    {
        self.lines.clear();
        proof {
            assert(self@ =~= Seq::<Seq<char>>::empty());
        }
    }

    pub fn is_empty(&self) -> (r: bool)
        ensures
            r == (self@.len() == 0),
    {
        self.lines.len() == 0
    }

    /// The lines, newest first.
    pub fn iter(&self) -> (r: Iter<'_, String>)
        ensures
            vstd::std_specs::vecdeque::into_iter_elts(r).map_values(|s: &String| s@) == self@,
    {
        let r = self.lines.iter();
        proof {
            assert(vstd::std_specs::vecdeque::into_iter_elts(r).map_values(|s: &String| s@)
                =~= self@);
        }
        r
    }
}

impl Default for Log {
    /// A log that keeps 200 lines.
    fn default() -> (r: Log)
        ensures
            r.wf(),
            r.cap() == 200,
            r@ == Seq::<Seq<char>>::empty(),
    {
        Log::new(200)
    }
}

/// A size is shown in the unit it is at least one and less than 1024 of, to the
/// nearest tenth; the units are powers of 1024.
pub proof fn law_sizes_are_shown_to_a_tenth(
    bytes: u64,
    size: u64,
    unit: Seq<char>,
    r: String,
    rate: String,
)
    requires
        call_ensures(human_bytes, (bytes,), r),
        call_ensures(human_rate, (bytes,), rate),
        bytes < 0x20_0000_0000_0000,
        size <= bytes < 1024 * size,
        ({
            ||| size == 0x400 && unit == "KB"@
            ||| size == 0x10_0000 && unit == "MB"@
            ||| size == 0x4000_0000 && unit == "GB"@
            ||| size == 0x100_0000_0000 && unit == "TB"@
            ||| size == 0x4_0000_0000_0000 && unit == "PB"@
        }),
    ensures
        exists|t: nat|
            #![trigger text::dec(t / 10)]
            {
                &&& r@ == text::dec(t / 10) + "."@ + text::dec(t % 10) + " "@ + unit
                &&& 20 * bytes - size <= 2 * t * size <= 20 * bytes + size
            },
        rate@ == r@ + "/s"@,
{
    lemma_unit_sizes();
    let n = bytes as nat;
    assert(precision_step(n) == 1);
    assert(rounded(n) == n);
    reveal_with_fuel(unit_for, 7);
    let u = unit_for(n, 0);
    assert(unit_size(u) == size && unit_name(u) == unit);
    let t = round_half_even(n * 10, size as nat);
    assert(text::dec(t / 10) == text::dec(t / 10));
    if size == 0x400 {
    } else if size == 0x10_0000 {
    } else if size == 0x4000_0000 {
    } else if size == 0x100_0000_0000 {
    } else {
    }
    assert(20 * bytes - size <= 2 * t * size <= 20 * bytes + size);
}

/// Fewer than 1024 bytes are shown in full.
pub proof fn law_bytes_are_shown_in_full(bytes: u64, r: String)
    requires
        call_ensures(human_bytes, (bytes,), r),
        bytes < 1024,
    ensures
        r@ == text::dec(bytes as nat) + " "@ + "B"@,
{
    lemma_unit_sizes();
    assert(precision_step(bytes as nat) == 1);
    assert(rounded(bytes as nat) == bytes as nat);
}

/// A new line comes first and the others keep their order; the oldest goes
/// where there would be more than are kept.
pub proof fn law_newest_line_comes_first(log: &mut Log, line: String, u: ())
    requires
        log.wf(),
        log.cap() > 0,
        call_ensures(Log::push, (log, line), u),
    ensures
        final(log)@.len() > 0,
        final(log)@[0] == line@,
        forall|i: int|
            0 < i < final(log)@.len() ==> #[trigger] final(log)@[i] == old(log)@[i - 1],
        old(log)@.len() < old(log).cap() ==> final(log)@.len() == old(log)@.len() + 1,
        final(log)@.len() <= old(log).cap(),
        final(log)@.len() >= old(log)@.len(),
{
    assert(log@.len() == log.lines@.len());
}

} // verus!
