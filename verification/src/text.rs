//! Text as sequences of characters: building, searching and rewriting strings.

use vstd::prelude::*;

verus! {

/// `String::push`: appends one character to the end of the string.
pub assume_specification[ String::push ](s: &mut String, c: char)
    ensures
        final(s)@ == old(s)@.push(c),
;

/// The characters of each string, in order.
pub open spec fn views(v: Seq<String>) -> Seq<Seq<char>> {
    v.map_values(|s: String| s@)
}

pub broadcast proof fn views_push(v: Seq<String>, s: String)
    ensures
        #[trigger] views(v.push(s)) == views(v).push(s@),
{
    assert(views(v.push(s)) =~= views(v).push(s@));
}

/// The decimal digit for a value below ten.
pub open spec fn digit(d: nat) -> char {
    (48 + d) as char
}

/// The decimal notation of a number, without leading zeros.
pub open spec fn dec(n: nat) -> Seq<char>
    decreases n,
{
    if n < 10 {
        seq![digit(n)]
    } else {
        dec(n / 10).push(digit(n % 10))
    }
}

/// `n` copies of one character.
pub open spec fn repeat(c: char, n: nat) -> Seq<char> {
    Seq::new(n, |i: int| c)
}

/// Decimal notation padded on the left with zeros to at least `width` characters.
pub open spec fn dec_padded(n: nat, width: nat) -> Seq<char> {
    let d = dec(n);
    if d.len() >= width {
        d
    } else {
        repeat('0', (width - d.len()) as nat) + d
    }
}

/// Position of the first `c` at or after `from`; the length when there is none.
pub open spec fn find_from(s: Seq<char>, c: char, from: int) -> int
    decreases s.len() - from,
{
    if from >= s.len() {
        s.len() as int
    } else if s[from] == c {
        from
    } else {
        find_from(s, c, from + 1)
    }
}

/// Whether `pattern` stands in `s` at position `at`.
pub open spec fn stands_at(s: Seq<char>, pattern: Seq<char>, at: int) -> bool {
    &&& 0 <= at
    &&& at + pattern.len() <= s.len()
    &&& s.subrange(at, at + pattern.len()) == pattern
}

/// `s` from position `at` on, with every occurrence of `pattern` replaced,
/// taken from the left without overlap.
pub open spec fn replaced_from(s: Seq<char>, pattern: Seq<char>, with: Seq<char>, at: int) -> Seq<
    char,
>
    decreases s.len() - at,
{
    if at >= s.len() || pattern.len() == 0 {
        Seq::empty()
    } else if stands_at(s, pattern, at) {
        with + replaced_from(s, pattern, with, at + pattern.len())
    } else {
        seq![s[at]] + replaced_from(s, pattern, with, at + 1)
    }
}

/// Whether every character equals `c`.
pub open spec fn all_are(s: Seq<char>, c: char) -> bool {
    forall|i: int| 0 <= i < s.len() ==> s[i] == c
}

pub open spec fn starts_with(s: Seq<char>, prefix: Seq<char>) -> bool {
    prefix.len() <= s.len() && s.subrange(0, prefix.len() as int) == prefix
}

/// Whether `pattern` stands anywhere in `s`.
pub open spec fn contains(s: Seq<char>, pattern: Seq<char>) -> bool {
    exists|i: int| stands_at(s, pattern, i)
}

/// The pieces of `s` from position `at` on, cut at every `sep`.
pub open spec fn pieces_from(s: Seq<char>, sep: char, at: int) -> Seq<Seq<char>>
    decreases s.len() - at,
{
    let end = find_from(s, sep, at);
    if 0 <= at <= end < s.len() {
        seq![s.subrange(at, end)] + pieces_from(s, sep, end + 1)
    } else {
        seq![s.subrange(at, s.len() as int)]
    }
}

/// The pieces of `s` between occurrences of `sep`.
pub open spec fn pieces(s: Seq<char>, sep: char) -> Seq<Seq<char>> {
    pieces_from(s, sep, 0)
}

/// The pieces put back together with `sep` between them.
pub open spec fn joined(parts: Seq<Seq<char>>, sep: char) -> Seq<char>
    decreases parts.len(),
{
    if parts.len() == 0 {
        Seq::empty()
    } else if parts.len() == 1 {
        parts[0]
    } else {
        joined(parts.drop_last(), sep).push(sep) + parts.last()
    }
}

/// The characters of a string as a vector.
pub fn chars_of(s: &str) -> (v: Vec<char>)
    ensures
        v@ == s@,
{
    let mut v: Vec<char> = Vec::new();
    for c in it: s.chars()
        invariant
            v@ == it.seq().take(it.index()),
            it.seq() == s@,
    {
        v.push(c);
    }
    proof {
        assert(s@.take(s@.len() as int) =~= s@);
    }
    v
}

/// Appends the characters `v[from..to]` to `out`.
pub fn push_range(out: &mut String, v: &Vec<char>, from: usize, to: usize)
    requires
        from <= to <= v@.len(),
    ensures
        final(out)@ == old(out)@ + v@.subrange(from as int, to as int),
{
    let ghost start = out@;
    let mut i: usize = from;
    while i < to
        invariant
            from <= i <= to <= v@.len(),
            out@ == start + v@.subrange(from as int, i as int),
        decreases to - i,
    {
        out.push(v[i]);
        i = i + 1;
        proof {
            assert(v@.subrange(from as int, i as int) =~= v@.subrange(
                from as int,
                i - 1,
            ).push(v@[i - 1]));
            assert(out@ =~= start + v@.subrange(from as int, i as int));
        }
    }
}

/// The string holding `v[from..to]`.
pub fn string_of_range(v: &Vec<char>, from: usize, to: usize) -> (s: String)
    requires
        from <= to <= v@.len(),
    ensures
        s@ == v@.subrange(from as int, to as int),
{
    let mut s = String::new();
    push_range(&mut s, v, from, to);
    proof {
        assert(s@ =~= v@.subrange(from as int, to as int));
    }
    s
}

pub fn string_of(v: &Vec<char>) -> (s: String)
    ensures
        s@ == v@,
{
    let s = string_of_range(v, 0, v.len());
    proof {
        assert(s@ =~= v@);
    }
    s
}

/// Whether two strings hold the same characters.
pub fn same_text(a: &str, b: &str) -> (r: bool)
    ensures
        r == (a@ == b@),
{
    let x = a.to_owned();
    let y = b.to_owned();
    x == y
}

fn digit_char(d: u64) -> (c: char)
    requires
        d < 10,
    ensures
        c == digit(d as nat),
{
    let b: u8 = 48u8 + d as u8;
    b as char
}

/// The decimal notation of `n`.
pub fn decimal(n: u64) -> (s: String)
    ensures
        s@ == dec(n as nat),
    decreases n,
{
    if n < 10 {
        let mut s = String::new();
        s.push(digit_char(n));
        proof {
            assert(s@ =~= seq![digit(n as nat)]);
        }
        s
    } else {
        let mut s = decimal(n / 10);
        s.push(digit_char(n % 10));
        s
    }
}

/// The decimal notation of `n`, padded on the left with zeros to `width`.
pub fn decimal_padded(n: u64, width: usize) -> (s: String)
    ensures
        s@ == dec_padded(n as nat, width as nat),
{
    let d = decimal(n);
    let len: usize = d.as_str().unicode_len();
    if len >= width {
        d
    } else {
        let mut s = String::new();
        let mut i: usize = 0;
        while i < width - len
            invariant
                i <= width - len,
                len < width,
                s@ == repeat('0', i as nat),
            decreases width - len - i,
        {
            s.push('0');
            i = i + 1;
            proof {
                assert(s@ =~= repeat('0', i as nat));
            }
        }
        s.append(d.as_str());
        s
    }
}

/// Position of the first `c` at or after `from`; the length when there is none.
pub fn find_char(v: &Vec<char>, c: char, from: usize) -> (i: usize)
    requires
        from <= v@.len(),
    ensures
        i == find_from(v@, c, from as int),
        from <= i <= v@.len(),
        i < v@.len() ==> v@[i as int] == c,
        forall|j: int| from <= j < i ==> v@[j] != c,
{
    let mut i: usize = from;
    while i < v.len() && v[i] != c
        invariant
            from <= i <= v@.len(),
            find_from(v@, c, from as int) == find_from(v@, c, i as int),
            forall|j: int| from <= j < i ==> v@[j] != c,
        decreases v@.len() - i,
    {
        i = i + 1;
    }
    i
}

/// Whether `pattern` stands in `v` at position `at`.
pub fn pattern_at(v: &Vec<char>, pattern: &Vec<char>, at: usize) -> (r: bool)
    ensures
        r == stands_at(v@, pattern@, at as int),
{
    if at > v.len() || pattern.len() > v.len() - at {
        return false;
    }
    let mut i: usize = 0;
    while i < pattern.len()
        invariant
            at <= v@.len(),
            at + pattern@.len() <= v.len(),
            i <= pattern@.len(),
            forall|j: int| 0 <= j < i ==> v@[at + j] == pattern@[j],
        decreases pattern@.len() - i,
    {
        if v[at + i] != pattern[i] {
            proof {
                let sub = v@.subrange(at as int, at + pattern@.len());
                assert(sub[i as int] != pattern@[i as int]);
            }
            return false;
        }
        i = i + 1;
    }
    proof {
        assert(v@.subrange(at as int, at + pattern@.len()) =~= pattern@);
    }
    true
}

/// `v` with every occurrence of `pattern` replaced, taken from the left.
pub fn replace_all(v: &Vec<char>, pattern: &Vec<char>, with: &Vec<char>) -> (out: Vec<char>)
    requires
        pattern@.len() > 0,
    ensures
        out@ == replaced_from(v@, pattern@, with@, 0),
{
    let mut out: Vec<char> = Vec::new();
    let mut at: usize = 0;
    while at < v.len()
        invariant
            pattern@.len() > 0,
            at <= v@.len(),
            out@ + replaced_from(v@, pattern@, with@, at as int) == replaced_from(
                v@,
                pattern@,
                with@,
                0,
            ),
        decreases v@.len() - at,
    {
        let ghost before = out@;
        let ghost here = at as int;
        if pattern_at(v, pattern, at) {
            push_chars(&mut out, with);
            at = at + pattern.len();
            proof {
                assert(before + replaced_from(v@, pattern@, with@, here) =~= out@ + replaced_from(
                    v@,
                    pattern@,
                    with@,
                    at as int,
                ));
            }
        } else {
            out.push(v[at]);
            at = at + 1;
            proof {
                assert(before + replaced_from(v@, pattern@, with@, here) =~= out@ + replaced_from(
                    v@,
                    pattern@,
                    with@,
                    at as int,
                ));
            }
        }
    }
    proof {
        assert(out@ + Seq::<char>::empty() =~= out@);
    }
    out
}

/// Cuts `s` at every `sep`.
pub fn split(s: &str, sep: char) -> (parts: Vec<String>)
    ensures
        views(parts@) == pieces(s@, sep),
{
    let v = chars_of(s);
    let mut parts: Vec<String> = Vec::new();
    let mut at: usize = 0;
    loop
        invariant
            v@ == s@,
            at <= v@.len(),
            views(parts@) + pieces_from(s@, sep, at as int) == pieces(s@, sep),
        decreases v@.len() - at,
    {
        let end: usize = find_char(&v, sep, at);
        let ghost before = views(parts@);
        let piece = string_of_range(&v, at, end);
        parts.push(piece);
        proof {
            assert(views(parts@) =~= before.push(piece@));
        }
        if end >= v.len() {
            proof {
                assert(views(parts@) =~= pieces(s@, sep));
            }
            return parts;
        }
        proof {
            assert(before + pieces_from(s@, sep, at as int) =~= views(parts@) + pieces_from(
                s@,
                sep,
                end + 1,
            ));
        }
        at = end + 1;
    }
}

/// Puts the parts together with `sep` between them.
pub fn join(parts: &Vec<String>, sep: char) -> (s: String)
    ensures
        s@ == joined(views(parts@), sep),
{
    let mut s = String::new();
    let mut i: usize = 0;
    while i < parts.len()
        invariant
            i <= parts@.len(),
            s@ == joined(views(parts@).take(i as int), sep),
        decreases parts@.len() - i,
    {
        let ghost done = views(parts@).take(i as int);
        if i > 0 {
            s.push(sep);
        }
        s.append(parts[i].as_str());
        proof {
            let next = views(parts@).take(i + 1);
            assert(next.drop_last() =~= done);
            assert(next.last() == parts@[i as int]@);
            if i == 0 {
                assert(s@ =~= parts@[0]@);
            }
        }
        i = i + 1;
    }
    proof {
        assert(views(parts@).take(i as int) =~= views(parts@));
    }
    s
}

/// Copies a list of strings.
pub fn clone_strings(v: &Vec<String>) -> (r: Vec<String>)
    ensures
        r@ == v@,
{
    let mut r: Vec<String> = Vec::new();
    let mut i: usize = 0;
    while i < v.len()
        invariant
            i <= v@.len(),
            r@ == v@.take(i as int),
        decreases v@.len() - i,
    {
        r.push(v[i].clone());
        i = i + 1;
        proof {
            assert(r@ =~= v@.take(i as int));
        }
    }
    proof {
        assert(v@.take(i as int) =~= v@);
    }
    r
}

/// Whether two lists of strings hold the same texts in the same order.
pub fn same_strings(a: &Vec<String>, b: &Vec<String>) -> (r: bool)
    ensures
        r == (views(a@) == views(b@)),
{
    if a.len() != b.len() {
        proof {
            assert(views(a@).len() != views(b@).len());
        }
        return false;
    }
    let mut i: usize = 0;
    while i < a.len()
        invariant
            i <= a@.len(),
            a@.len() == b@.len(),
            forall|j: int| 0 <= j < i ==> a@[j]@ == b@[j]@,
        decreases a@.len() - i,
    {
        if a[i] != b[i] {
            proof {
                assert(views(a@)[i as int] != views(b@)[i as int]);
            }
            return false;
        }
        i = i + 1;
    }
    proof {
        assert(views(a@) =~= views(b@));
    }
    true
}

/// Appends all of `more` to `out`.
pub fn push_chars(out: &mut Vec<char>, more: &Vec<char>)
    ensures
        final(out)@ == old(out)@ + more@,
{
    let ghost start = out@;
    let mut i: usize = 0;
    while i < more.len()
        invariant
            i <= more@.len(),
            out@ == start + more@.take(i as int),
        decreases more@.len() - i,
    {
        out.push(more[i]);
        i = i + 1;
        proof {
            assert(out@ =~= start + more@.take(i as int));
        }
    }
    proof {
        assert(more@.take(more@.len() as int) =~= more@);
    }
}

/// The characters of each string literal, in order.
pub open spec fn literals(v: Seq<&str>) -> Seq<Seq<char>> {
    v.map_values(|s: &str| s@)
}

/// Whether `s` is one of the texts listed.
pub fn one_of(s: &str, list: &[&str]) -> (r: bool)
    ensures
        r == literals(list@).contains(s@),
{
    let mut i: usize = 0;
    while i < list.len()
        invariant
            i <= list@.len(),
            forall|j: int| 0 <= j < i ==> (#[trigger] list@[j])@ != s@,
        decreases list@.len() - i,
    {
        if same_text(s, list[i]) {
            proof {
                assert(literals(list@)[i as int] == s@);
            }
            return true;
        }
        i = i + 1;
    }
    proof {
        if literals(list@).contains(s@) {
            let j = choose|j: int| 0 <= j < list@.len() && literals(list@)[j] == s@;
            assert(list@[j]@ == s@);
        }
    }
    false
}

/// The Unicode lower-case form of a text.
pub uninterp spec fn lowercase(s: Seq<char>) -> Seq<char>;

/// `str::to_lowercase`: the text with every character in lower case, by the
/// Unicode rules. Nothing becomes nothing.
#[verifier::external_body]
pub(crate) fn to_lower(s: &str) -> (r: String)
    ensures
        r@ == lowercase(s@),
        s@.len() == 0 ==> r@.len() == 0,
{
    s.to_lowercase()
}

/// Whether a character is white space: one of the 25 that have the Unicode
/// property `White_Space`.
pub open spec fn is_white(c: char) -> bool {
    let n = c as u32;
    ||| 0x0009 <= n <= 0x000D
    ||| n == 0x0020
    ||| n == 0x0085
    ||| n == 0x00A0
    ||| n == 0x1680
    ||| 0x2000 <= n <= 0x200A
    ||| 0x2028 <= n <= 0x2029
    ||| n == 0x202F
    ||| n == 0x205F
    ||| n == 0x3000
}

/// `char::is_whitespace`: whether a character has the Unicode property
/// `White_Space`.
#[verifier::external_body]
pub(crate) fn white(c: char) -> (r: bool)
    ensures
        r == is_white(c),
{
    c.is_whitespace()
}

/// Position of the first character at or after `at` that is not white space.
pub open spec fn skip_white(s: Seq<char>, at: int) -> int
    decreases s.len() - at,
{
    if at < s.len() && is_white(s[at]) {
        skip_white(s, at + 1)
    } else {
        at
    }
}

/// End of the text before `end` without white space after it.
pub open spec fn drop_white(s: Seq<char>, end: int) -> int
    decreases end,
{
    if end > 0 && is_white(s[end - 1]) {
        drop_white(s, end - 1)
    } else {
        end
    }
}

/// The text without white space around it.
pub open spec fn trimmed(s: Seq<char>) -> Seq<char> {
    let from = skip_white(s, 0);
    if from >= s.len() {
        Seq::empty()
    } else {
        s.subrange(from, drop_white(s, s.len() as int))
    }
}

proof fn lemma_drop_white(s: Seq<char>, at: int, end: int)
    requires
        0 <= at < end <= s.len(),
        !is_white(s[at]),
    ensures
        at < drop_white(s, end) <= end,
    decreases end,
{
    if is_white(s[end - 1]) {
        lemma_drop_white(s, at, end - 1);
    }
}

/// The text without white space around it.
pub fn trim(s: &str) -> (r: String)
    ensures
        r@ == trimmed(s@),
{
    let v = chars_of(s);
    let mut from: usize = 0;
    while from < v.len() && white(v[from])
        invariant
            v@ == s@,
            from <= v@.len(),
            skip_white(s@, 0) == skip_white(s@, from as int),
        decreases v@.len() - from,
    {
        from = from + 1;
    }
    if from >= v.len() {
        return String::new();
    }
    let mut end: usize = v.len();
    proof {
        lemma_drop_white(s@, from as int, end as int);
    }
    while end > from && white(v[end - 1])
        invariant
            v@ == s@,
            from < end <= v@.len(),
            !is_white(s@[from as int]),
            drop_white(s@, s@.len() as int) == drop_white(s@, end as int),
        decreases end,
    {
        end = end - 1;
    }
    string_of_range(&v, from, end)
}

/// A letter from A to Z in lower case; any other character as it is.
pub open spec fn ascii_lower(c: char) -> char {
    if 'A' <= c <= 'Z' {
        (c as int + 32) as char
    } else {
        c
    }
}

/// Whether two texts are the same when A to Z count like a to z.
pub open spec fn same_ignoring_ascii_case(a: Seq<char>, b: Seq<char>) -> bool {
    a.map_values(|c: char| ascii_lower(c)) == b.map_values(|c: char| ascii_lower(c))
}

/// A letter from A to Z in lower case; any other character as it is.
pub fn lower_ascii(c: char) -> (r: char)
    ensures
        r == ascii_lower(c),
{
    if 'A' <= c && c <= 'Z' {
        let n: u8 = c as u8;
        (n + 32) as char
    } else {
        c
    }
}

/// Whether two texts are the same when A to Z count like a to z.
pub fn eq_ignore_ascii_case(a: &str, b: &str) -> (r: bool)
    ensures
        r == same_ignoring_ascii_case(a@, b@),
{
    let x = chars_of(a);
    let y = chars_of(b);
    let ghost la = a@.map_values(|c: char| ascii_lower(c));
    let ghost lb = b@.map_values(|c: char| ascii_lower(c));
    if x.len() != y.len() {
        proof {
            assert(la.len() != lb.len());
        }
        return false;
    }
    let mut i: usize = 0;
    while i < x.len()
        invariant
            x@ == a@,
            y@ == b@,
            x@.len() == y@.len(),
            i <= x@.len(),
            la == a@.map_values(|c: char| ascii_lower(c)),
            lb == b@.map_values(|c: char| ascii_lower(c)),
            forall|j: int| 0 <= j < i ==> la[j] == lb[j],
        decreases x@.len() - i,
    {
        let p = lower_ascii(x[i]);
        let q = lower_ascii(y[i]);
        proof {
            assert(la[i as int] == p);
            assert(lb[i as int] == q);
        }
        if p != q {
            return false;
        }
        i = i + 1;
    }
    proof {
        assert(la =~= lb);
    }
    true
}

/// Whether every character is a decimal digit.
pub open spec fn all_digits(s: Seq<char>) -> bool {
    forall|i: int| 0 <= i < s.len() ==> '0' <= #[trigger] s[i] <= '9'
}

/// The number that decimal digits stand for.
pub open spec fn dec_value(s: Seq<char>) -> nat
    decreases s.len(),
{
    if s.len() == 0 {
        0
    } else {
        (dec_value(s.drop_last()) * 10 + (s.last() as int - 48)) as nat
    }
}

/// The digits of an unsigned number: a plus sign in front does not count.
pub open spec fn unsigned_digits(s: Seq<char>) -> Seq<char> {
    if s.len() > 0 && s[0] == '+' {
        s.skip(1)
    } else {
        s
    }
}

/// The unsigned number that a text stands for, when it is one and not above
/// `max`: one or more decimal digits, with or without a plus sign in front.
pub open spec fn unsigned(s: Seq<char>, max: nat) -> Option<nat> {
    let d = unsigned_digits(s);
    if d.len() > 0 && all_digits(d) && dec_value(d) <= max {
        Some(dec_value(d))
    } else {
        None
    }
}

proof fn lemma_dec_value_grows(s: Seq<char>, n: int)
    requires
        0 <= n <= s.len(),
        all_digits(s),
    ensures
        dec_value(s.take(n)) <= dec_value(s),
    decreases s.len(),
{
    if n < s.len() {
        assert(s.drop_last().take(n) =~= s.take(n));
        assert(all_digits(s.drop_last())) by {
            assert forall|i: int| 0 <= i < s.drop_last().len() implies '0'
                <= #[trigger] s.drop_last()[i] <= '9' by {
                assert(s.drop_last()[i] == s[i]);
            }
        }
        lemma_dec_value_grows(s.drop_last(), n);
        assert('0' <= s[s.len() - 1]);
    } else {
        assert(s.take(n) =~= s);
    }
}

/// The decimal notation of a number stands for that number.
pub proof fn law_decimal_reads_back(n: nat)
    ensures
        dec(n).len() > 0,
        all_digits(dec(n)),
        dec_value(dec(n)) == n,
    decreases n,
{
    let d = dec(n);
    if n < 10 {
        assert(d.drop_last() =~= Seq::<char>::empty());
        assert(dec_value(d.drop_last()) == 0);
    } else {
        law_decimal_reads_back(n / 10);
        assert(d.drop_last() =~= dec(n / 10));
        assert(d.last() == digit(n % 10));
        assert forall|i: int| 0 <= i < d.len() implies '0' <= #[trigger] d[i] <= '9' by {
            if i < d.len() - 1 {
                assert(d[i] == dec(n / 10)[i]);
            }
        }
    }
}

/// Reads an unsigned number not above `max`.
pub fn parse_unsigned(s: &str, max: u64) -> (r: Option<u64>)
    ensures
        match unsigned(s@, max as nat) {
            Some(n) => r is Some && r->0 == n,
            None => r is None,
        },
{
    let v = chars_of(s);
    let len: usize = v.len();
    let from: usize = if len > 0 && v[0] == '+' {
        1
    } else {
        0
    };
    let ghost d = unsigned_digits(s@);
    proof {
        assert(d =~= s@.skip(from as int));
    }
    if from == len {
        return None;
    }
    let mut n: u64 = 0;
    let mut i: usize = from;
    while i < len
        invariant
            v@ == s@,
            from <= i <= len,
            from < len,
            len == v@.len(),
            d == s@.skip(from as int),
            d == unsigned_digits(s@),
            n == dec_value(d.take(i - from)),
            n <= max,
            forall|j: int| 0 <= j < i - from ==> '0' <= #[trigger] d[j] <= '9',
        decreases len - i,
    {
        let c = v[i];
        proof {
            assert(d[i - from] == c);
            assert(d.take(i + 1 - from).drop_last() =~= d.take(i - from));
            assert(d.take(i + 1 - from).last() == c);
        }
        if c < '0' || '9' < c {
            return None;
        }
        let digit: u64 = c as u64 - 48;
        let wide: u128 = n as u128 * 10 + digit as u128;
        if wide > max as u128 {
            proof {
                if all_digits(d) {
                    lemma_dec_value_grows(d, i + 1 - from);
                }
            }
            return None;
        }
        n = wide as u64;
        i = i + 1;
    }
    proof {
        assert(d.take(i - from) =~= d);
    }
    Some(n)
}

/// Bytes as text, with what is not UTF-8 replaced.
pub uninterp spec fn lossy_text(bytes: Seq<u8>) -> Seq<char>;

/// `String::from_utf8_lossy`: the bytes as text, with replacement characters
/// for what is not UTF-8.
#[verifier::external_body]
pub(crate) fn lossy(bytes: &[u8]) -> (r: String)
    ensures
        r@ == lossy_text(bytes@),
{
    String::from_utf8_lossy(bytes).into_owned()
}

/// The decimal notation of a number that may be negative.
pub open spec fn dec_signed(n: int) -> Seq<char> {
    if n >= 0 {
        dec(n as nat)
    } else {
        seq!['-'] + dec((-n) as nat)
    }
}

/// The decimal notation of a number that may be negative.
pub fn decimal_signed(n: i32) -> (s: String)
    ensures
        s@ == dec_signed(n as int),
{
    if n >= 0 {
        decimal(n as u64)
    } else {
        let back: i64 = -(n as i64);
        let mut s = String::new();
        s.push('-');
        s.append(decimal(back as u64).as_str());
        proof {
            assert(s@ =~= dec_signed(n as int));
        }
        s
    }
}

pub proof fn lemma_find_bounds(s: Seq<char>, c: char, at: int)
    requires
        0 <= at <= s.len(),
    ensures
        at <= find_from(s, c, at) <= s.len(),
    decreases s.len() - at,
{
    if at < s.len() && s[at] != c {
        lemma_find_bounds(s, c, at + 1);
    }
}

pub proof fn lemma_find_shift(s: Seq<char>, c: char, by: int, at: int)
    requires
        0 <= by,
        0 <= at,
        by + at <= s.len(),
    ensures
        find_from(s, c, by + at) == by + find_from(s.skip(by), c, at),
    decreases s.len() - at,
{
    if by + at < s.len() && s[by + at] != c {
        lemma_find_shift(s, c, by, at + 1);
    }
}

proof fn lemma_find_prefix(a: Seq<char>, b: Seq<char>, c: char, at: int)
    requires
        0 <= at <= a.len(),
    ensures
        find_from(a, c, at) < a.len() ==> find_from(a + b, c, at) == find_from(a, c, at),
    decreases a.len() - at,
{
    if at < a.len() && a[at] != c {
        lemma_find_prefix(a, b, c, at + 1);
    }
}

proof fn lemma_pieces_shift(s: Seq<char>, sep: char, by: int, at: int)
    requires
        0 <= by,
        0 <= at,
        by + at <= s.len(),
    ensures
        pieces_from(s, sep, by + at) == pieces_from(s.skip(by), sep, at),
    decreases s.len() - at,
{
    let t = s.skip(by);
    lemma_find_shift(s, sep, by, at);
    lemma_find_bounds(t, sep, at);
    let end = find_from(t, sep, at);
    if end < t.len() {
        assert(s.subrange(by + at, by + end) =~= t.subrange(at, end));
        lemma_pieces_shift(s, sep, by, end + 1);
    } else {
        assert(s.subrange(by + at, s.len() as int) =~= t.subrange(at, t.len() as int));
    }
}

/// Cutting a text into pieces can stop after a part of it and go on from the
/// last piece, which may still be incomplete.
pub proof fn lemma_pieces_resume(a: Seq<char>, b: Seq<char>, sep: char, at: int)
    requires
        0 <= at <= a.len(),
    ensures
        pieces_from(a, sep, at).len() > 0,
        pieces_from(a + b, sep, at) == pieces_from(a, sep, at).drop_last() + pieces(
            pieces_from(a, sep, at).last() + b,
            sep,
        ),
    decreases a.len() - at,
{
    lemma_find_bounds(a, sep, at);
    lemma_find_prefix(a, b, sep, at);
    let end = find_from(a, sep, at);
    let first = pieces_from(a, sep, at);
    if end < a.len() {
        lemma_pieces_resume(a, b, sep, end + 1);
        let rest = pieces_from(a, sep, end + 1);
        assert((a + b).subrange(at, end) =~= a.subrange(at, end));
        assert(first.last() == rest.last());
        assert(first.drop_last() =~= seq![a.subrange(at, end)] + rest.drop_last());
        assert(pieces_from(a + b, sep, at) =~= first.drop_last() + pieces(first.last() + b, sep));
    } else {
        lemma_pieces_shift(a + b, sep, at, 0);
        assert((a + b).skip(at) =~= a.subrange(at, a.len() as int) + b);
        assert(first.drop_last() =~= Seq::<Seq<char>>::empty());
        assert(pieces_from(a + b, sep, at) =~= first.drop_last() + pieces(first.last() + b, sep));
    }
}

pub proof fn lemma_find_none(s: Seq<char>, c: char, at: int)
    requires
        0 <= at <= s.len(),
        !s.contains(c),
    ensures
        find_from(s, c, at) == s.len(),
    decreases s.len() - at,
{
    if at < s.len() {
        assert(s.contains(s[at]));
        lemma_find_none(s, c, at + 1);
    }
}

/// A text without the separator is one piece.
pub proof fn lemma_one_piece(s: Seq<char>, sep: char)
    requires
        !s.contains(sep),
    ensures
        pieces(s, sep) == seq![s],
{
    lemma_find_none(s, sep, 0);
    assert(s.subrange(0, s.len() as int) =~= s);
}

/// A separator at the end adds an empty piece.
pub proof fn lemma_pieces_push(s: Seq<char>, sep: char)
    ensures
        pieces(s.push(sep), sep) == pieces(s, sep).push(Seq::empty()),
{
    let tail = seq![sep];
    assert(s.push(sep) =~= s + tail);
    lemma_pieces_resume(s, tail, sep, 0);
    let ps = pieces(s, sep);
    let last = ps.last();
    lemma_last_piece(s, sep, 0);
    lemma_find_none(last, sep, 0);
    let t = last + tail;
    lemma_find_end(last, sep, 0);
    assert(t.subrange(0, last.len() as int) =~= last);
    assert(t.subrange(t.len() as int, t.len() as int) =~= Seq::<char>::empty());
    assert(pieces_from(t, sep, t.len() as int) =~= seq![Seq::<char>::empty()]);
    assert(pieces(t, sep) =~= seq![last, Seq::<char>::empty()]);
    assert(ps.drop_last() + pieces(t, sep) =~= ps.push(Seq::empty()));
}

proof fn lemma_find_end(s: Seq<char>, sep: char, at: int)
    requires
        0 <= at <= s.len(),
        !s.contains(sep),
    ensures
        find_from(s + seq![sep], sep, at) == s.len(),
    decreases s.len() - at,
{
    if at < s.len() {
        assert(s.contains(s[at]));
        lemma_find_end(s, sep, at + 1);
    }
}

proof fn lemma_find_first(s: Seq<char>, c: char, at: int, i: int)
    requires
        0 <= at <= i < find_from(s, c, at),
    ensures
        i < s.len(),
        s[i] != c,
    decreases s.len() - at,
{
    if at < s.len() && s[at] != c && at < i {
        lemma_find_first(s, c, at + 1, i);
    } else {
        lemma_find_bounds(s, c, if at <= s.len() {
            at
        } else {
            s.len() as int
        });
    }
}

proof fn lemma_last_piece(s: Seq<char>, sep: char, at: int)
    requires
        0 <= at <= s.len(),
    ensures
        pieces_from(s, sep, at).len() > 0,
        !pieces_from(s, sep, at).last().contains(sep),
    decreases s.len() - at,
{
    let end = find_from(s, sep, at);
    lemma_find_bounds(s, sep, at);
    if end < s.len() {
        lemma_last_piece(s, sep, end + 1);
        let rest = pieces_from(s, sep, end + 1);
        assert(pieces_from(s, sep, at).last() == rest.last());
    } else {
        let last = s.subrange(at, s.len() as int);
        if last.contains(sep) {
            let i = choose|i: int| 0 <= i < last.len() && last[i] == sep;
            lemma_find_first(s, sep, at, at + i);
        }
    }
}

/// Pieces put together with a separator come apart again, if none holds it.
pub proof fn law_split_undoes_join(parts: Seq<Seq<char>>, sep: char)
    requires
        parts.len() > 0,
        forall|i: int| 0 <= i < parts.len() ==> !(#[trigger] parts[i]).contains(sep),
    ensures
        pieces(joined(parts, sep), sep) == parts,
    decreases parts.len(),
{
    if parts.len() == 1 {
        lemma_one_piece(parts[0], sep);
        assert(parts =~= seq![parts[0]]);
    } else {
        let init = parts.drop_last();
        let last = parts.last();
        assert forall|i: int| 0 <= i < init.len() implies !(#[trigger] init[i]).contains(sep) by {
            assert(init[i] == parts[i]);
        }
        law_split_undoes_join(init, sep);
        let a = joined(init, sep).push(sep);
        lemma_pieces_push(joined(init, sep), sep);
        lemma_pieces_resume(a, last, sep, 0);
        let ps = pieces(a, sep);
        assert(ps.drop_last() =~= init);
        assert(ps.last() + last =~= last);
        lemma_one_piece(last, sep);
        assert(init + seq![last] =~= parts);
    }
}

/// What is in none of the pieces is not in the text they make.
pub proof fn lemma_joined_lacks(parts: Seq<Seq<char>>, sep: char, c: char)
    requires
        c != sep,
        forall|i: int| 0 <= i < parts.len() ==> !(#[trigger] parts[i]).contains(c),
    ensures
        !joined(parts, sep).contains(c),
    decreases parts.len(),
{
    if parts.len() > 1 {
        let init = parts.drop_last();
        assert forall|i: int| 0 <= i < init.len() implies !(#[trigger] init[i]).contains(c) by {
            assert(init[i] == parts[i]);
        }
        lemma_joined_lacks(init, sep, c);
        let front = joined(init, sep);
        let whole = joined(parts, sep);
        if whole.contains(c) {
            let i = choose|i: int| 0 <= i < whole.len() && whole[i] == c;
            if i < front.len() {
                assert(front[i] == c);
            } else if i > front.len() {
                assert(parts.last()[i - front.len() - 1] == c);
                assert(parts[parts.len() - 1].contains(c));
            }
        }
    } else if parts.len() == 1 {
        assert(!parts[0].contains(c));
    }
}

/// Whether `pattern` stands anywhere in `s`.
pub fn contains_text(s: &str, pattern: &str) -> (r: bool)
    ensures
        r == contains(s@, pattern@),
{
    let v = chars_of(s);
    let p = chars_of(pattern);
    let mut at: usize = 0;
    loop
        invariant
            v@ == s@,
            p@ == pattern@,
            at <= v@.len(),
            forall|i: int| i < at ==> !stands_at(s@, pattern@, i),
        decreases v@.len() - at,
    {
        if pattern_at(&v, &p, at) {
            return true;
        }
        if at == v.len() {
            return false;
        }
        at = at + 1;
    }
}

proof fn lemma_zeros_in_front(d: Seq<char>, k: nat)
    requires
        all_digits(d),
    ensures
        all_digits(repeat('0', k) + d),
        dec_value(repeat('0', k) + d) == dec_value(d),
    decreases d.len(), k,
{
    let s = repeat('0', k) + d;
    assert forall|i: int| 0 <= i < s.len() implies '0' <= #[trigger] s[i] <= '9' by {
        if i >= k {
            assert(s[i] == d[i - k]);
        }
    }
    if d.len() > 0 {
        assert(all_digits(d.drop_last())) by {
            assert forall|i: int| 0 <= i < d.drop_last().len() implies '0'
                <= #[trigger] d.drop_last()[i] <= '9' by {
                assert(d.drop_last()[i] == d[i]);
            }
        }
        lemma_zeros_in_front(d.drop_last(), k);
        assert(s.drop_last() =~= repeat('0', k) + d.drop_last());
        assert(s.last() == d.last());
    } else if k > 0 {
        lemma_zeros_in_front(d, (k - 1) as nat);
        assert(s.drop_last() =~= repeat('0', (k - 1) as nat) + d);
        assert(s.last() == '0');
    } else {
        assert(s =~= d);
    }
}

proof fn lemma_dec_head(n: nat)
    requires
        n > 0,
    ensures
        dec(n).len() > 0,
        dec(n)[0] != '0',
    decreases n,
{
    if n >= 10 {
        lemma_dec_head(n / 10);
    }
}

/// A padded number is that number, has as many digits as were asked for, and
/// has more only where it needs them.
pub proof fn law_padded_number(n: nat, width: nat)
    ensures
        all_digits(dec_padded(n, width)),
        dec_value(dec_padded(n, width)) == n,
        dec_padded(n, width).len() >= width,
        dec_padded(n, width).len() > width && n > 0 ==> dec_padded(n, width)[0] != '0',
        n == 0 && width > 0 ==> dec_padded(n, width).len() == width,
{
    law_decimal_reads_back(n);
    let d = dec(n);
    if d.len() < width {
        lemma_zeros_in_front(d, (width - d.len()) as nat);
    }
    if n > 0 {
        lemma_dec_head(n);
    }
}

/// A written number reads back as the same number, with and without zeros in
/// front of it.
pub proof fn law_written_numbers_read_back(
    n: u64,
    width: usize,
    plain: String,
    padded: String,
    one: &str,
    other: &str,
    a: Option<u64>,
    b: Option<u64>,
    max: u64,
)
    requires
        call_ensures(decimal, (n,), plain),
        call_ensures(decimal_padded, (n, width), padded),
        call_ensures(parse_unsigned, (one, max), a),
        call_ensures(parse_unsigned, (other, max), b),
        one@ == plain@,
        other@ == padded@,
        width > 0,
    ensures
        a == (if n <= max {
            Some(n)
        } else {
            None
        }),
        b == a,
        padded@.len() >= width,
{
    law_decimal_reads_back(n as nat);
    law_padded_number(n as nat, width as nat);
    assert('0' <= plain@[0] && '0' <= padded@[0]);
}

/// Text without white space around it is what is left of a text: nothing but
/// white space was taken away, and none is left at either end.
pub proof fn law_trim_takes_white_space_only(s: &str, r: String)
    requires
        call_ensures(trim, (s,), r),
    ensures
        r@.len() > 0 ==> !is_white(r@[0]) && !is_white(r@.last()),
        exists|a: int, b: int|
            0 <= a <= b <= s@.len() && r@ == #[trigger] s@.subrange(a, b) && (forall|i: int|
                0 <= i < a || b <= i < s@.len() ==> is_white(#[trigger] s@[i])),
{
    let a = skip_white(s@, 0);
    lemma_skip_white(s@, 0);
    let b = drop_white(s@, s@.len() as int);
    lemma_white_end(s@, s@.len() as int);
    if a < s@.len() {
        if b <= a {
            assert(is_white(s@[a]));
        }
        assert(r@ =~= s@.subrange(a, b));
    } else {
        assert(r@ =~= s@.subrange(s@.len() as int, s@.len() as int));
    }
}

proof fn lemma_skip_white(s: Seq<char>, at: int)
    requires
        0 <= at <= s.len(),
    ensures
        at <= skip_white(s, at) <= s.len(),
        forall|i: int| at <= i < skip_white(s, at) ==> is_white(#[trigger] s[i]),
        skip_white(s, at) < s.len() ==> !is_white(s[skip_white(s, at)]),
    decreases s.len() - at,
{
    if at < s.len() && is_white(s[at]) {
        lemma_skip_white(s, at + 1);
    }
}

proof fn lemma_white_end(s: Seq<char>, end: int)
    requires
        0 <= end <= s.len(),
    ensures
        0 <= drop_white(s, end) <= end,
        forall|i: int| drop_white(s, end) <= i < end ==> is_white(#[trigger] s[i]),
        drop_white(s, end) > 0 ==> !is_white(s[drop_white(s, end) - 1]),
    decreases end,
{
    if end > 0 && is_white(s[end - 1]) {
        lemma_white_end(s, end - 1);
    }
}

/// Cutting a text at a separator and putting the pieces together again gives
/// the text, and no piece holds the separator.
pub proof fn law_join_undoes_split(s: &str, sep: char, parts: Vec<String>, back: String)
    requires
        call_ensures(split, (s, sep), parts),
        call_ensures(join, (&parts, sep), back),
    ensures
        back@ == s@,
        parts@.len() > 0,
{
    lemma_pieces_join(s@, sep, 0);
    assert(s@.skip(0) =~= s@);
}

proof fn lemma_pieces_join(s: Seq<char>, sep: char, at: int)
    requires
        0 <= at <= s.len(),
    ensures
        pieces_from(s, sep, at).len() > 0,
        joined(pieces_from(s, sep, at), sep) == s.skip(at),
    decreases s.len() - at,
{
    lemma_find_bounds(s, sep, at);
    let end = find_from(s, sep, at);
    if end < s.len() {
        lemma_pieces_join(s, sep, end + 1);
        let rest = pieces_from(s, sep, end + 1);
        lemma_join_front(s.subrange(at, end), rest, sep);
        assert(s[end] == sep) by {
            lemma_found(s, sep, at);
        }
        assert(s.skip(at) =~= s.subrange(at, end) + seq![sep] + s.skip(end + 1));
    } else {
        let one = seq![s.subrange(at, s.len() as int)];
        assert(one.drop_last() =~= Seq::<Seq<char>>::empty());
        assert(joined(one, sep) =~= s.skip(at));
    }
}

proof fn lemma_found(s: Seq<char>, c: char, at: int)
    requires
        0 <= at <= s.len(),
        find_from(s, c, at) < s.len(),
    ensures
        s[find_from(s, c, at)] == c,
    decreases s.len() - at,
{
    if at < s.len() && s[at] != c {
        lemma_found(s, c, at + 1);
    }
}

proof fn lemma_join_front(first: Seq<char>, rest: Seq<Seq<char>>, sep: char)
    requires
        rest.len() > 0,
    ensures
        joined(seq![first] + rest, sep) == first + seq![sep] + joined(rest, sep),
    decreases rest.len(),
{
    let all = seq![first] + rest;
    assert(all.drop_last() =~= seq![first] + rest.drop_last());
    assert(all.last() == rest.last());
    if rest.len() > 1 {
        lemma_join_front(first, rest.drop_last(), sep);
        assert(joined(all, sep) =~= first + seq![sep] + joined(rest, sep));
    } else {
        assert(rest.drop_last() =~= Seq::<Seq<char>>::empty());
        assert(all.drop_last() =~= seq![first]);
        assert(joined(seq![first], sep) == first);
        assert(joined(rest, sep) == rest[0]);
        assert(joined(all, sep) == joined(all.drop_last(), sep).push(sep) + all.last());
        assert(joined(all, sep) =~= first + seq![sep] + joined(rest, sep));
    }
}

/// Texts that differ only in the case of the letters from A to Z are the same
/// to a comparison that does not look at it, and no others are.
pub proof fn law_case_is_ignored(a: &str, b: &str, r: bool)
    requires
        call_ensures(eq_ignore_ascii_case, (a, b), r),
    ensures
        r == (a@.len() == b@.len() && forall|i: int|
            #![trigger a@[i]]
            #![trigger b@[i]]
            0 <= i < a@.len() ==> a@[i] == b@[i] || ('A' <= a@[i] <= 'Z' && b@[i] as int
                == a@[i] as int + 32) || ('A' <= b@[i] <= 'Z' && a@[i] as int == b@[i] as int
                + 32)),
{
    let x = a@.map_values(|c: char| ascii_lower(c));
    let y = b@.map_values(|c: char| ascii_lower(c));
    if x == y {
        assert(x.len() == y.len());
        assert forall|i: int|
            #![trigger a@[i]]
            #![trigger b@[i]]
            0 <= i < a@.len() implies a@[i] == b@[i] || ('A' <= a@[i] <= 'Z' && b@[i] as int
            == a@[i] as int + 32) || ('A' <= b@[i] <= 'Z' && a@[i] as int == b@[i] as int + 32) by {
            assert(x[i] == y[i]);
        }
    } else if a@.len() == b@.len() {
        if forall|i: int|
            #![trigger a@[i]]
            0 <= i < a@.len() ==> ascii_lower(a@[i]) == ascii_lower(b@[i]) {
            assert(x =~= y);
        }
    }
}

/// The first character that is no white space starts the trimmed text.
pub proof fn lemma_trimmed_start(s: Seq<char>, i: int)
    requires
        0 <= i < s.len(),
        !is_white(s[i]),
        forall|k: int| 0 <= k < i ==> is_white(#[trigger] s[k]),
    ensures
        trimmed(s).len() > 0,
        trimmed(s)[0] == s[i],
{
    lemma_skip_white(s, 0);
    let a = skip_white(s, 0);
    if a < i {
        assert(is_white(s[a]));
    }
    lemma_white_end(s, s.len() as int);
}

proof fn lemma_replaced_shift(s: Seq<char>, c: char, with: Seq<char>, by: int, at: int)
    requires
        0 <= by,
        0 <= at,
        by + at <= s.len(),
    ensures
        replaced_from(s, seq![c], with, by + at) == replaced_from(s.skip(by), seq![c], with, at),
    decreases s.len() - at,
{
    if by + at < s.len() {
        lemma_replaced_shift(s, c, with, by, at + 1);
        assert(s.subrange(by + at, by + at + 1) =~= s.skip(by).subrange(at, at + 1));
    }
}

/// Replacing a single character goes character by character: a text in two
/// parts is replaced part by part, and one of a single character gives its
/// replacement.
pub proof fn lemma_replaced_parts(a: Seq<char>, b: Seq<char>, c: char, with: Seq<char>)
    ensures
        replaced_from(a + b, seq![c], with, 0) == replaced_from(a, seq![c], with, 0)
            + replaced_from(b, seq![c], with, 0),
    decreases a.len(),
{
    let s = a + b;
    if a.len() == 0 {
        assert(s =~= b);
        assert(replaced_from(a, seq![c], with, 0) =~= Seq::empty());
    } else {
        let rest = a.skip(1);
        assert(s.skip(1) =~= rest + b);
        lemma_replaced_parts(rest, b, c, with);
        lemma_replaced_shift(s, c, with, 1, 0);
        lemma_replaced_shift(a, c, with, 1, 0);
        assert(s.subrange(0, 1) =~= a.subrange(0, 1));
        let first = if stands_at(a, seq![c], 0) {
            with
        } else {
            seq![a[0]]
        };
        assert(replaced_from(a, seq![c], with, 0) == first + replaced_from(rest, seq![c], with, 0));
        assert(replaced_from(s, seq![c], with, 0) == first + replaced_from(
            rest + b,
            seq![c],
            with,
            0,
        ));
        assert(first + (replaced_from(rest, seq![c], with, 0) + replaced_from(b, seq![c], with, 0))
            =~= (first + replaced_from(rest, seq![c], with, 0)) + replaced_from(
            b,
            seq![c],
            with,
            0,
        ));
    }
}

/// A single character is replaced if it is the one looked for and stays
/// otherwise.
pub proof fn lemma_replaced_one(x: char, c: char, with: Seq<char>)
    ensures
        replaced_from(seq![x], seq![c], with, 0) == (if x == c {
            with
        } else {
            seq![x]
        }),
{
    let s = seq![x];
    assert(s.subrange(0, 1) =~= s);
    if x != c {
        assert(s[0] != seq![c][0]);
    }
    reveal_with_fuel(replaced_from, 2);
    assert(replaced_from(s, seq![c], with, 0) =~= (if x == c {
        with
    } else {
        seq![x]
    }));
}

/// A text is found in another wherever it stands there, and only then.
pub proof fn law_text_is_found_anywhere(s: &str, pattern: &str, r: bool, a: Seq<char>, b: Seq<char>)
    requires
        call_ensures(contains_text, (s, pattern), r),
    ensures
        s@ == a + pattern@ + b ==> r,
        r ==> exists|at: int|
            0 <= at <= s@.len() - pattern@.len() && #[trigger] s@.subrange(at, at + pattern@.len())
                == pattern@,
{
    if s@ == a + pattern@ + b {
        let at = a.len() as int;
        assert(s@.subrange(at, at + pattern@.len()) =~= pattern@);
        assert(stands_at(s@, pattern@, at));
    }
    if r {
        let at = choose|at: int| stands_at(s@, pattern@, at);
        assert(s@.subrange(at, at + pattern@.len()) == pattern@);
    }
}

/// A number below zero has its sign in front, and no other has.
pub proof fn law_signs_are_written(n: i32, s: String)
    requires
        call_ensures(decimal_signed, (n,), s),
    ensures
        s@.len() > 0,
        n < 0 ==> s@[0] == '-' && dec_value(s@.skip(1)) == -n,
        n >= 0 ==> all_digits(s@) && dec_value(s@) == n,
{
    if n < 0 {
        law_decimal_reads_back((-n) as nat);
        assert(s@.skip(1) =~= dec((-n) as nat));
    } else {
        law_decimal_reads_back(n as nat);
    }
}

} // verus!
