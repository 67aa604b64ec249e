//! Character-level helpers for the strings that the index documents hold:
//! substring search, splitting on a separator, and decimal numbers.

use vstd::prelude::*;
use vstd::string::StringExecFns;
use vstd::string::StrSliceExecFns;

verus! {

/// Whether `small` stands in `big` at position `at`.
pub open spec fn occurs_at(big: Seq<char>, small: Seq<char>, at: int) -> bool {
    &&& 0 <= at
    &&& at + small.len() <= big.len()
    &&& big.subrange(at, at + small.len()) == small
}

/// Whether `small` stands somewhere in `big` as a contiguous run of characters.
/// The empty run stands in every text.
pub open spec fn contains_text(big: Seq<char>, small: Seq<char>) -> bool {
    exists|at: int| occurs_at(big, small, at)
}

/// The position of the first `sep` in `s`, or the length of `s` where it holds none.
pub open spec fn first_separator(s: Seq<char>, sep: char) -> int
    decreases s.len(),
{
    if s.len() == 0 || s[0] == sep {
        0
    } else {
        1 + first_separator(s.drop_first(), sep)
    }
}

/// The pieces of `s` between occurrences of `sep`. There is always at least one
/// piece: a text without separator is its own single piece, the empty text too.
pub open spec fn split(s: Seq<char>, sep: char) -> Seq<Seq<char>>
    decreases s.len(),
{
    let at = first_separator(s, sep);
    if 0 <= at < s.len() {
        seq![s.take(at)] + split(s.skip(at + 1), sep)
    } else {
        seq![s]
    }
}

/// `s` with every `from` replaced by the text `to`.
pub open spec fn replaced(s: Seq<char>, from: char, to: Seq<char>) -> Seq<char>
    decreases s.len(),
{
    if s.len() == 0 {
        Seq::empty()
    } else if s.last() == from {
        replaced(s.drop_last(), from, to) + to
    } else {
        replaced(s.drop_last(), from, to).push(s.last())
    }
}

/// Whether `c` is one of the ASCII digits.
pub open spec fn is_digit(c: char) -> bool {
    '0' <= c <= '9'
}

/// Whether `s` holds ASCII digits only.
pub open spec fn all_digits(s: Seq<char>) -> bool {
    forall|i: int| 0 <= i < s.len() ==> is_digit(#[trigger] s[i])
}

/// The number that the decimal digits `s` write, most significant digit first.
pub open spec fn decimal_value(s: Seq<char>) -> nat
    decreases s.len(),
{
    if s.len() == 0 {
        0
    } else {
        (decimal_value(s.drop_last()) * 10 + (s.last() as nat - '0' as nat)) as nat
    }
}

/// What `s` reads as a 16-bit unsigned decimal number: an optional `+`, then one
/// or more digits and nothing else, with a value of at most 65535.
pub open spec fn decimal_u16(s: Seq<char>) -> Option<u16> {
    let digits = if s.len() > 0 && s[0] == '+' {
        s.drop_first()
    } else {
        s
    };
    if digits.len() > 0 && all_digits(digits) && decimal_value(digits) <= u16::MAX {
        Some(decimal_value(digits) as u16)
    } else {
        None
    }
}

/// The decimal digits of `n`, without leading zeros (`0` is written `0`).
pub open spec fn decimal_digits(n: nat) -> Seq<char>
    decreases n,
{
    if n < 10 {
        seq![('0' as nat + n) as char]
    } else {
        decimal_digits(n / 10).push(('0' as nat + n % 10) as char)
    }
}

/// The decimal digits of `n`, with zeros in front up to `width` characters.
pub open spec fn padded_decimal(n: nat, width: nat) -> Seq<char> {
    let digits = decimal_digits(n);
    if digits.len() >= width {
        digits
    } else {
        Seq::new((width - digits.len()) as nat, |i: int| '0') + digits
    }
}

/// The characters of each string of `v`.
pub open spec fn texts(v: Seq<String>) -> Seq<Seq<char>> {
    v.map_values(|s: String| s@)
}

/// The characters of `s`, in order.
pub fn chars_of(s: &str) -> (out: Vec<char>)
    ensures
        out@ == s@,
{
    let mut out: Vec<char> = Vec::new();
    for c in it: s.chars()
        invariant
            it.seq() == s@,
            out@ == it.seq().take(it.index() as int),
    {
        out.push(c);
    }
    out
}

fn stands_at(big: &Vec<char>, small: &Vec<char>, at: usize) -> (found: bool)
    requires
        at + small.len() <= big.len(),
    ensures
        found == occurs_at(big@, small@, at as int),
{
    let mut k: usize = 0;
    while k < small.len()
        invariant
            k <= small.len(),
            at + small.len() <= big.len(),
            forall|j: int| 0 <= j < k ==> big@[at + j] == small@[j],
        decreases small.len() - k,
    {
        if big[at + k] != small[k] {
            return false;
        }
        k += 1;
    }
    proof {
        assert(big@.subrange(at as int, at + small.len()) =~= small@);
    }
    true
}

/// Whether `needle` stands somewhere in `haystack`, compared character by
/// character: no pattern syntax, and upper and lower case differ.
pub fn contains(haystack: &str, needle: &str) -> (found: bool)
    ensures
        found == contains_text(haystack@, needle@),
{
    let big = chars_of(haystack);
    let small = chars_of(needle);
    if small.len() > big.len() {
        return false;
    }
    let last: usize = big.len() - small.len();
    let mut at: usize = 0;
    loop
        invariant
            at <= last,
            last == big.len() - small.len(),
            big@ == haystack@,
            small@ == needle@,
            forall|j: int| 0 <= j < at ==> !occurs_at(big@, small@, j),
        decreases last - at,
    {
        if stands_at(&big, &small, at) {
            return true;
        }
        if at == last {
            return false;
        }
        at += 1;
    }
}

/// Whether `s` begins with `prefix`.
pub fn has_prefix(s: &str, prefix: &str) -> (found: bool)
    ensures
        found == prefix@.is_prefix_of(s@),
{
    let big = chars_of(s);
    let small = chars_of(prefix);
    if small.len() > big.len() {
        return false;
    }
    stands_at(&big, &small, 0)
}

/// Whether `a` and `b` hold the same characters.
pub fn same_text(a: &str, b: &str) -> (same: bool)
    ensures
        same == (a@ == b@),
{
    let left = chars_of(a);
    let right = chars_of(b);
    if left.len() != right.len() {
        return false;
    }
    let found = stands_at(&left, &right, 0);
    proof {
        assert(left@.subrange(0, left@.len() as int) =~= left@);
    }
    found
}

proof fn lemma_first_separator(s: Seq<char>, sep: char, at: int)
    requires
        0 <= at <= s.len(),
        forall|j: int| 0 <= j < at ==> s[j] != sep,
        at < s.len() ==> s[at] == sep,
    ensures
        first_separator(s, sep) == at,
    decreases s.len(),
{
    if at > 0 {
        let rest = s.drop_first();
        lemma_first_separator(rest, sep, at - 1);
    }
}

/// The pieces of `s` between occurrences of `sep`, each as a string of its own.
pub fn split_text(s: &str, sep: char) -> (pieces: Vec<String>)
    ensures
        texts(pieces@) == split(s@, sep),
{
    let chars = chars_of(s);
    let mut pieces: Vec<String> = Vec::new();
    let mut start: usize = 0;
    let mut i: usize = 0;
    proof {
        assert(s@.skip(0) =~= s@);
    }
    while i < chars.len()
        invariant
            start <= i <= chars.len(),
            chars@ == s@,
            forall|k: int| start <= k < i ==> chars@[k] != sep,
            texts(pieces@) + split(s@.skip(start as int), sep) == split(s@, sep),
        decreases chars.len() - i,
    {
        if chars[i] == sep {
            let piece = s.substring_char(start, i).to_owned();
            proof {
                let tail = s@.skip(start as int);
                lemma_first_separator(tail, sep, i - start);
                assert(tail.take(i - start) =~= s@.subrange(start as int, i as int));
                assert(tail.skip(i - start + 1) =~= s@.skip(i + 1));
            }
            pieces.push(piece);
            start = i + 1;
        }
        i += 1;
    }
    let piece = s.substring_char(start, chars.len()).to_owned();
    proof {
        let tail = s@.skip(start as int);
        lemma_first_separator(tail, sep, tail.len() as int);
    }
    pieces.push(piece);
    pieces
}

/// `s` with every `from` replaced by the text `to`.
pub fn replace_char(s: &str, from: char, to: &str) -> (out: String)
    ensures
        out@ == replaced(s@, from, to@),
{
    let chars = chars_of(s);
    let mut out = String::new();
    let mut i: usize = 0;
    while i < chars.len()
        invariant
            i <= chars.len(),
            chars@ == s@,
            out@ == replaced(s@.take(i as int), from, to@),
        decreases chars.len() - i,
    {
        proof {
            assert(s@.take(i + 1).drop_last() =~= s@.take(i as int));
            assert(s@.subrange(i as int, i + 1) =~= seq![s@[i as int]]);
        }
        if chars[i] == from {
            out.append(to);
        } else {
            out.append(s.substring_char(i, i + 1));
        }
        i += 1;
    }
    proof {
        assert(s@.take(i as int) =~= s@);
    }
    out
}

proof fn lemma_decimal_prefix(s: Seq<char>, k: int)
    requires
        0 <= k <= s.len(),
        all_digits(s),
    ensures
        decimal_value(s.take(k)) <= decimal_value(s),
    decreases s.len(),
{
    if k == s.len() {
        assert(s.take(k) =~= s);
    } else {
        let shorter = s.drop_last();
        assert(shorter.take(k) =~= s.take(k));
        lemma_decimal_prefix(shorter, k);
    }
}

/// Reads `s` as a 16-bit unsigned decimal number.
pub fn parse_u16(s: &str) -> (value: Option<u16>)
    ensures
        value == decimal_u16(s@),
{
    let chars = chars_of(s);
    let first: usize = if chars.len() > 0 && chars[0] == '+' {
        1
    } else {
        0
    };
    if first == chars.len() {
        return None;
    }
    let ghost digits = if s@.len() > 0 && s@[0] == '+' {
        s@.drop_first()
    } else {
        s@
    };
    let mut value: u32 = 0;
    let mut i: usize = first;
    while i < chars.len()
        invariant
            first <= i <= chars.len(),
            chars@ == s@,
            digits == s@.skip(first as int),
            digits == if s@.len() > 0 && s@[0] == '+' {
                s@.drop_first()
            } else {
                s@
            },
            all_digits(digits.take(i - first)),
            value == decimal_value(digits.take(i - first)),
            value <= u16::MAX,
        decreases chars.len() - i,
    {
        let c = chars[i];
        if c < '0' || c > '9' {
            proof {
                assert(digits[i - first] == c);
            }
            return None;
        }
        let digit: u32 = c as u32 - '0' as u32;
        let next: u32 = value * 10 + digit;
        proof {
            let longer = digits.take(i - first + 1);
            assert(longer.drop_last() =~= digits.take(i - first));
            if next > u16::MAX && all_digits(digits) {
                lemma_decimal_prefix(digits, i - first + 1);
            }
        }
        if next > 65535 {
            return None;
        }
        value = next;
        i += 1;
    }
    proof {
        assert(digits.take(i - first) =~= digits);
    }
    Some(value as u16)
}

spec fn digit_char(d: u8) -> char {
    ('0' as nat + d as nat) as char
}

/// The characters that `digits` write when read from its last entry to its first.
spec fn written(digits: Seq<u8>) -> Seq<char>
    decreases digits.len(),
{
    if digits.len() == 0 {
        Seq::empty()
    } else {
        seq![digit_char(digits.last())] + written(digits.drop_last())
    }
}

fn digit_text(d: u8) -> (text: &'static str)
    requires
        d < 10,
    ensures
        text@ == seq![digit_char(d)],
{
    proof {
        reveal_strlit("0");
        reveal_strlit("1");
        reveal_strlit("2");
        reveal_strlit("3");
        reveal_strlit("4");
        reveal_strlit("5");
        reveal_strlit("6");
        reveal_strlit("7");
        reveal_strlit("8");
        reveal_strlit("9");
    }
    if d == 0 {
        "0"
    } else if d == 1 {
        "1"
    } else if d == 2 {
        "2"
    } else if d == 3 {
        "3"
    } else if d == 4 {
        "4"
    } else if d == 5 {
        "5"
    } else if d == 6 {
        "6"
    } else if d == 7 {
        "7"
    } else if d == 8 {
        "8"
    } else {
        "9"
    }
}

/// Appends to `out` the decimal digits of `n`, with zeros in front up to `width`
/// characters.
pub fn push_decimal(out: &mut String, n: u64, width: usize)
    ensures
        final(out)@ == old(out)@ + padded_decimal(n as nat, width as nat),
{
    let mut digits: Vec<u8> = Vec::new();
    let mut rest: u64 = n;
    while rest >= 10
        invariant
            decimal_digits(n as nat) == decimal_digits(rest as nat) + written(digits@),
            forall|k: int| 0 <= k < digits.len() ==> digits@[k] < 10,
        decreases rest,
    {
        let d: u8 = (rest % 10) as u8;
        proof {
            let grown = digits@.push(d);
            assert(grown.drop_last() =~= digits@);
        }
        digits.push(d);
        rest = rest / 10;
    }
    proof {
        let d = rest as u8;
        let grown = digits@.push(d);
        assert(grown.drop_last() =~= digits@);
    }
    digits.push(rest as u8);
    let ghost before = out@;
    let ghost number = decimal_digits(n as nat);
    proof {
        lemma_written_len(digits@);
    }
    let mut zeros: usize = 0;
    while zeros + digits.len() < width
        invariant
            zeros + digits.len() <= width || zeros == 0,
            out@ == before + Seq::new(zeros as nat, |i: int| '0'),
        decreases width - zeros - digits.len(),
    {
        proof {
            reveal_strlit("0");
        }
        out.append("0");
        zeros += 1;
    }
    let ghost padding = Seq::new(zeros as nat, |i: int| '0');
    let mut k: usize = digits.len();
    proof {
        assert(digits@.take(k as int) =~= digits@);
    }
    while k > 0
        invariant
            k <= digits.len(),
            number == written(digits@),
            forall|j: int| 0 <= j < digits.len() ==> digits@[j] < 10,
            out@ + written(digits@.take(k as int)) == before + padding + number,
        decreases k,
    {
        k -= 1;
        let text = digit_text(digits[k]);
        proof {
            let shown = digits@.take(k + 1);
            assert(shown.drop_last() =~= digits@.take(k as int));
        }
        out.append(text);
    }
}

proof fn lemma_written_len(digits: Seq<u8>)
    ensures
        written(digits).len() == digits.len(),
    decreases digits.len(),
{
    if digits.len() > 0 {
        lemma_written_len(digits.drop_last());
    }
}

} // verus!
