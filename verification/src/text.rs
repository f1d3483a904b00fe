//! Text primitives over sequences of characters.
use vstd::prelude::*;

verus! {

/// `String::push` appends one character at the end of the string.
pub assume_specification[ String::push ](s: &mut String, c: char)
    ensures
        final(s)@ == old(s)@.push(c),
;

/// The characters of `s`, in order.
pub fn chars_of(s: &str) -> (r: Vec<char>)
    ensures
        r@ == s@,
{
    let mut out: Vec<char> = Vec::new();
    for c in it: s.chars()
        invariant
            out@ == it.seq().take(it.index()),
            it.seq() == s@,
    {
        out.push(c);
    }
    out
}

/// Whether two strings hold the same characters.
pub fn same(a: &str, b: &str) -> (r: bool)
    ensures
        r == (a@ == b@),
{
    a.to_owned() == b.to_owned()
}

/// `a` followed by `b`.
pub fn joined(a: &str, b: &str) -> (r: String)
    ensures
        r@ == a@ + b@,
{
    let mut s = a.to_owned();
    s.append(b);
    s
}

// ---------------------------------------------------------------------------
// Searching
// ---------------------------------------------------------------------------

/// `needle` stands in `s` at position `i`.
pub open spec fn occurs_at(s: Seq<char>, needle: Seq<char>, i: int) -> bool {
    0 <= i && i + needle.len() <= s.len() && s.subrange(i, i + needle.len()) == needle
}

/// `needle` stands somewhere in `s`.
pub open spec fn occurs(s: Seq<char>, needle: Seq<char>) -> bool {
    exists|i: int| occurs_at(s, needle, i)
}

/// `s` begins with `prefix`.
pub open spec fn begins(s: Seq<char>, prefix: Seq<char>) -> bool {
    occurs_at(s, prefix, 0)
}

/// `s` ends with `suffix`.
pub open spec fn ends(s: Seq<char>, suffix: Seq<char>) -> bool {
    occurs_at(s, suffix, s.len() - suffix.len())
}

/// Whether `needle` stands in `s` at position `i`.
pub fn matches_at(s: &Vec<char>, needle: &Vec<char>, i: usize) -> (r: bool)
    ensures
        r == occurs_at(s@, needle@, i as int),
{
    if i > s.len() || needle.len() > s.len() - i {
        return false;
    }
    let mut k: usize = 0;
    while k < needle.len()
        invariant
            k <= needle.len(),
            i + needle.len() <= s.len(),
            forall|m: int| 0 <= m < k ==> s@[i + m] == needle@[m],
        decreases needle.len() - k,
    {
        if s[i + k] != needle[k] {
            assert(s@.subrange(i as int, i + needle@.len())[k as int] != needle@[k as int]);
            return false;
        }
        k = k + 1;
    }
    assert(s@.subrange(i as int, i + needle@.len()) =~= needle@);
    true
}

/// The first position at or after `from` at which `needle` stands in `s`.
pub fn find_from(s: &Vec<char>, needle: &Vec<char>, from: usize) -> (r: Option<usize>)
    ensures
        match r {
            Some(i) => from <= i && occurs_at(s@, needle@, i as int) && forall|j: int|
                from <= j < i ==> !occurs_at(s@, needle@, j),
            None => forall|j: int| from <= j ==> !occurs_at(s@, needle@, j),
        },
{
    if from > s.len() {
        return None;
    }
    let mut i: usize = from;
    while i <= s.len()
        invariant
            from <= i <= s.len() + 1,
            forall|j: int| from <= j < i ==> !occurs_at(s@, needle@, j),
        decreases s.len() + 1 - i,
    {
        if matches_at(s, needle, i) {
            return Some(i);
        }
        if i == s.len() {
            return None;
        }
        i = i + 1;
    }
    None
}

/// Whether `needle` stands somewhere in `s` (`str::contains`).
pub fn contains(s: &str, needle: &str) -> (r: bool)
    ensures
        r == occurs(s@, needle@),
{
    let sv = chars_of(s);
    let nv = chars_of(needle);
    match find_from(&sv, &nv, 0) {
        Some(i) => {
            assert(occurs_at(s@, needle@, i as int));
            true
        },
        None => false,
    }
}

/// Whether `s` begins with `prefix` (`str::starts_with`).
pub fn starts_with(s: &str, prefix: &str) -> (r: bool)
    ensures
        r == begins(s@, prefix@),
{
    matches_at(&chars_of(s), &chars_of(prefix), 0)
}

/// Whether `s` ends with `suffix` (`str::ends_with`).
pub fn ends_with(s: &str, suffix: &str) -> (r: bool)
    ensures
        r == ends(s@, suffix@),
{
    let sv = chars_of(s);
    let xv = chars_of(suffix);
    if xv.len() > sv.len() {
        return false;
    }
    matches_at(&sv, &xv, sv.len() - xv.len())
}

/// The part of `s` after its first `n` characters.
pub fn drop_chars(s: &str, n: usize) -> (r: String)
    requires
        n <= s@.len(),
    ensures
        r@ == s@.skip(n as int),
{
    let v = chars_of(s);
    let r = slice_text(&v, n, v.len());
    assert(s@.subrange(n as int, s@.len() as int) =~= s@.skip(n as int));
    r
}

/// The characters of `v` from `lo` up to `hi`.
pub fn slice_text(v: &Vec<char>, lo: usize, hi: usize) -> (r: String)
    requires
        lo <= hi <= v.len(),
    ensures
        r@ == v@.subrange(lo as int, hi as int),
{
    let mut out = String::new();
    let mut i: usize = lo;
    while i < hi
        invariant
            lo <= i <= hi <= v.len(),
            out@ == v@.subrange(lo as int, i as int),
        decreases hi - i,
    {
        out.push(v[i]);
        i = i + 1;
        assert(v@.subrange(lo as int, i as int) =~= v@.subrange(lo as int, i - 1).push(v@[i - 1]));
    }
    out
}

/// What is left of `s` once `prefix` is taken off its front, where it begins with it
/// (`str::strip_prefix`).
pub fn strip_prefix(s: &str, prefix: &str) -> (r: Option<String>)
    ensures
        r is Some <==> begins(s@, prefix@),
        r matches Some(rest) ==> rest@ == s@.skip(prefix@.len() as int),
{
    if starts_with(s, prefix) {
        let n = chars_of(prefix).len();
        Some(drop_chars(s, n))
    } else {
        None
    }
}

// ---------------------------------------------------------------------------
// White space
// ---------------------------------------------------------------------------

/// The characters with the Unicode property White_Space.
pub open spec fn white(c: char) -> bool {
    ||| '\u{9}' <= c <= '\u{d}'
    ||| c == ' '
    ||| c == '\u{85}'
    ||| c == '\u{a0}'
    ||| c == '\u{1680}'
    ||| '\u{2000}' <= c <= '\u{200a}'
    ||| c == '\u{2028}'
    ||| c == '\u{2029}'
    ||| c == '\u{202f}'
    ||| c == '\u{205f}'
    ||| c == '\u{3000}'
}

/// Whether `c` is white space (`char::is_whitespace`).
pub fn is_white(c: char) -> (r: bool)
    ensures
        r == white(c),
{
    ('\u{9}' <= c && c <= '\u{d}') || c == ' ' || c == '\u{85}' || c == '\u{a0}' || c == '\u{1680}'
        || ('\u{2000}' <= c && c <= '\u{200a}') || c == '\u{2028}' || c == '\u{2029}' || c
        == '\u{202f}' || c == '\u{205f}' || c == '\u{3000}'
}

/// `s` without the white space at its front.
pub open spec fn trimmed_front(s: Seq<char>) -> Seq<char>
    decreases s.len(),
{
    if s.len() > 0 && white(s[0]) {
        trimmed_front(s.skip(1))
    } else {
        s
    }
}

/// `s` without the white space at its back.
pub open spec fn trimmed_back(s: Seq<char>) -> Seq<char>
    decreases s.len(),
{
    if s.len() > 0 && white(s.last()) {
        trimmed_back(s.drop_last())
    } else {
        s
    }
}

/// `s` without the white space at either end.
pub open spec fn trimmed(s: Seq<char>) -> Seq<char> {
    trimmed_back(trimmed_front(s))
}

/// Nothing but white space.
pub open spec fn blank(s: Seq<char>) -> bool {
    trimmed(s).len() == 0
}

proof fn lemma_trimmed_holds(s: Seq<char>, i: int)
    requires
        0 <= i < s.len(),
        !white(s[i]),
    ensures
        trimmed_front(s).contains(s[i]),
        trimmed_back(s).len() > 0,
    decreases s.len(),
{
    if white(s[0]) {
        lemma_trimmed_holds(s.skip(1), i - 1);
        assert(s.skip(1)[i - 1] == s[i]);
    } else {
        assert(s.contains(s[i]));
    }
    if white(s.last()) {
        lemma_trimmed_holds(s.drop_last(), i);
    }
}

/// A blank text holds white space alone.
pub proof fn lemma_blank(s: Seq<char>)
    requires
        blank(s),
    ensures
        forall|i: int| 0 <= i < s.len() ==> white(#[trigger] s[i]),
{
    assert forall|i: int| 0 <= i < s.len() implies white(#[trigger] s[i]) by {
        if !white(s[i]) {
            lemma_trimmed_holds(s, i);
            let t = trimmed_front(s);
            let k = choose|k: int| 0 <= k < t.len() && t[k] == s[i];
            lemma_trimmed_holds(t, k);
        }
    }
}

proof fn lemma_trimmed_front(s: Seq<char>, lo: int)
    requires
        0 <= lo <= s.len(),
        forall|i: int| 0 <= i < lo ==> white(s[i]),
        lo < s.len() ==> !white(s[lo]),
    ensures
        trimmed_front(s) == s.skip(lo),
    decreases lo,
{
    if lo == 0 {
        assert(s.skip(0) =~= s);
    } else {
        lemma_trimmed_front(s.skip(1), lo - 1);
        assert(s.skip(1).skip(lo - 1) =~= s.skip(lo));
    }
}

proof fn lemma_trimmed_back(s: Seq<char>, hi: int)
    requires
        0 <= hi <= s.len(),
        forall|i: int| hi <= i < s.len() ==> white(s[i]),
        hi > 0 ==> !white(s[hi - 1]),
    ensures
        trimmed_back(s) == s.take(hi),
    decreases s.len() - hi,
{
    if hi == s.len() {
        assert(s.take(hi) =~= s);
    } else {
        lemma_trimmed_back(s.drop_last(), hi);
        assert(s.drop_last().take(hi) =~= s.take(hi));
    }
}

/// The first position at or after `from` that is white space (or, with `wanted` false, that is
/// not), or the end.
fn skip_while_white(v: &Vec<char>, from: usize, wanted: bool) -> (r: usize)
    requires
        from <= v.len(),
    ensures
        from <= r <= v.len(),
        forall|i: int| from <= i < r ==> white(v@[i]) == wanted,
        r < v.len() ==> white(v@[r as int]) != wanted,
{
    let mut i: usize = from;
    while i < v.len() && is_white(v[i]) == wanted
        invariant
            from <= i <= v.len(),
            forall|j: int| from <= j < i ==> white(v@[j]) == wanted,
        decreases v.len() - i,
    {
        i = i + 1;
    }
    i
}

/// `s` without the white space at either end (`str::trim`).
pub fn trim(s: &str) -> (r: String)
    ensures
        r@ == trimmed(s@),
{
    let v = chars_of(s);
    let lo = skip_while_white(&v, 0, true);
    let mut hi: usize = v.len();
    while hi > lo && is_white(v[hi - 1])
        invariant
            lo <= hi <= v.len(),
            forall|j: int| hi <= j < v.len() ==> white(v@[j]),
        decreases hi,
    {
        hi = hi - 1;
    }
    proof {
        lemma_trimmed_front(s@, lo as int);
        lemma_trimmed_back(s@.skip(lo as int), hi - lo);
        assert(s@.skip(lo as int).take(hi - lo) =~= s@.subrange(lo as int, hi as int));
    }
    slice_text(&v, lo, hi)
}

/// Whether `s` is nothing but white space.
pub fn is_blank(s: &str) -> (r: bool)
    ensures
        r == blank(s@),
{
    trim(s).as_str().is_empty()
}

// ---------------------------------------------------------------------------
// Letters
// ---------------------------------------------------------------------------

/// The lower-case form of an ASCII letter; any other character stands for itself.
pub open spec fn lower(c: char) -> char {
    if 'A' <= c <= 'Z' {
        ((c as u32 + 32) as u32) as char
    } else {
        c
    }
}

/// `s` with its ASCII letters in lower case.
pub open spec fn lowered(s: Seq<char>) -> Seq<char> {
    Seq::new(s.len(), |i: int| lower(s[i]))
}

/// The lower-case form of an ASCII letter (`char::to_ascii_lowercase`).
pub fn lower_char(c: char) -> (r: char)
    ensures
        r == lower(c),
{
    if 'A' <= c && c <= 'Z' {
        let b: u8 = c as u8;
        (b + 32) as char
    } else {
        c
    }
}

/// `s` with its ASCII letters in lower case (`str::to_ascii_lowercase`).
pub fn to_lower(s: &str) -> (r: String)
    ensures
        r@ == lowered(s@),
{
    let v = chars_of(s);
    let mut out = String::new();
    let mut i: usize = 0;
    while i < v.len()
        invariant
            i <= v.len(),
            v@ == s@,
            out@ == lowered(s@).take(i as int),
        decreases v.len() - i,
    {
        out.push(lower_char(v[i]));
        i = i + 1;
        assert(lowered(s@).take(i as int) =~= lowered(s@).take(i - 1).push(lower(s@[i - 1])));
    }
    assert(lowered(s@).take(i as int) =~= lowered(s@));
    out
}

/// `s` with every `from` turned into `to`.
pub open spec fn replaced(s: Seq<char>, from: char, to: char) -> Seq<char> {
    Seq::new(
        s.len(),
        |i: int|
            if s[i] == from {
                to
            } else {
                s[i]
            },
    )
}

/// `s` with every `from` turned into `to`.
pub fn replace_char(s: &str, from: char, to: char) -> (r: String)
    ensures
        r@ == replaced(s@, from, to),
{
    let v = chars_of(s);
    let mut out = String::new();
    let mut i: usize = 0;
    while i < v.len()
        invariant
            i <= v.len(),
            v@ == s@,
            out@ == replaced(s@, from, to).take(i as int),
        decreases v.len() - i,
    {
        if v[i] == from {
            out.push(to);
        } else {
            out.push(v[i]);
        }
        i = i + 1;
        assert(out@ =~= replaced(s@, from, to).take(i as int));
    }
    assert(replaced(s@, from, to).take(i as int) =~= replaced(s@, from, to));
    out
}

/// `s` with every `c` written twice.
pub open spec fn doubled(s: Seq<char>, c: char) -> Seq<char>
    decreases s.len(),
{
    if s.len() == 0 {
        s
    } else if s.last() == c {
        doubled(s.drop_last(), c).push(c).push(c)
    } else {
        doubled(s.drop_last(), c).push(s.last())
    }
}

/// `s` with every `c` written twice.
pub fn double_char(s: &str, c: char) -> (r: String)
    ensures
        r@ == doubled(s@, c),
{
    let v = chars_of(s);
    let mut out = String::new();
    let mut i: usize = 0;
    while i < v.len()
        invariant
            i <= v.len(),
            v@ == s@,
            out@ == doubled(s@.take(i as int), c),
        decreases v.len() - i,
    {
        out.push(v[i]);
        if v[i] == c {
            out.push(c);
        }
        i = i + 1;
        assert(s@.take(i as int).drop_last() =~= s@.take(i - 1));
    }
    assert(s@.take(i as int) =~= s@);
    out
}

// ---------------------------------------------------------------------------
// Numbers
// ---------------------------------------------------------------------------

/// An ASCII decimal digit.
pub open spec fn digit(c: char) -> bool {
    '0' <= c <= '9'
}

/// The digit that stands for `d`.
pub open spec fn digit_char(d: nat) -> char {
    (('0' as u32 + d) as u32) as char
}

/// `n` in decimal, without leading zeros.
pub open spec fn decimal(n: nat) -> Seq<char>
    decreases n,
{
    if n < 10 {
        seq![digit_char(n)]
    } else {
        decimal(n / 10).push(digit_char(n % 10))
    }
}

/// Only digits.
pub open spec fn all_digits(s: Seq<char>) -> bool {
    forall|i: int| 0 <= i < s.len() ==> digit(#[trigger] s[i])
}

/// The number that a run of digits stands for.
pub open spec fn digits_value(s: Seq<char>) -> nat
    decreases s.len(),
{
    if s.len() == 0 {
        0
    } else {
        (digits_value(s.drop_last()) * 10 + (s.last() as u32 - '0' as u32)) as nat
    }
}

/// What `s` says as an unsigned number no greater than `max`: an optional plus sign, then one or
/// more digits.
pub open spec fn unsigned(s: Seq<char>, max: nat) -> Option<nat> {
    let d = if s.len() > 0 && s[0] == '+' {
        s.skip(1)
    } else {
        s
    };
    if d.len() > 0 && all_digits(d) && digits_value(d) <= max {
        Some(digits_value(d))
    } else {
        None
    }
}

/// The digit that stands for `d`.
pub fn digit_of(d: u64) -> (r: char)
    requires
        d < 10,
    ensures
        r == digit_char(d as nat),
{
    ((48 + d) as u8) as char
}

/// `n` in decimal.
pub fn to_decimal(n: u64) -> (r: String)
    ensures
        r@ == decimal(n as nat),
    decreases n,
{
    if n < 10 {
        let mut out = String::new();
        out.push(digit_of(n));
        assert(out@ =~= seq![digit_char(n as nat)]);
        out
    } else {
        let mut out = to_decimal(n / 10);
        out.push(digit_of(n % 10));
        out
    }
}

/// Whether `c` is an ASCII decimal digit (`char::is_ascii_digit`).
pub fn is_digit(c: char) -> (r: bool)
    ensures
        r == digit(c),
{
    '0' <= c && c <= '9'
}

/// A number in decimal is one or more digits, and reads back as itself.
pub proof fn decimal_reads_back(n: nat)
    ensures
        decimal(n).len() > 0,
        all_digits(decimal(n)),
        digits_value(decimal(n)) == n,
    decreases n,
{
    let s = decimal(n);
    if n < 10 {
        assert(s.drop_last() =~= Seq::<char>::empty());
        assert(digits_value(s.drop_last()) == 0);
    } else {
        decimal_reads_back(n / 10);
        assert(s.drop_last() =~= decimal(n / 10));
    }
}

/// The text that ends in a mark and a run of digits says what the digits are, and what stands
/// before them, where the mark is no digit.
pub proof fn lemma_tail_digits(
    head1: Seq<char>,
    digits1: Seq<char>,
    head2: Seq<char>,
    digits2: Seq<char>,
    mark: char,
)
    requires
        all_digits(digits1),
        all_digits(digits2),
        !digit(mark),
        head1.push(mark) + digits1 == head2.push(mark) + digits2,
    ensures
        head1 == head2,
        digits1 == digits2,
{
    let a = head1.push(mark) + digits1;
    let b = head2.push(mark) + digits2;
    assert(a.len() == head1.len() + 1 + digits1.len());
    assert(b.len() == head2.len() + 1 + digits2.len());
    if head1.len() < head2.len() {
        assert(b[head2.len() as int] == mark);
        assert(a[head2.len() as int] == digits1[head2.len() - head1.len() - 1]);
    } else if head2.len() < head1.len() {
        assert(a[head1.len() as int] == mark);
        assert(b[head1.len() as int] == digits2[head1.len() - head2.len() - 1]);
    }
    assert forall|i: int| 0 <= i < head1.len() implies head1[i] == head2[i] by {
        assert(a[i] == head1[i]);
        assert(b[i] == head2[i]);
    }
    assert(head1 =~= head2);
    assert forall|i: int| 0 <= i < digits1.len() implies digits1[i] == digits2[i] by {
        assert(a[head1.len() + 1 + i] == digits1[i]);
        assert(b[head2.len() + 1 + i] == digits2[i]);
    }
    assert(digits1 =~= digits2);
}

proof fn lemma_digits_value_grows(s: Seq<char>, k: int)
    requires
        0 <= k <= s.len(),
        all_digits(s),
    ensures
        digits_value(s.take(k)) <= digits_value(s),
    decreases s.len() - k,
{
    if k == s.len() {
        assert(s.take(k) =~= s);
    } else {
        lemma_digits_value_grows(s, k + 1);
        assert(s.take(k + 1).drop_last() =~= s.take(k));
    }
}

/// Reads an unsigned number no greater than `max` (`str::parse` for the unsigned types).
pub fn parse_unsigned(s: &str, max: u64) -> (r: Option<u64>)
    ensures
        match r {
            Some(n) => unsigned(s@, max as nat) == Some(n as nat),
            None => unsigned(s@, max as nat) is None,
        },
{
    let v = chars_of(s);
    let start: usize = if v.len() > 0 && v[0] == '+' {
        1
    } else {
        0
    };
    let ghost d = s@.skip(start as int);
    assert(s@.skip(0) =~= s@);
    if start == v.len() {
        return None;
    }
    let mut i: usize = start;
    let mut value: u64 = 0;
    while i < v.len()
        invariant
            start <= i <= v.len(),
            v@ == s@,
            d == s@.skip(start as int),
            all_digits(d.take(i - start)),
            value == digits_value(d.take(i - start)),
            value <= max,
            d.len() > 0,
            start <= 1,
            unsigned(s@, max as nat) == (if d.len() > 0 && all_digits(d) && digits_value(d) <= max {
                Some(digits_value(d))
            } else {
                None::<nat>
            }),
        decreases v.len() - i,
    {
        let c = v[i];
        assert(d[i - start] == c);
        if !is_digit(c) {
            return None;
        }
        let k: u64 = (c as u32 - 48) as u64;
        proof {
            let t = d.take(i - start + 1);
            assert(t.drop_last() =~= d.take(i - start));
            assert forall|j: int| 0 <= j < t.len() implies digit(#[trigger] t[j]) by {
                if j < i - start {
                    assert(t[j] == d.take(i - start)[j]);
                }
            }
            assert(digits_value(t) == value * 10 + k);
            if all_digits(d) {
                lemma_digits_value_grows(d, i - start + 1);
            }
        }
        if value > max / 10 || k > max - value * 10 {
            return None;
        }
        value = value * 10 + k;
        i = i + 1;
    }
    assert(d.take(i - start) =~= d);
    Some(value)
}

// ---------------------------------------------------------------------------
// Lower case in all scripts
// ---------------------------------------------------------------------------

/// What `str::to_lowercase` makes of a text.
pub uninterp spec fn lowercased(s: Seq<char>) -> Seq<char>;

/// `str::to_lowercase`: the text in lower case, by the rules of Unicode. What it returns is a
/// function of the text alone, named by `lowercased`; which characters it maps to which is not
/// stated.
#[verifier::external_body]
pub(crate) fn lowercase(s: &str) -> (r: String)
    ensures
        r@ == lowercased(s@),
{
    s.to_lowercase()
}

// ---------------------------------------------------------------------------
// Splitting and joining
// ---------------------------------------------------------------------------

/// How many characters of `s` stand before the first `c`; all of them where there is none.
pub open spec fn upto(s: Seq<char>, c: char) -> int
    decreases s.len(),
{
    if s.len() == 0 || s[0] == c {
        0
    } else {
        1 + upto(s.skip(1), c)
    }
}

/// The pieces of `s` between the occurrences of `c`.
pub open spec fn split_on(s: Seq<char>, c: char) -> Seq<Seq<char>>
    decreases s.len(),
{
    proof {
        lemma_upto(s, c);
    }
    let n = upto(s, c);
    if n == s.len() {
        seq![s]
    } else {
        seq![s.take(n)] + split_on(s.skip(n + 1), c)
    }
}

/// What `upto` says, in terms of the characters of `s`.
pub proof fn lemma_upto(s: Seq<char>, c: char)
    ensures
        0 <= upto(s, c) <= s.len(),
        forall|i: int| 0 <= i < upto(s, c) ==> s[i] != c,
        upto(s, c) < s.len() ==> s[upto(s, c)] == c,
    decreases s.len(),
{
    if s.len() > 0 && s[0] != c {
        lemma_upto(s.skip(1), c);
        let n = upto(s.skip(1), c);
        assert forall|i: int| 0 <= i < n + 1 implies s[i] != c by {
            if i > 0 {
                assert(s.skip(1)[i - 1] == s[i]);
            }
        }
    }
}

proof fn lemma_upto_is(s: Seq<char>, c: char, n: int)
    requires
        0 <= n <= s.len(),
        forall|i: int| 0 <= i < n ==> s[i] != c,
        n < s.len() ==> s[n] == c,
    ensures
        upto(s, c) == n,
{
    lemma_upto(s, c);
}

/// The position of the first `c` at or after `from`, or the end.
pub fn index_from(v: &Vec<char>, c: char, from: usize) -> (r: usize)
    requires
        from <= v.len(),
    ensures
        from <= r <= v.len(),
        r - from == upto(v@.skip(from as int), c),
        forall|i: int| from <= i < r ==> v@[i] != c,
        r < v.len() ==> v@[r as int] == c,
{
    let mut i: usize = from;
    while i < v.len() && v[i] != c
        invariant
            from <= i <= v.len(),
            forall|j: int| from <= j < i ==> v@[j] != c,
        decreases v.len() - i,
    {
        i = i + 1;
    }
    proof {
        lemma_upto_is(v@.skip(from as int), c, i - from);
    }
    i
}

/// The pieces of `s` between the occurrences of `c` (`str::split`).
pub fn split_text(s: &str, c: char) -> (r: Vec<String>)
    ensures
        texts(r@) == split_on(s@, c),
{
    let v = chars_of(s);
    let mut out: Vec<String> = Vec::new();
    let mut from: usize = 0;
    assert(s@.skip(0) =~= s@);
    assert(texts(out@) + split_on(s@, c) =~= split_on(s@, c));
    loop
        invariant_except_break
            from <= v.len(),
            v@ == s@,
            texts(out@) + split_on(s@.skip(from as int), c) == split_on(s@, c),
        ensures
            texts(out@) == split_on(s@, c),
        decreases v.len() - from,
    {
        let ghost before = out@;
        let ghost rest = s@.skip(from as int);
        let at = index_from(&v, c, from);
        let piece = slice_text(&v, from, at);
        assert(piece@ =~= rest.take(at - from));
        out.push(piece);
        assert(texts(out@) =~= texts(before).push(piece@));
        proof {
            lemma_upto(rest, c);
        }
        if at == v.len() {
            assert(rest.take(at - from) =~= rest);
            assert(texts(out@) =~= texts(before) + seq![rest]);
            break;
        }
        from = at + 1;
        proof {
            let n = upto(rest, c);
            assert(rest.skip(n + 1) =~= s@.skip(from as int));
            assert(texts(out@) + split_on(s@.skip(from as int), c) =~= texts(before) + (seq![
                rest.take(n),
            ] + split_on(rest.skip(n + 1), c)));
        }
    }
    out
}

/// The first position at which `needle` stands in `s`.
pub open spec fn find(s: Seq<char>, needle: Seq<char>) -> Option<int> {
    if occurs(s, needle) {
        Some(
            choose|i: int|
                #![trigger occurs_at(s, needle, i)]
                occurs_at(s, needle, i) && forall|j: int| j < i ==> !occurs_at(s, needle, j),
        )
    } else {
        None
    }
}

/// The piece of `s` between the first `sep` and the next, or the end; `None` where there is no
/// `sep`.
pub open spec fn second_piece(s: Seq<char>, sep: Seq<char>) -> Option<Seq<char>> {
    match find(s, sep) {
        None => None,
        Some(i) => {
            let rest = s.skip(i + sep.len());
            Some(
                match find(rest, sep) {
                    Some(j) => rest.take(j),
                    None => rest,
                },
            )
        },
    }
}

/// The first position at which `needle` stands in `s`.
pub fn find_text(s: &Vec<char>, needle: &Vec<char>) -> (r: Option<usize>)
    ensures
        match r {
            Some(i) => find(s@, needle@) == Some(i as int) && i + needle.len() <= s.len(),
            None => find(s@, needle@) is None,
        },
{
    match find_from(s, needle, 0) {
        Some(i) => {
            proof {
                assert(occurs_at(s@, needle@, i as int));
                assert forall|j: int| j < i implies !occurs_at(s@, needle@, j) by {}
            }
            Some(i)
        },
        None => {
            assert forall|j: int| !occurs_at(s@, needle@, j) by {
                if j >= 0 {
                }
            }
            None
        },
    }
}

/// The piece of `s` between the first `sep` and the next (`s.split(sep).nth(1)`).
pub fn second_part(s: &str, sep: &str) -> (r: Option<String>)
    ensures
        text_opt(r) == second_piece(s@, sep@),
{
    let v = chars_of(s);
    let p = chars_of(sep);
    match find_text(&v, &p) {
        None => None,
        Some(i) => {
            let rest_text = slice_text(&v, i + p.len(), v.len());
            assert(rest_text@ =~= s@.skip(i + p.len()));
            let rest = chars_of(&rest_text);
            match find_text(&rest, &p) {
                None => Some(rest_text),
                Some(j) => {
                    assert(rest@.subrange(0, j as int) =~= rest@.take(j as int));
                    Some(slice_text(&rest, 0, j))
                },
            }
        },
    }
}

/// The run of characters other than white space at the front of `s`.
pub open spec fn word_front(s: Seq<char>) -> Seq<char>
    decreases s.len(),
{
    if s.len() > 0 && !white(s[0]) {
        seq![s[0]] + word_front(s.skip(1))
    } else {
        Seq::empty()
    }
}

/// The run of characters other than white space at the back of `s`.
pub open spec fn word_back(s: Seq<char>) -> Seq<char>
    decreases s.len(),
{
    if s.len() > 0 && !white(s.last()) {
        word_back(s.drop_last()).push(s.last())
    } else {
        Seq::empty()
    }
}

/// The first word of `s`; empty where there is none.
pub open spec fn first_word(s: Seq<char>) -> Seq<char> {
    word_front(trimmed_front(s))
}

/// The last word of `s`; empty where there is none.
pub open spec fn last_word(s: Seq<char>) -> Seq<char> {
    word_back(trimmed_back(s))
}

proof fn lemma_word_front(s: Seq<char>, n: int)
    requires
        0 <= n <= s.len(),
        forall|i: int| 0 <= i < n ==> !white(s[i]),
        n < s.len() ==> white(s[n]),
    ensures
        word_front(s) == s.take(n),
    decreases n,
{
    if n > 0 {
        lemma_word_front(s.skip(1), n - 1);
        assert(seq![s[0]] + s.skip(1).take(n - 1) =~= s.take(n));
    } else {
        assert(s.take(0) =~= Seq::<char>::empty());
    }
}

proof fn lemma_word_back(s: Seq<char>, lo: int)
    requires
        0 <= lo <= s.len(),
        forall|i: int| lo <= i < s.len() ==> !white(s[i]),
        lo > 0 ==> white(s[lo - 1]),
    ensures
        word_back(s) == s.skip(lo),
    decreases s.len() - lo,
{
    if lo < s.len() {
        lemma_word_back(s.drop_last(), lo);
        assert(s.drop_last().skip(lo).push(s.last()) =~= s.skip(lo));
    } else {
        assert(s.skip(lo) =~= Seq::<char>::empty());
    }
}

/// The first word of `s` (`split_whitespace().next()`), empty where there is none.
pub fn word_first(s: &str) -> (r: String)
    ensures
        r@ == first_word(s@),
{
    let v = chars_of(s);
    let lo = skip_while_white(&v, 0, true);
    let hi = skip_while_white(&v, lo, false);
    proof {
        lemma_trimmed_front(s@, lo as int);
        lemma_word_front(s@.skip(lo as int), hi - lo);
        assert(s@.skip(lo as int).take(hi - lo) =~= s@.subrange(lo as int, hi as int));
    }
    slice_text(&v, lo, hi)
}

/// The last word of `s` (`split_whitespace().last()`), empty where there is none.
pub fn word_last(s: &str) -> (r: String)
    ensures
        r@ == last_word(s@),
{
    let v = chars_of(s);
    let mut hi: usize = v.len();
    while hi > 0 && is_white(v[hi - 1])
        invariant
            hi <= v.len(),
            forall|j: int| hi <= j < v.len() ==> white(v@[j]),
        decreases hi,
    {
        hi = hi - 1;
    }
    let mut lo: usize = hi;
    while lo > 0 && !is_white(v[lo - 1])
        invariant
            lo <= hi <= v.len(),
            forall|j: int| lo <= j < hi ==> !white(v@[j]),
        decreases lo,
    {
        lo = lo - 1;
    }
    proof {
        lemma_trimmed_back(s@, hi as int);
        lemma_word_back(s@.take(hi as int), lo as int);
        assert(s@.take(hi as int).skip(lo as int) =~= s@.subrange(lo as int, hi as int));
    }
    slice_text(&v, lo, hi)
}

/// The items of `list`, with `sep` between each two.
pub open spec fn join(list: Seq<Seq<char>>, sep: Seq<char>) -> Seq<char>
    decreases list.len(),
{
    if list.len() == 0 {
        Seq::empty()
    } else if list.len() == 1 {
        list[0]
    } else {
        join(list.drop_last(), sep) + sep + list.last()
    }
}

/// The items of `list`, with `sep` between each two (`[String]::join`).
pub fn join_texts(list: &Vec<String>, sep: &str) -> (r: String)
    ensures
        r@ == join(texts(list@), sep@),
{
    let mut out = String::new();
    let mut i: usize = 0;
    assert(texts(list@).take(0) =~= Seq::<Seq<char>>::empty());
    while i < list.len()
        invariant
            i <= list.len(),
            out@ == join(texts(list@).take(i as int), sep@),
        decreases list.len() - i,
    {
        if i > 0 {
            out.append(sep);
        }
        out.append(list[i].as_str());
        i = i + 1;
        proof {
            let t = texts(list@).take(i as int);
            assert(t.drop_last() =~= texts(list@).take(i - 1));
            assert(t.last() == list@[i - 1]@);
            if i == 1 {
                assert(out@ =~= t[0]);
            }
        }
    }
    assert(texts(list@).take(i as int) =~= texts(list@));
    out
}

// ---------------------------------------------------------------------------
// Lists of strings, strings that may be absent
// ---------------------------------------------------------------------------

/// The characters of each string.
pub open spec fn texts(v: Seq<String>) -> Seq<Seq<char>> {
    Seq::new(v.len(), |i: int| v[i]@)
}

/// The characters of a string that may be absent.
pub open spec fn text_opt(o: Option<String>) -> Option<Seq<char>> {
    match o {
        Some(s) => Some(s@),
        None => None,
    }
}

/// The characters of a borrowed string that may be absent.
pub open spec fn str_opt(o: Option<&str>) -> Option<Seq<char>> {
    match o {
        Some(s) => Some(s@),
        None => None,
    }
}

/// A copy of a list of strings.
pub fn clone_texts(v: &Vec<String>) -> (r: Vec<String>)
    ensures
        texts(r@) == texts(v@),
{
    let mut out: Vec<String> = Vec::new();
    let mut i: usize = 0;
    while i < v.len()
        invariant
            i <= v.len(),
            texts(out@) == texts(v@).take(i as int),
        decreases v.len() - i,
    {
        let ghost before = out@;
        out.push(v[i].clone());
        i = i + 1;
        assert(texts(out@) =~= texts(before).push(v@[i - 1]@));
        assert(texts(v@).take(i as int) =~= texts(v@).take(i - 1).push(v@[i - 1]@));
    }
    assert(texts(v@).take(i as int) =~= texts(v@));
    out
}

/// A copy of a string that may be absent.
pub fn clone_opt(o: &Option<String>) -> (r: Option<String>)
    ensures
        text_opt(r) == text_opt(*o),
{
    match o {
        Some(s) => Some(s.clone()),
        None => None,
    }
}

/// A string that may be absent, borrowed (`Option::as_deref`).
pub fn borrow_opt(o: &Option<String>) -> (r: Option<&str>)
    ensures
        str_opt(r) == text_opt(*o),
{
    match o {
        Some(s) => Some(s.as_str()),
        None => None,
    }
}

/// The place of `s` in the list, if it is there.
pub fn position_of(v: &Vec<String>, s: &str) -> (r: Option<usize>)
    ensures
        match r {
            Some(i) => i < v.len() && v@[i as int]@ == s@ && forall|j: int|
                0 <= j < i ==> (#[trigger] v@[j])@ != s@,
            None => forall|j: int| 0 <= j < v.len() ==> (#[trigger] v@[j])@ != s@,
        },
{
    let wanted = s.to_owned();
    let mut i: usize = 0;
    while i < v.len()
        invariant
            i <= v.len(),
            wanted@ == s@,
            forall|j: int| 0 <= j < i ==> (#[trigger] v@[j])@ != s@,
        decreases v.len() - i,
    {
        if v[i] == wanted {
            return Some(i);
        }
        i = i + 1;
    }
    None
}

/// Whether `s` is in the list.
pub fn list_has(v: &Vec<String>, s: &str) -> (r: bool)
    ensures
        r == texts(v@).contains(s@),
{
    match position_of(v, s) {
        Some(i) => {
            assert(texts(v@)[i as int] == s@);
            true
        },
        None => false,
    }
}

/// Whether two lists hold the same strings in the same order.
pub fn same_texts(a: &Vec<String>, b: &Vec<String>) -> (r: bool)
    ensures
        r == (texts(a@) == texts(b@)),
{
    if a.len() != b.len() {
        assert(texts(a@).len() != texts(b@).len());
        return false;
    }
    let mut i: usize = 0;
    while i < a.len()
        invariant
            i <= a.len() == b.len(),
            forall|j: int| 0 <= j < i ==> (#[trigger] a@[j])@ == b@[j]@,
        decreases a.len() - i,
    {
        if a[i] != b[i] {
            assert(texts(a@)[i as int] != texts(b@)[i as int]);
            return false;
        }
        i = i + 1;
    }
    assert(texts(a@) =~= texts(b@));
    true
}

/// Whether two strings that may be absent are both absent, or both there and the same.
pub fn same_opt(a: Option<&str>, b: Option<&str>) -> (r: bool)
    ensures
        r == (str_opt(a) == str_opt(b)),
{
    match (a, b) {
        (Some(x), Some(y)) => same(x, y),
        (None, None) => true,
        _ => false,
    }
}

proof fn lemma_join_front(list: Seq<Seq<char>>, sep: Seq<char>)
    requires
        list.len() >= 2,
    ensures
        join(list, sep) == list[0] + sep + join(list.skip(1), sep),
    decreases list.len(),
{
    let rest = list.skip(1);
    if list.len() == 2 {
        assert(join(list.drop_last(), sep) == list[0]);
        assert(join(rest, sep) == list[1]);
    } else {
        let head = list.drop_last();
        lemma_join_front(head, sep);
        assert(head.skip(1) =~= rest.drop_last());
        assert(rest.last() == list.last());
        assert(join(list, sep) =~= list[0] + sep + (join(rest.drop_last(), sep) + sep
            + list.last()));
    }
}

/// Pieces without `c` in them come back from a text in which they were joined by it.
pub proof fn splitting_undoes_joining(list: Seq<Seq<char>>, c: char)
    requires
        list.len() > 0,
        forall|i: int| 0 <= i < list.len() ==> !(#[trigger] list[i]).contains(c),
    ensures
        split_on(join(list, seq![c]), c) == list,
    decreases list.len(),
{
    let s = join(list, seq![c]);
    let n = list[0].len() as int;
    if list.len() == 1 {
        assert forall|i: int| 0 <= i < n implies s[i] != c by {
            assert(list[0].contains(list[0][i]));
        }
        lemma_upto_is(s, c, n);
        assert(seq![s] =~= list);
    } else {
        let rest = list.skip(1);
        lemma_join_front(list, seq![c]);
        assert forall|i: int| 0 <= i < n implies s[i] != c by {
            assert(s[i] == list[0][i]);
            assert(list[0].contains(list[0][i]));
        }
        assert(s[n] == c);
        lemma_upto_is(s, c, n);
        assert(s.take(n) =~= list[0]);
        assert(s.skip(n + 1) =~= join(rest, seq![c]));
        assert forall|i: int| 0 <= i < rest.len() implies !(#[trigger] rest[i]).contains(c) by {
            assert(rest[i] == list[i + 1]);
        }
        splitting_undoes_joining(rest, c);
        assert(seq![list[0]] + rest =~= list);
    }
}

/// The pieces of a text do not hold what it was split on, and nothing that was not in it.
pub proof fn lemma_pieces(s: Seq<char>, c: char, i: int, d: char)
    requires
        0 <= i < split_on(s, c).len(),
    ensures
        !split_on(s, c)[i].contains(c),
        split_on(s, c)[i].contains(d) ==> s.contains(d),
    decreases s.len(),
{
    lemma_upto(s, c);
    let n = upto(s, c);
    let pieces = split_on(s, c);
    if n == s.len() {
        assert(pieces[i] == s);
        if s.contains(c) {
            let k = choose|k: int| 0 <= k < s.len() && s[k] == c;
            assert(s[k] != c);
        }
    } else {
        let rest = s.skip(n + 1);
        if i == 0 {
            let first = s.take(n);
            assert(pieces[0] == first);
            if first.contains(c) {
                let k = choose|k: int| 0 <= k < first.len() && first[k] == c;
                assert(s[k] != c);
            }
            if first.contains(d) {
                let k = choose|k: int| 0 <= k < first.len() && first[k] == d;
                assert(s[k] == d);
            }
        } else {
            assert(pieces[i] == split_on(rest, c)[i - 1]);
            lemma_pieces(rest, c, i - 1, d);
            if rest.contains(d) {
                let k = choose|k: int| 0 <= k < rest.len() && rest[k] == d;
                assert(s[n + 1 + k] == d);
            }
        }
    }
}

/// What is in a joined text was in one of the pieces, or between them.
pub proof fn lemma_joined_holds(list: Seq<Seq<char>>, sep: Seq<char>, d: char)
    requires
        forall|i: int| 0 <= i < list.len() ==> !(#[trigger] list[i]).contains(d),
        !sep.contains(d),
    ensures
        !join(list, sep).contains(d),
    decreases list.len(),
{
    if list.len() > 1 {
        let head = list.drop_last();
        assert forall|i: int| 0 <= i < head.len() implies !(#[trigger] head[i]).contains(d) by {
            assert(head[i] == list[i]);
        }
        lemma_joined_holds(head, sep, d);
        let s = join(list, sep);
        if s.contains(d) {
            let k = choose|k: int| 0 <= k < s.len() && s[k] == d;
            let a = join(head, sep);
            if k < a.len() {
                assert(a[k] == d);
            } else if k < a.len() + sep.len() {
                assert(sep[k - a.len()] == d);
            } else {
                assert(list[list.len() - 1][k - a.len() - sep.len()] == d);
                assert(list[list.len() - 1].contains(d));
            }
        }
    } else if list.len() == 1 {
        assert(!list[0].contains(d));
    }
}

}
