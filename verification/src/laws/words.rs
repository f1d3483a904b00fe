//! What is promised of texts.
use vstd::prelude::*;

use crate::json;
use crate::json::JsonView;
use crate::order;
use crate::text;

verus! {

// ---------------------------------------------------------------------------
// Parts of a text
// ---------------------------------------------------------------------------

/// A text begins with what stands at its front, ends with what stands at its back, and holds what
/// stands anywhere in it.
pub proof fn parts_are_found(before: Seq<char>, part: Seq<char>, after: Seq<char>)
    ensures
        text::begins(part + after, part),
        text::ends(before + part, part),
        text::occurs(before + part + after, part),
{
    assert((part + after).subrange(0, part.len() as int) =~= part);
    let s = before + part;
    assert(s.subrange(s.len() - part.len(), s.len() as int) =~= part);
    let whole = before + part + after;
    assert(whole.subrange(before.len() as int, (before.len() + part.len()) as int) =~= part);
    assert(text::occurs_at(whole, part, before.len() as int));
}

/// What a text begins with, ends with or holds, stands there.
pub proof fn what_is_found_is_there(s: Seq<char>, part: Seq<char>)
    ensures
        text::begins(s, part) ==> part.len() <= s.len() && s.take(part.len() as int) == part,
        text::ends(s, part) ==> part.len() <= s.len() && s.skip(s.len() - part.len()) == part,
        text::occurs(s, part) ==> exists|i: int|
            0 <= i <= s.len() - part.len() && #[trigger] s.subrange(i, i + part.len()) == part,
{
    if text::begins(s, part) {
        assert(s.take(part.len() as int) =~= s.subrange(0, part.len() as int));
    }
    if text::ends(s, part) {
        let at = s.len() - part.len();
        assert(s.skip(at) =~= s.subrange(at, at + part.len()));
    }
    if text::occurs(s, part) {
        let i = choose|i: int| text::occurs_at(s, part, i);
        assert(s.subrange(i, i + part.len()) == part);
    }
}

/// The characters that count as white space: those with the Unicode property White_Space.
pub proof fn white_space_is_unicode_white_space(c: char)
    ensures
        text::white(c) <==> (c == '\t' || c == '\n' || c == '\u{b}' || c == '\u{c}' || c == '\r'
            || c == ' ' || c == '\u{85}' || c == '\u{a0}' || c == '\u{1680}' || c == '\u{2000}' || c
            == '\u{2001}' || c == '\u{2002}' || c == '\u{2003}' || c == '\u{2004}' || c
            == '\u{2005}' || c == '\u{2006}' || c == '\u{2007}' || c == '\u{2008}' || c
            == '\u{2009}' || c == '\u{200a}' || c == '\u{2028}' || c == '\u{2029}' || c
            == '\u{202f}' || c == '\u{205f}' || c == '\u{3000}'),
{
}

proof fn lemma_front(s: Seq<char>) -> (n: int)
    ensures
        0 <= n <= s.len(),
        text::trimmed_front(s) == s.skip(n),
        forall|i: int| 0 <= i < n ==> text::white(#[trigger] s[i]),
        n < s.len() ==> !text::white(s[n]),
    decreases s.len(),
{
    if s.len() > 0 && text::white(s[0]) {
        let m = lemma_front(s.skip(1));
        assert(s.skip(1).skip(m) =~= s.skip(m + 1));
        assert forall|i: int| 0 <= i < m + 1 implies text::white(#[trigger] s[i]) by {
            if i > 0 {
                assert(s.skip(1)[i - 1] == s[i]);
            }
        }
        m + 1
    } else {
        assert(s.skip(0) =~= s);
        0
    }
}

proof fn lemma_back(s: Seq<char>) -> (n: int)
    ensures
        0 <= n <= s.len(),
        text::trimmed_back(s) == s.take(n),
        forall|i: int| n <= i < s.len() ==> text::white(#[trigger] s[i]),
        n > 0 ==> !text::white(s[n - 1]),
    decreases s.len(),
{
    if s.len() > 0 && text::white(s.last()) {
        let m = lemma_back(s.drop_last());
        assert(s.drop_last().take(m) =~= s.take(m));
        assert forall|i: int| m <= i < s.len() implies text::white(#[trigger] s[i]) by {
            if i < s.len() - 1 {
                assert(s.drop_last()[i] == s[i]);
            }
        }
        m
    } else {
        assert(s.take(s.len() as int) =~= s);
        s.len() as int
    }
}

/// White space around a text does not count, and nothing else is taken off: what is trimmed
/// begins and ends with the first and the last character that is none.
pub proof fn trimming_takes_white_space_off(before: Seq<char>, s: Seq<char>, after: Seq<char>)
    requires
        forall|i: int| 0 <= i < before.len() ==> text::white(#[trigger] before[i]),
        forall|i: int| 0 <= i < after.len() ==> text::white(#[trigger] after[i]),
        s.len() > 0 ==> !text::white(s[0]) && !text::white(s.last()),
    ensures
        text::trimmed(before + s + after) == s,
        text::blank(before + s + after) <==> s.len() == 0,
{
    let whole = before + s + after;
    let n = lemma_front(whole);
    let rest = whole.skip(n);
    let m = lemma_back(rest);
    if s.len() > 0 {
        if n < before.len() {
            assert(whole[n] == before[n]);
        }
        if n > before.len() {
            assert(whole[before.len() as int] == s[0]);
        }
        assert(rest =~= s + after);
        if m < s.len() {
            assert(rest[s.len() - 1] == s.last());
        }
        if m > s.len() {
            assert(rest[m - 1] == after[m - 1 - s.len()]);
        }
        assert(rest.take(m) =~= s);
    } else {
        assert(whole =~= before + after);
        if n < whole.len() {
            if n < before.len() {
                assert(whole[n] == before[n]);
            } else {
                assert(whole[n] == after[n - before.len()]);
            }
        }
        assert(rest.take(m) =~= s);
    }
}

/// A text in lower case differs in its capital letters alone, each of which stands 32 places
/// before the small one.
pub proof fn lower_case_changes_capitals_alone(s: Seq<char>, i: int)
    requires
        0 <= i < s.len(),
    ensures
        text::lowered(s).len() == s.len(),
        'A' <= s[i] <= 'Z' ==> text::lowered(s)[i] as u32 == s[i] as u32 + 32,
        !('A' <= s[i] <= 'Z') ==> text::lowered(s)[i] == s[i],
{
    let c = s[i];
    if 'A' <= c <= 'Z' {
        assert(((c as u32 + 32) as u32) as char as u32 == c as u32 + 32);
    }
}

/// Exactly the characters that are to be replaced are.
pub proof fn replacing_changes_one_character(s: Seq<char>, from: char, to: char, i: int)
    requires
        0 <= i < s.len(),
    ensures
        text::replaced(s, from, to).len() == s.len(),
        s[i] == from ==> text::replaced(s, from, to)[i] == to,
        s[i] != from ==> text::replaced(s, from, to)[i] == s[i],
{
}

/// Joining puts the separator between each two texts, and nowhere else.
pub proof fn joining_separates(list: Seq<Seq<char>>, last: Seq<char>, sep: Seq<char>)
    ensures
        text::join(Seq::<Seq<char>>::empty(), sep).len() == 0,
        text::join(seq![last], sep) == last,
        list.len() > 0 ==> text::join(list.push(last), sep) == text::join(list, sep) + sep + last,
{
    assert(list.push(last).drop_last() =~= list);
}

/// The pieces of a text are what stands between the separators: put together again they are the
/// text.
pub proof fn joining_undoes_splitting(s: Seq<char>, c: char)
    ensures
        text::join(text::split_on(s, c), seq![c]) == s,
        text::split_on(s, c).len() > 0,
    decreases s.len(),
{
    text::lemma_upto(s, c);
    let n = text::upto(s, c);
    if n < s.len() {
        let rest = s.skip(n + 1);
        joining_undoes_splitting(rest, c);
        lemma_join_before(s.take(n), text::split_on(rest, c), seq![c]);
        assert(s.take(n) + seq![c] + rest =~= s);
    }
}

proof fn lemma_join_before(first: Seq<char>, list: Seq<Seq<char>>, sep: Seq<char>)
    requires
        list.len() > 0,
    ensures
        text::join(seq![first] + list, sep) == first + sep + text::join(list, sep),
    decreases list.len(),
{
    let all = seq![first] + list;
    if list.len() == 1 {
        assert(all.drop_last() =~= seq![first]);
        assert(text::join(seq![first], sep) == first);
        assert(all.last() == list[0]);
    } else {
        assert(all.drop_last() =~= seq![first] + list.drop_last());
        lemma_join_before(first, list.drop_last(), sep);
        assert(all.last() == list.last());
        assert(text::join(all, sep) =~= first + sep + text::join(list, sep));
    }
}

/// The first word of a text is what stands between the white space at its front and the next
/// white space, however much of either there is.
pub proof fn the_first_word_stands_alone(before: Seq<char>, word: Seq<char>, after: Seq<char>)
    requires
        forall|i: int| 0 <= i < before.len() ==> text::white(#[trigger] before[i]),
        forall|i: int| 0 <= i < word.len() ==> !text::white(#[trigger] word[i]),
        after.len() > 0 ==> text::white(after[0]),
        word.len() == 0 ==> after.len() == 0,
    ensures
        text::first_word(before + word + after) == word,
{
    let whole = before + word + after;
    let n = lemma_front(whole);
    if word.len() > 0 {
        if n < before.len() {
            assert(whole[n] == before[n]);
        }
        if n > before.len() {
            assert(whole[before.len() as int] == word[0]);
        }
        assert(whole.skip(n) =~= word + after);
    } else {
        assert(whole =~= before);
        if n < whole.len() {
            assert(whole[n] == before[n]);
        }
        assert(whole.skip(n) =~= word + after);
    }
    lemma_word_front(word, after);
}

proof fn lemma_word_front(word: Seq<char>, after: Seq<char>)
    requires
        forall|i: int| 0 <= i < word.len() ==> !text::white(#[trigger] word[i]),
        after.len() > 0 ==> text::white(after[0]),
    ensures
        text::word_front(word + after) == word,
    decreases word.len(),
{
    let s = word + after;
    if word.len() > 0 {
        assert(s[0] == word[0]);
        assert(s.skip(1) =~= word.skip(1) + after);
        assert forall|i: int| 0 <= i < word.skip(1).len() implies !text::white(
            #[trigger] word.skip(1)[i],
        ) by {
            assert(word.skip(1)[i] == word[i + 1]);
        }
        lemma_word_front(word.skip(1), after);
        assert(seq![s[0]] + word.skip(1) =~= word);
    } else {
        assert(s =~= after);
    }
}

/// The last word of a text is what stands between the last white space but for that at its back.
pub proof fn the_last_word_stands_alone(before: Seq<char>, word: Seq<char>, after: Seq<char>)
    requires
        before.len() > 0 ==> text::white(before.last()),
        forall|i: int| 0 <= i < word.len() ==> !text::white(#[trigger] word[i]),
        forall|i: int| 0 <= i < after.len() ==> text::white(#[trigger] after[i]),
        word.len() == 0 ==> before.len() == 0,
    ensures
        text::last_word(before + word + after) == word,
{
    let whole = before + word + after;
    let n = lemma_back(whole);
    let end = before.len() + word.len();
    if n < end && word.len() > 0 {
        assert(whole[end - 1] == word[word.len() - 1]);
    }
    if n > end {
        assert(whole[n - 1] == after[n - 1 - end]);
    }
    assert(whole.take(n) =~= before + word);
    lemma_word_back(before, word);
}

proof fn lemma_word_back(before: Seq<char>, word: Seq<char>)
    requires
        before.len() > 0 ==> text::white(before.last()),
        forall|i: int| 0 <= i < word.len() ==> !text::white(#[trigger] word[i]),
    ensures
        text::word_back(before + word) == word,
    decreases word.len(),
{
    let s = before + word;
    if word.len() > 0 {
        assert(s.last() == word.last());
        assert(s.drop_last() =~= before + word.drop_last());
        assert forall|i: int| 0 <= i < word.drop_last().len() implies !text::white(
            #[trigger] word.drop_last()[i],
        ) by {
            assert(word.drop_last()[i] == word[i]);
        }
        lemma_word_back(before, word.drop_last());
        assert(word.drop_last().push(word.last()) =~= word);
    } else {
        assert(s =~= before);
    }
}

// ---------------------------------------------------------------------------
// Numbers
// ---------------------------------------------------------------------------

/// A number is written in digits, the greatest first, without zeros before it.
pub proof fn numbers_are_written_in_digits(n: nat, digit: nat)
    requires
        digit < 10,
    ensures
        text::decimal(digit).len() == 1,
        text::decimal(digit)[0] as u32 == '0' as u32 + digit,
        n > 0 ==> text::decimal(n * 10 + digit) == text::decimal(n) + text::decimal(digit),
{
    assert(n > 0 ==> n * 10 + digit >= 10);
    assert((n * 10 + digit) / 10 == n);
    assert((n * 10 + digit) % 10 == digit);
    if n > 0 {
        assert(text::decimal(n) + text::decimal(digit) =~= text::decimal(n).push(
            text::digit_char(digit),
        ));
    }
}

/// What was written as a number is read as that number, with a plus sign before it or without, as
/// long as it is not too great; and what holds anything but digits is no number.
pub proof fn numbers_are_read_back(n: nat, max: nat, s: Seq<char>, i: int)
    ensures
        text::unsigned(text::decimal(n), max) == (if n <= max {
            Some(n)
        } else {
            None
        }),
        text::unsigned(seq!['+'] + text::decimal(n), max) == text::unsigned(
            text::decimal(n),
            max,
        ),
        s.len() == 0 ==> text::unsigned(s, max) is None,
        0 <= i < s.len() && !('0' <= s[i] <= '9') && !(i == 0 && s[0] == '+') ==> text::unsigned(
            s,
            max,
        ) is None,
{
    text::decimal_reads_back(n);
    let d = text::decimal(n);
    assert(text::digit(d[0]));
    assert((seq!['+'] + d).skip(1) =~= d);
    if 0 <= i < s.len() && !('0' <= s[i] <= '9') && !(i == 0 && s[0] == '+') {
        if s[0] == '+' {
            assert(s.skip(1)[i - 1] == s[i]);
        }
        assert(!text::digit(s[i]));
    }
}

/// Digits are read from the greatest to the least: one more at the end counts for itself, and all
/// before it for ten times as much.
pub proof fn digits_count_by_their_place(s: Seq<char>, c: char, max: nat)
    requires
        '0' <= c <= '9',
        s.len() > 0 ==> s[0] != '+',
        text::unsigned(s, max) matches Some(n) && n * 10 + (c as u32 - '0' as u32) <= max,
    ensures
        text::unsigned(s.push(c), max) == Some(
            (text::unsigned(s, max)->0 * 10 + (c as u32 - '0' as u32)) as nat,
        ),
{
    let longer = s.push(c);
    assert(longer.drop_last() =~= s);
    assert(longer[0] == s[0]);
    assert forall|i: int| 0 <= i < longer.len() implies text::digit(#[trigger] longer[i]) by {
        if i < s.len() {
            assert(text::digit(s[i]));
        }
    }
}

// ---------------------------------------------------------------------------
// Order
// ---------------------------------------------------------------------------

/// Texts are ordered by their first characters that differ; a text comes before every longer one
/// that begins with it.
pub proof fn texts_are_ordered_by_their_characters(
    common: Seq<char>,
    a: Seq<char>,
    b: Seq<char>,
)
    ensures
        order::lex_le(common, common + b),
        b.len() > 0 ==> !order::lex_le(common + b, common),
        a.len() > 0 && b.len() > 0 && a[0] < b[0] ==> order::lex_le(common + a, common + b)
            && !order::lex_le(common + b, common + a),
    decreases common.len(),
{
    if common.len() > 0 {
        texts_are_ordered_by_their_characters(common.skip(1), a, b);
        assert((common + a).skip(1) =~= common.skip(1) + a);
        assert((common + b).skip(1) =~= common.skip(1) + b);
    } else {
        assert(common + a =~= a);
        assert(common + b =~= b);
    }
}

// ---------------------------------------------------------------------------
// Documents
// ---------------------------------------------------------------------------

/// A member of an object is found by its name, the first of several; nothing else has members.
pub proof fn members_are_found_by_name(
    before: Seq<(Seq<char>, JsonView)>,
    key: Seq<char>,
    value: JsonView,
    after: Seq<(Seq<char>, JsonView)>,
)
    requires
        forall|i: int| 0 <= i < before.len() ==> (#[trigger] before[i]).0 != key,
    ensures
        json::member(JsonView::Object(before.push((key, value)) + after), key) == Some(value),
        json::member(JsonView::Object(before), key) is None,
    decreases before.len(),
{
    let whole = before.push((key, value)) + after;
    if before.len() > 0 {
        let rest = before.skip(1);
        assert(whole[0] == before[0]);
        assert(whole.skip(1) =~= rest.push((key, value)) + after);
        assert forall|i: int| 0 <= i < rest.len() implies (#[trigger] rest[i]).0 != key by {
            assert(rest[i] == before[i + 1]);
        }
        members_are_found_by_name(rest, key, value, after);
        assert(json::members(JsonView::Object(rest)) == rest);
    } else {
        assert(whole[0] == (key, value));
    }
}

/// Only an object has members, only a string says a text, only an unsigned integer a number, and
/// only an array has items.
pub proof fn values_say_what_they_are(value: JsonView, key: Seq<char>)
    ensures
        value !is Object ==> json::member(value, key) is None,
        json::text_in(Some(value)) == (match value {
            JsonView::Text(s) => Some(s),
            _ => None,
        }),
        json::number_in(Some(value)) == (match value {
            JsonView::Number(n) => n,
            _ => None,
        }),
        json::items_in(Some(value)) == (match value {
            JsonView::Array(items) => Some(items),
            _ => None,
        }),
        json::text_in(None) is None && json::number_in(None) is None && json::items_in(None) is None,
{
}

}
