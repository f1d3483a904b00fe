//! What is promised of the output of a running download.
use vstd::prelude::*;

use crate::downloads::progress;
use crate::laws::words;
use crate::tasks::record::{ProgressView, RuntimeView};
use crate::text;

verus! {

// ---------------------------------------------------------------------------
// Words behind a mark
// ---------------------------------------------------------------------------

/// All of it is white space.
pub open spec fn padding(s: Seq<char>) -> bool {
    forall|i: int| 0 <= i < s.len() ==> text::white(#[trigger] s[i])
}

/// A word: some characters, none of them white space.
pub open spec fn word(s: Seq<char>) -> bool {
    s.len() > 0 && forall|i: int| 0 <= i < s.len() ==> !text::white(#[trigger] s[i])
}

proof fn lemma_find(s: Seq<char>, needle: Seq<char>, i: int)
    requires
        text::occurs_at(s, needle, i),
        forall|j: int| 0 <= j < i ==> !text::occurs_at(s, needle, j),
    ensures
        text::find(s, needle) == Some(i),
{
    assert(text::occurs(s, needle));
    let k = text::find(s, needle)->0;
    assert(forall|j: int| j < i ==> !text::occurs_at(s, needle, j));
    assert(text::occurs_at(s, needle, k) && forall|j: int| j < k ==> !text::occurs_at(s, needle, j));
    if k < i {
        assert(!text::occurs_at(s, needle, k));
    }
    if i < k {
        assert(!text::occurs_at(s, needle, i));
    }
}

proof fn lemma_mark_comes_later(
    pad: Seq<char>,
    value: Seq<char>,
    after: Seq<char>,
    name: Seq<char>,
    j: int,
)
    requires
        padding(pad),
        word(value),
        word(name),
        value != name,
        after.len() > 0 ==> text::white(after[0]),
        text::occurs_at(pad + value + after, seq![' '] + name + seq![' '], j),
    ensures
        j >= pad.len() + value.len(),
{
    let rest = pad + value + after;
    let mark = seq![' '] + name + seq![' '];
    assert forall|k: int| 0 <= k < mark.len() implies rest[j + k] == mark[k] by {
        assert(rest.subrange(j, j + mark.len())[k] == mark[k]);
    }
    assert(rest[j] == mark[0]);
    assert(rest[j + 1] == mark[1]);
    assert(mark[1] == name[0]);
    if j < pad.len() + value.len() {
        if j >= pad.len() {
            assert(rest[j] == value[j - pad.len()]);
        } else {
            if j + 1 < pad.len() {
                assert(rest[j + 1] == pad[j + 1]);
            }
            assert(j + 1 == pad.len());
            assert forall|k: int| 0 <= k < name.len() && k < value.len() implies value[k]
                == name[k] by {
                assert(rest[j + 1 + k] == mark[1 + k]);
                assert(rest[j + 1 + k] == value[k]);
                assert(mark[1 + k] == name[k]);
            }
            if name.len() < value.len() {
                let k = name.len() as int;
                assert(rest[j + 1 + k] == mark[1 + k]);
                assert(rest[j + 1 + k] == value[k]);
            } else if value.len() < name.len() {
                let k = value.len() as int;
                assert(rest[j + 1 + k] == mark[1 + k]);
                assert(mark[1 + k] == name[k]);
                assert(rest[j + 1 + k] == after[0]);
            } else {
                assert(value =~= name);
            }
        }
    }
}

proof fn lemma_word_in_piece(
    pad: Seq<char>,
    value: Seq<char>,
    after: Seq<char>,
    name: Seq<char>,
    mark: Seq<char>,
    rest: Seq<char>,
)
    requires
        padding(pad),
        word(value),
        word(name),
        value != name,
        after.len() > 0 ==> text::white(after[0]),
        mark == seq![' '] + name + seq![' '],
        rest == pad + value + after,
    ensures
        text::first_word(
            match text::find(rest, mark) {
                Some(j) => rest.take(j),
                None => rest,
            },
        ) == value,
{
    let found = text::find(rest, mark);
    if text::occurs(rest, mark) {
        assert(found is Some && text::occurs_at(rest, mark, found->0)) by {
            lemma_least(rest, mark);
        }
        let j = found->0;
        lemma_word_before(pad, value, after, name, mark, rest, j);
    } else {
        assert(found is None);
        words::the_first_word_stands_alone(pad, value, after);
    }
}

proof fn lemma_word_before(
    pad: Seq<char>,
    value: Seq<char>,
    after: Seq<char>,
    name: Seq<char>,
    mark: Seq<char>,
    rest: Seq<char>,
    j: int,
)
    requires
        padding(pad),
        word(value),
        word(name),
        value != name,
        after.len() > 0 ==> text::white(after[0]),
        mark == seq![' '] + name + seq![' '],
        rest == pad + value + after,
        text::occurs_at(rest, mark, j),
    ensures
        text::first_word(rest.take(j)) == value,
{
    lemma_mark_comes_later(pad, value, after, name, j);
    let n = j - pad.len() - value.len();
    assert(0 <= n <= after.len());
    let fewer = after.take(n);
    assert(fewer.len() > 0 ==> fewer[0] == after[0]);
    assert(rest.take(j) =~= pad + value + fewer);
    words::the_first_word_stands_alone(pad, value, fewer);
}

proof fn lemma_second_piece(before: Seq<char>, mark: Seq<char>, rest: Seq<char>, line: Seq<char>)
    requires
        line == before + mark + rest,
        forall|j: int| 0 <= j < before.len() ==> !text::occurs_at(line, mark, j),
    ensures
        text::second_piece(line, mark) == Some(
            match text::find(rest, mark) {
                Some(j) => rest.take(j),
                None => rest,
            },
        ),
{
    let i = before.len() as int;
    assert(line.subrange(i, i + mark.len()) =~= mark);
    lemma_find(line, mark, i);
    assert(line.skip(i + mark.len()) =~= rest);
}

proof fn lemma_word_after(
    before: Seq<char>,
    name: Seq<char>,
    mark: Seq<char>,
    pad: Seq<char>,
    value: Seq<char>,
    after: Seq<char>,
    line: Seq<char>,
)
    requires
        padding(pad),
        word(value),
        word(name),
        value != name,
        after.len() > 0 ==> text::white(after[0]),
        mark == seq![' '] + name + seq![' '],
        line == before + mark + pad + value + after,
        forall|j: int| 0 <= j < before.len() ==> !text::occurs_at(line, mark, j),
    ensures
        progress::word_after(line, mark) == value,
{
    let rest = pad + value + after;
    assert(line =~= before + mark + rest);
    lemma_second_piece(before, mark, rest, line);
    lemma_word_in_piece(pad, value, after, name, mark, rest);
}

proof fn lemma_least(s: Seq<char>, needle: Seq<char>)
    requires
        text::occurs(s, needle),
    ensures
        text::find(s, needle) is Some,
        text::occurs_at(s, needle, text::find(s, needle)->0),
{
    let i = choose|i: int| text::occurs_at(s, needle, i);
    lemma_first(s, needle, i);
}

proof fn lemma_first(s: Seq<char>, needle: Seq<char>, i: int)
    requires
        text::occurs_at(s, needle, i),
    ensures
        text::find(s, needle) is Some,
        text::occurs_at(s, needle, text::find(s, needle)->0),
    decreases i,
{
    if exists|j: int| 0 <= j < i && text::occurs_at(s, needle, j) {
        let j = choose|j: int| 0 <= j < i && text::occurs_at(s, needle, j);
        lemma_first(s, needle, j);
    } else {
        lemma_find(s, needle, i);
    }
}

proof fn lemma_stated(line: Seq<char>, previous: ProgressView)
    ensures
        progress::progress_in(line, previous) matches Some(p) ==> {
            &&& progress::word_after(line, " at "@).len() > 0 ==> p.speed == progress::rate_in(
                progress::word_after(line, " at "@),
            )
            &&& progress::word_after(line, " ETA "@).len() > 0 ==> p.eta_seconds == (
            match progress::eta_in(progress::word_after(line, " ETA "@)) {
                Some(seconds) => Some(seconds as u64),
                None => None,
            })
        },
{
}

proof fn lemma_behind_at(
    before: Seq<char>,
    pad: Seq<char>,
    value: Seq<char>,
    after: Seq<char>,
    line: Seq<char>,
)
    requires
        padding(pad),
        word(value),
        value != "at"@,
        after.len() > 0 ==> text::white(after[0]),
        line == before + " at "@ + pad + value + after,
        forall|j: int| 0 <= j < before.len() ==> !text::occurs_at(line, " at "@, j),
    ensures
        progress::word_after(line, " at "@) == value,
{
    let name = "at"@;
    let mark = " at "@;
    assert(mark == seq![' '] + name + seq![' '] && word(name)) by {
        reveal_strlit(" at ");
        reveal_strlit("at");
        assert(mark =~= seq![' '] + name + seq![' ']);
    }
    lemma_word_after(before, name, mark, pad, value, after, line);
}

proof fn lemma_behind_eta(
    before: Seq<char>,
    pad: Seq<char>,
    value: Seq<char>,
    after: Seq<char>,
    line: Seq<char>,
)
    requires
        padding(pad),
        word(value),
        value != "ETA"@,
        after.len() > 0 ==> text::white(after[0]),
        line == before + " ETA "@ + pad + value + after,
        forall|j: int| 0 <= j < before.len() ==> !text::occurs_at(line, " ETA "@, j),
    ensures
        progress::word_after(line, " ETA "@) == value,
{
    let name = "ETA"@;
    let mark = " ETA "@;
    assert(mark == seq![' '] + name + seq![' '] && word(name)) by {
        reveal_strlit(" ETA ");
        reveal_strlit("ETA");
        assert(mark =~= seq![' '] + name + seq![' ']);
    }
    lemma_word_after(before, name, mark, pad, value, after, line);
}

/// The speed that a line states is that of the first word behind ` at `, however much white space
/// stands before it and whatever follows.
pub proof fn the_speed_stands_behind_at(
    before: Seq<char>,
    pad: Seq<char>,
    value: Seq<char>,
    after: Seq<char>,
    line: Seq<char>,
    previous: ProgressView,
)
    requires
        padding(pad),
        word(value),
        value != "at"@,
        after.len() > 0 ==> text::white(after[0]),
        line == before + " at "@ + pad + value + after,
        forall|j: int| 0 <= j < before.len() ==> !text::occurs_at(line, " at "@, j),
    ensures
        progress::progress_in(line, previous) matches Some(p) ==> p.speed == progress::rate_in(
            value,
        ),
{
    lemma_behind_at(before, pad, value, after, line);
    lemma_stated(line, previous);
}

/// The time left that a line states is that of the first word behind ` ETA `, however much white
/// space stands before it and whatever follows.
pub proof fn the_time_left_stands_behind_eta(
    before: Seq<char>,
    pad: Seq<char>,
    value: Seq<char>,
    after: Seq<char>,
    line: Seq<char>,
    previous: ProgressView,
)
    requires
        padding(pad),
        word(value),
        value != "ETA"@,
        after.len() > 0 ==> text::white(after[0]),
        line == before + " ETA "@ + pad + value + after,
        forall|j: int| 0 <= j < before.len() ==> !text::occurs_at(line, " ETA "@, j),
    ensures
        progress::progress_in(line, previous) matches Some(p) ==> p.eta_seconds == (
        match progress::eta_in(value) {
            Some(seconds) => Some(seconds as u64),
            None => None,
        }),
{
    lemma_behind_eta(before, pad, value, after, line);
    lemma_stated(line, previous);
}

/// More white space before the speed changes nothing of what is read as the speed, nor does more of
/// it before the time left change the time.
pub proof fn more_padding_reads_the_same(
    before: Seq<char>,
    pad: Seq<char>,
    more: Seq<char>,
    value: Seq<char>,
    after: Seq<char>,
    previous: ProgressView,
    later: ProgressView,
)
    requires
        padding(pad),
        padding(more),
        word(value),
        value != "at"@ && value != "ETA"@,
        after.len() > 0 ==> text::white(after[0]),
    ensures
        ({
            let one = before + " at "@ + pad + value + after;
            let two = before + " at "@ + more + value + after;
            (forall|j: int|
                0 <= j < before.len() ==> !text::occurs_at(one, " at "@, j) && !text::occurs_at(
                    two,
                    " at "@,
                    j,
                )) && progress::progress_in(one, previous) is Some && progress::progress_in(
                two,
                later,
            ) is Some ==> progress::progress_in(one, previous)->0.speed == progress::progress_in(
                two,
                later,
            )->0.speed
        }),
        ({
            let one = before + " ETA "@ + pad + value + after;
            let two = before + " ETA "@ + more + value + after;
            (forall|j: int|
                0 <= j < before.len() ==> !text::occurs_at(one, " ETA "@, j) && !text::occurs_at(
                    two,
                    " ETA "@,
                    j,
                )) && progress::progress_in(one, previous) is Some && progress::progress_in(
                two,
                later,
            ) is Some ==> progress::progress_in(one, previous)->0.eta_seconds
                == progress::progress_in(two, later)->0.eta_seconds
        }),
{
    let one = before + " at "@ + pad + value + after;
    let two = before + " at "@ + more + value + after;
    if forall|j: int|
        0 <= j < before.len() ==> !text::occurs_at(one, " at "@, j) && !text::occurs_at(
            two,
            " at "@,
            j,
        ) {
        the_speed_stands_behind_at(before, pad, value, after, one, previous);
        the_speed_stands_behind_at(before, more, value, after, two, later);
    }
    let three = before + " ETA "@ + pad + value + after;
    let four = before + " ETA "@ + more + value + after;
    if forall|j: int|
        0 <= j < before.len() ==> !text::occurs_at(three, " ETA "@, j) && !text::occurs_at(
            four,
            " ETA "@,
            j,
        ) {
        the_time_left_stands_behind_eta(before, pad, value, after, three, previous);
        the_time_left_stands_behind_eta(before, more, value, after, four, later);
    }
}

proof fn lemma_before_sign(before: Seq<char>, after: Seq<char>)
    requires
        !before.contains('%'),
    ensures
        text::split_on(before.push('%') + after, '%')[0] == before,
        text::occurs(before.push('%') + after, "%"@),
{
    reveal_strlit("%");
    let line = before.push('%') + after;
    text::lemma_upto(line, '%');
    let n = text::upto(line, '%');
    assert(line[before.len() as int] == '%');
    if n < before.len() {
        assert(before[n] == '%');
        assert(before.contains(before[n]));
    }
    assert(n == before.len());
    assert(line.take(n) =~= before);
    assert(line.subrange(n, n + 1) =~= "%"@);
    assert(text::occurs_at(line, "%"@, n));
}

/// A line states progress exactly when it is one of the download and the last word before its
/// first percent sign is a number, and then the percentage is that number. What is known of bytes
/// stays as it was. A line without ` at ` states no speed, and one without ` ETA ` no time left.
pub proof fn the_percentage_stands_before_the_sign(
    before: Seq<char>,
    value: Seq<char>,
    pad: Seq<char>,
    after: Seq<char>,
    previous: ProgressView,
)
    requires
        before.len() > 0 ==> text::white(before.last()),
        word(value),
        padding(pad),
        !before.contains('%'),
        !value.contains('%'),
    ensures
        ({
            let line = (before + value + pad).push('%') + after;
            let read = progress::progress_in(line, previous);
            &&& read is Some <==> text::occurs(line, "[download]"@) && progress::decimal_number(
                value,
            )
            &&& read matches Some(p) ==> {
                &&& p.percent == value
                &&& p.downloaded_bytes == previous.downloaded_bytes
                &&& p.total_bytes == previous.total_bytes
                &&& !text::occurs(line, " at "@) ==> p.speed is None
                &&& !text::occurs(line, " ETA "@) ==> p.eta_seconds is None
            }
        }),
{
    let head = before + value + pad;
    assert(!head.contains('%')) by {
        if head.contains('%') {
            let k = choose|k: int| 0 <= k < head.len() && head[k] == '%';
            if k < before.len() {
                assert(before[k] == '%');
                assert(before.contains(before[k]));
            } else if k < before.len() + value.len() {
                assert(value[k - before.len()] == '%');
                assert(value.contains(value[k - before.len()]));
            } else {
                assert(text::white(pad[k - before.len() - value.len()]));
            }
        }
    }
    lemma_before_sign(head, after);
    words::the_last_word_stands_alone(before, value, pad);
}

/// A line without a percent sign, or that is not one of the download, states no progress.
pub proof fn other_lines_state_no_progress(line: Seq<char>, previous: ProgressView)
    ensures
        !text::occurs(line, "[download]"@) ==> progress::progress_in(line, previous) is None,
        !text::occurs(line, "%"@) ==> progress::progress_in(line, previous) is None,
{
}

// ---------------------------------------------------------------------------
// Rates and times
// ---------------------------------------------------------------------------

/// A rate is a number with its unit behind it: bytes, or 1024, 1024 times 1024 or 1024 times 1024
/// times 1024 bytes, each second. White space around either does not count.
pub proof fn a_rate_is_read_in_its_unit(s: Seq<char>)
    ensures
        ({
            let t = text::trimmed(s);
            let kib = text::ends(t, "KiB/s"@);
            let mib = text::ends(t, "MiB/s"@);
            let gib = text::ends(t, "GiB/s"@);
            let plain = text::ends(t, "B/s"@) && !kib && !mib && !gib;
            let cut: int = if plain {
                3
            } else {
                5
            };
            let number = text::trimmed(t.take(t.len() - cut));
            let unit: int = if kib {
                1024
            } else if mib {
                1048576
            } else if gib {
                1073741824
            } else {
                1
            };
            &&& progress::rate_in(s) is Some <==> (kib || mib || gib || plain)
                && progress::decimal_number(number)
            &&& progress::rate_in(s) matches Some(rate) ==> rate.number == number
                && rate.unit_bytes == unit
        }),
{
    reveal_strlit("KiB/s");
    reveal_strlit("MiB/s");
    reveal_strlit("GiB/s");
    let t = text::trimmed(s);
    lemma_one_unit(t);
}

proof fn lemma_one_unit(t: Seq<char>)
    ensures
        !(text::ends(t, "KiB/s"@) && text::ends(t, "MiB/s"@)),
        !(text::ends(t, "KiB/s"@) && text::ends(t, "GiB/s"@)),
        !(text::ends(t, "MiB/s"@) && text::ends(t, "GiB/s"@)),
{
    reveal_strlit("KiB/s");
    reveal_strlit("MiB/s");
    reveal_strlit("GiB/s");
    let end = t.subrange(t.len() - 5, t.len() - 5 + 5);
    assert("KiB/s"@[0] == 'K');
    assert("MiB/s"@[0] == 'M');
    assert("GiB/s"@[0] == 'G');
}

proof fn lemma_split_push(s: Seq<char>, last: Seq<char>, c: char)
    requires
        !last.contains(c),
    ensures
        text::split_on(s.push(c) + last, c) == text::split_on(s, c).push(last),
{
    let pieces = text::split_on(s, c);
    words::joining_undoes_splitting(s, c);
    let more = pieces.push(last);
    assert forall|i: int| 0 <= i < more.len() implies !(#[trigger] more[i]).contains(c) by {
        if i < pieces.len() {
            text::lemma_pieces(s, c, i, c);
        }
    }
    words::joining_separates(pieces, last, seq![c]);
    assert(text::join(more, seq![c]) =~= s.push(c) + last);
    text::splitting_undoes_joining(more, c);
}

/// A time is read in seconds, minutes and hours: a number behind a colon counts for itself, and all
/// that stands before the colon for sixty times as much. What is too great to be counted, or is
/// no number, is no time.
pub proof fn times_are_read_in_sixties(s: Seq<char>, last: Seq<char>)
    requires
        !last.contains(':'),
    ensures
        ({
            let n = text::unsigned(last, 0xffff_ffff_ffff_ffff);
            let before = progress::eta_in(s);
            &&& progress::eta_in(last) == n
            &&& before is Some && n is Some && before->0 * 60 + n->0 <= 0xffff_ffff_ffff_ffff
                ==> progress::eta_in(s.push(':') + last) == Some(
                (before->0 * 60 + n->0) as nat,
            )
            &&& !(before is Some && n is Some && before->0 * 60 + n->0 <= 0xffff_ffff_ffff_ffff)
                ==> progress::eta_in(s.push(':') + last) is None
        }),
{
    lemma_split_push(s, last, ':');
    let pieces = text::split_on(s, ':');
    assert(pieces.push(last).drop_last() =~= pieces);
    text::lemma_upto(last, ':');
    if text::upto(last, ':') < last.len() {
        assert(last.contains(last[text::upto(last, ':')]));
    }
    assert(text::split_on(last, ':') =~= seq![last]);
    assert(seq![last].drop_last() =~= Seq::<Seq<char>>::empty());
    assert(progress::seconds_of(Seq::<Seq<char>>::empty()) == Some(0nat));
    assert(progress::seconds_of(seq![last]) == text::unsigned(last, 0xffff_ffff_ffff_ffff));
}

/// Digits make a number, with a decimal point among them or without, and with a sign before them or
/// without.
pub proof fn digits_make_a_number(a: Seq<char>, b: Seq<char>)
    requires
        forall|i: int| 0 <= i < a.len() ==> '0' <= #[trigger] a[i] <= '9',
        forall|i: int| 0 <= i < b.len() ==> '0' <= #[trigger] b[i] <= '9',
        a.len() > 0,
    ensures
        progress::decimal_number(a),
        progress::decimal_number(a.push('.') + b),
        progress::decimal_number(seq!['-'] + a),
        progress::decimal_number(seq!['+'] + a.push('.') + b),
{
    let point = a.push('.') + b;
    assert(text::digit(a[0]));
    assert(progress::mantissa(a));
    assert(point[0] == a[0]);
    assert forall|i: int| 0 <= i < point.len() implies text::digit(#[trigger] point[i]) || point[i]
        == '.' by {
        if i < a.len() {
            assert(point[i] == a[i]);
        } else if i > a.len() {
            assert(point[i] == b[i - a.len() - 1]);
        }
    }
    assert forall|i: int, j: int| 0 <= i < j < point.len() implies !(#[trigger] point[i] == '.'
        && #[trigger] point[j] == '.') by {
        if i < a.len() {
            assert(point[i] == a[i]);
        } else {
            assert(point[j] == b[j - a.len() - 1]);
        }
    }
    assert(progress::mantissa(point));
    assert((seq!['-'] + a).skip(1) =~= a);
    assert((seq!['+'] + a.push('.') + b).skip(1) =~= point);
}

/// A number holds digits, a sign, a decimal point and the mark of an exponent, or it is one of the
/// words for infinity and for what is none; and it is not empty.
pub proof fn other_characters_make_no_number(s: Seq<char>, i: int)
    requires
        0 <= i < s.len(),
        !('0' <= s[i] <= '9'),
        s[i] != '.' && s[i] != '+' && s[i] != '-' && s[i] != 'e' && s[i] != 'E',
        ({
            let t = text::lowered(
                if s[0] == '+' || s[0] == '-' {
                    s.skip(1)
                } else {
                    s
                },
            );
            t != "inf"@ && t != "infinity"@ && t != "nan"@
        }),
    ensures
        !progress::decimal_number(s),
        !progress::decimal_number(Seq::empty()),
{
    let body = progress::without_sign(s);
    let k: int = if s[0] == '+' || s[0] == '-' {
        i - 1
    } else {
        i
    };
    assert(body[k] == s[i]);
    if progress::plain_number(body) && !progress::mantissa(body) {
        let m = choose|m: int|
            0 <= m < body.len() && progress::mantissa(#[trigger] body.take(m))
                && progress::exponent(body.skip(m));
        let tail = body.skip(m);
        if k < m {
            assert(body.take(m)[k] == body[k]);
        } else {
            assert(tail[k - m] == body[k]);
            if k > m {
                let rest = tail.skip(1);
                assert(rest[k - m - 1] == body[k]);
                let digits = progress::without_sign(rest);
                if digits == rest {
                    assert(text::digit(digits[k - m - 1]));
                } else {
                    assert(digits[k - m - 2] == body[k]);
                }
            }
        }
    }
    let none = Seq::<char>::empty();
    reveal_strlit("inf");
    reveal_strlit("infinity");
    reveal_strlit("nan");
    assert(progress::without_sign(none) =~= none);
    assert(text::lowered(none).len() == 0);
    assert(!progress::mantissa(none));
}

/// A number may have an exponent behind its digits: `e` or `E`, a sign or none, and digits.
pub proof fn an_exponent_may_follow(
    number: Seq<char>,
    mark: char,
    sign: Seq<char>,
    digits: Seq<char>,
)
    requires
        progress::mantissa(number),
        mark == 'e' || mark == 'E',
        sign == Seq::<char>::empty() || sign == seq!['+'] || sign == seq!['-'],
        digits.len() > 0,
        forall|i: int| 0 <= i < digits.len() ==> '0' <= #[trigger] digits[i] <= '9',
    ensures
        progress::decimal_number(number.push(mark) + sign + digits),
{
    let s = number.push(mark) + sign + digits;
    let k = number.len() as int;
    assert(s.take(k) =~= number);
    let tail = s.skip(k);
    assert(tail[0] == mark);
    assert(tail.skip(1) =~= sign + digits);
    assert(text::digit(digits[0]));
    if sign.len() == 0 {
        assert(sign + digits =~= digits);
        assert(progress::without_sign(tail.skip(1)) =~= digits);
    } else {
        assert((sign + digits)[0] == sign[0]);
        assert((sign + digits).skip(1) =~= digits);
        assert(progress::without_sign(tail.skip(1)) =~= digits);
    }
    assert(text::all_digits(digits)) by {
        assert forall|i: int| 0 <= i < digits.len() implies text::digit(#[trigger] digits[i]) by {}
    }
    assert(progress::exponent(tail));
    assert(0 <= k < s.len());
    assert(progress::plain_number(s));
    assert(s[0] == number[0]);
    assert(number[0] != '+' && number[0] != '-') by {
        assert(text::digit(number[0]) || number[0] == '.');
    }
    assert(progress::without_sign(s) == s);
}

/// Two decimal points make no number, nor does a text without a digit that is none of the words for
/// infinity and for what is none.
pub proof fn a_number_has_one_point_and_a_digit(s: Seq<char>, i: int, j: int)
    ensures
        0 <= i < j < s.len() && s[i] == '.' && s[j] == '.' ==> !progress::decimal_number(s),
        (forall|k: int| 0 <= k < s.len() ==> !('0' <= #[trigger] s[k] <= '9')) && ({
            let t = text::lowered(
                if s.len() > 0 && (s[0] == '+' || s[0] == '-') {
                    s.skip(1)
                } else {
                    s
                },
            );
            t != "inf"@ && t != "infinity"@ && t != "nan"@
        }) ==> !progress::decimal_number(s),
{
    let body = progress::without_sign(s);
    let off: int = if s.len() > 0 && (s[0] == '+' || s[0] == '-') {
        1
    } else {
        0
    };
    assert(forall|k: int| 0 <= k < body.len() ==> #[trigger] body[k] == s[k + off]);
    if 0 <= i < j < s.len() && s[i] == '.' && s[j] == '.' {
        let a = i - off;
        let b = j - off;
        assert(body[a] == '.' && body[b] == '.');
        reveal_strlit("inf");
        reveal_strlit("infinity");
        reveal_strlit("nan");
        assert(text::lowered(body)[a] == '.');
        assert(!"inf"@.contains('.') && !"infinity"@.contains('.') && !"nan"@.contains('.'));
        assert(text::lowered(body).contains('.'));
        assert(!progress::mantissa(body));
        if exists|k: int|
            0 <= k < body.len() && progress::mantissa(#[trigger] body.take(k))
                && progress::exponent(body.skip(k)) {
            let k = choose|k: int|
                0 <= k < body.len() && progress::mantissa(#[trigger] body.take(k))
                    && progress::exponent(body.skip(k));
            let tail = body.skip(k);
            if b < k {
                assert(body.take(k)[a] == '.' && body.take(k)[b] == '.');
            } else {
                assert(tail[b - k] == '.');
                let ds = progress::without_sign(tail.skip(1));
                assert(b != k);
                assert(tail.skip(1)[b - k - 1] == '.');
                if ds == tail.skip(1) {
                    assert(text::digit(ds[b - k - 1]));
                } else {
                    assert(b - k - 1 != 0);
                    assert(ds[b - k - 2] == '.');
                    assert(text::digit(ds[b - k - 2]));
                }
            }
        }
    }
    if forall|k: int| 0 <= k < s.len() ==> !('0' <= #[trigger] s[k] <= '9') {
        assert forall|k: int| 0 <= k < body.len() implies !text::digit(#[trigger] body[k]) by {
            assert(body[k] == s[k + off]);
        }
        assert(!progress::mantissa(body));
        if exists|k: int|
            0 <= k < body.len() && progress::mantissa(#[trigger] body.take(k))
                && progress::exponent(body.skip(k)) {
            let k = choose|k: int|
                0 <= k < body.len() && progress::mantissa(#[trigger] body.take(k))
                    && progress::exponent(body.skip(k));
            let m = choose|m: int|
                0 <= m < body.take(k).len() && text::digit(#[trigger] body.take(k)[m]);
            assert(text::digit(body[m]));
        }
    }
}

// ---------------------------------------------------------------------------
// Logs
// ---------------------------------------------------------------------------

/// Every line of output is the last of the log, which holds the last two hundred; a line that
/// speaks of an error is also kept for the end. Only a line that states progress changes it.
pub proof fn every_line_is_logged(state: RuntimeView, line: Seq<char>)
    ensures
        ({
            let after = progress::after_line(state, line);
            &&& after.recent_logs.last() == line
            &&& state.recent_logs.len() < 200 ==> after.recent_logs == state.recent_logs.push(line)
            &&& state.recent_logs.len() >= 200 ==> after.recent_logs == state.recent_logs.push(
                line,
            ).skip(1)
            &&& text::occurs(text::lowered(line), "error"@) ==> after.error_hints
                == state.error_hints.push(line)
            &&& !text::occurs(text::lowered(line), "error"@) ==> after.error_hints
                == state.error_hints
            &&& after.progress == (match progress::progress_in(line, state.progress) {
                Some(p) => p,
                None => state.progress,
            })
        }),
{
}

}
