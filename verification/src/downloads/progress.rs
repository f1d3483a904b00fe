//! What the output of yt-dlp says of the progress of a download.
use vstd::prelude::*;

use crate::tasks::record;
use crate::tasks::record::{ProgressView, RateView, RuntimeState, RuntimeView, TaskProgress,
    TransferRate};
use crate::text;

verus! {

// ---------------------------------------------------------------------------
// Decimal numbers
// ---------------------------------------------------------------------------

/// A run of digits with at most one decimal point, and with at least one digit.
pub open spec fn mantissa(s: Seq<char>) -> bool {
    &&& forall|i: int| 0 <= i < s.len() ==> text::digit(#[trigger] s[i]) || s[i] == '.'
    &&& exists|i: int| 0 <= i < s.len() && text::digit(#[trigger] s[i])
    &&& forall|i: int, j: int|
        0 <= i < j < s.len() ==> !(#[trigger] s[i] == '.' && #[trigger] s[j] == '.')
}

/// What is left of a number once its sign is taken off, if it has one.
pub open spec fn without_sign(s: Seq<char>) -> Seq<char> {
    if s.len() > 0 && (s[0] == '+' || s[0] == '-') {
        s.skip(1)
    } else {
        s
    }
}

/// The mark of an exponent.
pub open spec fn exponent_mark(c: char) -> bool {
    c == 'e' || c == 'E'
}

/// An exponent: its mark, then a whole number.
pub open spec fn exponent(s: Seq<char>) -> bool {
    &&& s.len() > 0 && exponent_mark(s[0])
    &&& without_sign(s.skip(1)).len() > 0
    &&& text::all_digits(without_sign(s.skip(1)))
}

/// A number without a sign: digits with a decimal point or without, then an exponent or none.
pub open spec fn plain_number(s: Seq<char>) -> bool {
    mantissa(s) || exists|i: int|
        0 <= i < s.len() && mantissa(#[trigger] s.take(i)) && exponent(s.skip(i))
}

/// What reads as a decimal number: a number with a sign or without, infinity, or what is none.
pub open spec fn decimal_number(s: Seq<char>) -> bool {
    let body = without_sign(s);
    text::lowered(body) == "inf"@ || text::lowered(body) == "infinity"@ || text::lowered(body)
        == "nan"@ || plain_number(body)
}

fn is_mantissa(v: &Vec<char>, lo: usize, hi: usize) -> (r: bool)
    requires
        lo <= hi <= v.len(),
    ensures
        r == mantissa(v@.subrange(lo as int, hi as int)),
{
    let ghost s = v@.subrange(lo as int, hi as int);
    let mut digits: bool = false;
    let mut points: bool = false;
    let ghost mut digit_at: int = 0;
    let ghost mut point_at: int = 0;
    let mut i: usize = lo;
    while i < hi
        invariant
            lo <= i <= hi <= v.len(),
            s == v@.subrange(lo as int, hi as int),
            forall|j: int|
                0 <= j < i - lo ==> text::digit(#[trigger] s[j]) || s[j] == '.',
            digits ==> 0 <= digit_at < i - lo && text::digit(s[digit_at]),
            !digits ==> forall|j: int| 0 <= j < i - lo ==> !text::digit(#[trigger] s[j]),
            points ==> 0 <= point_at < i - lo && s[point_at] == '.' && forall|j: int|
                0 <= j < i - lo && j != point_at ==> #[trigger] s[j] != '.',
            !points ==> forall|j: int| 0 <= j < i - lo ==> #[trigger] s[j] != '.',
        decreases hi - i,
    {
        let c = v[i];
        assert(s[i - lo] == c);
        if text::is_digit(c) {
            digits = true;
            proof {
                digit_at = i - lo;
            }
        } else if c == '.' {
            if points {
                assert(s[point_at] == '.' && s[i - lo] == '.');
                return false;
            }
            points = true;
            proof {
                point_at = i - lo;
            }
        } else {
            return false;
        }
        i = i + 1;
    }
    digits
}

fn sign_length(v: &Vec<char>, from: usize) -> (r: usize)
    requires
        from <= v.len(),
    ensures
        from + r <= v.len(),
        v@.skip(from + r) == without_sign(v@.skip(from as int)),
{
    if from < v.len() && (v[from] == '+' || v[from] == '-') {
        assert(v@.skip(from as int)[0] == v@[from as int]);
        assert(v@.skip(from as int).skip(1) =~= v@.skip(from + 1));
        1
    } else {
        proof {
            if from < v.len() {
                assert(v@.skip(from as int)[0] == v@[from as int]);
            }
        }
        0
    }
}

fn is_exponent(v: &Vec<char>, from: usize) -> (r: bool)
    requires
        from < v.len(),
        exponent_mark(v@[from as int]),
    ensures
        r == exponent(v@.skip(from as int)),
{
    let ghost s = v@.skip(from as int);
    assert(s[0] == v@[from as int]);
    assert(s.skip(1) =~= v@.skip(from + 1));
    let start = from + 1 + sign_length(v, from + 1);
    let ghost number = without_sign(s.skip(1));
    assert(number == v@.skip(start as int));
    if start == v.len() {
        return false;
    }
    let mut i: usize = start;
    while i < v.len()
        invariant
            start <= i <= v.len(),
            number == v@.skip(start as int),
            number == without_sign(v@.skip(from as int).skip(1)),
            forall|j: int| 0 <= j < i - start ==> text::digit(#[trigger] number[j]),
        decreases v.len() - i,
    {
        assert(number[i - start] == v@[i as int]);
        if !text::is_digit(v[i]) {
            assert(!text::all_digits(number));
            return false;
        }
        i = i + 1;
    }
    true
}

proof fn lemma_mark_ends_mantissa(s: Seq<char>, i: int)
    requires
        0 <= i < s.len(),
        exponent_mark(s[i]),
        forall|j: int| 0 <= j < i ==> !exponent_mark(#[trigger] s[j]),
    ensures
        plain_number(s) <==> mantissa(s.take(i)) && exponent(s.skip(i)),
{
    assert(!mantissa(s)) by {
        if mantissa(s) {
            assert(text::digit(s[i]) || s[i] == '.');
        }
    }
    assert forall|k: int|
        0 <= k < s.len() && mantissa(#[trigger] s.take(k)) && exponent(s.skip(k)) implies k
        == i by {
        assert(s.skip(k)[0] == s[k]);
        if k > i {
            assert(s.take(k)[i] == s[i]);
            assert(text::digit(s.take(k)[i]) || s.take(k)[i] == '.');
        } else if k < i {
            assert(exponent_mark(s[k]));
        }
    }
}

/// Whether this reads as a decimal number.
pub fn is_decimal_number(s: &str) -> (r: bool)
    ensures
        r == decimal_number(s@),
{
    let v = text::chars_of(s);
    assert(v@.skip(0) =~= v@);
    let start = sign_length(&v, 0);
    let ghost body = without_sign(s@);
    assert(v@.skip(start as int) == body);
    let word = text::to_lower(text::slice_text(&v, start, v.len()).as_str());
    assert(v@.subrange(start as int, v.len() as int) =~= body);
    if text::same(word.as_str(), "inf") || text::same(word.as_str(), "infinity") || text::same(
        word.as_str(),
        "nan",
    ) {
        return true;
    }
    let mut i: usize = start;
    while i < v.len() && !(v[i] == 'e' || v[i] == 'E')
        invariant
            start <= i <= v.len(),
            body == v@.skip(start as int),
            forall|j: int| 0 <= j < i - start ==> !exponent_mark(#[trigger] body[j]),
        decreases v.len() - i,
    {
        assert(body[i - start] == v@[i as int]);
        i = i + 1;
    }
    let whole = is_mantissa(&v, start, i);
    assert(v@.subrange(start as int, i as int) =~= body.take(i - start));
    if i == v.len() {
        proof {
            assert(body.take(i - start) =~= body);
            assert forall|k: int| 0 <= k < body.len() implies !exponent(body.skip(k)) by {
                assert(body.skip(k)[0] == body[k]);
            }
        }
        return whole;
    }
    proof {
        assert(body[i - start] == v@[i as int]);
        lemma_mark_ends_mantissa(body, i - start);
        assert(body.skip(i - start) =~= v@.skip(i as int));
    }
    whole && is_exponent(&v, i)
}

// ---------------------------------------------------------------------------
// Rates and times
// ---------------------------------------------------------------------------

/// The text without its last `n` characters.
pub open spec fn without_end(s: Seq<char>, n: nat) -> Seq<char> {
    s.take(s.len() - n)
}

/// The rate of `number` units of so many bytes, where it reads as one.
pub open spec fn rate_of(number: Seq<char>, unit_bytes: u64) -> Option<RateView> {
    if decimal_number(text::trimmed(number)) {
        Some(RateView { number: text::trimmed(number), unit_bytes })
    } else {
        None
    }
}

/// The transfer rate that a word states.
pub open spec fn rate_in(word: Seq<char>) -> Option<RateView> {
    let s = text::trimmed(word);
    if text::ends(s, "KiB/s"@) {
        rate_of(without_end(s, 5), 1024)
    } else if text::ends(s, "MiB/s"@) {
        rate_of(without_end(s, 5), 1048576)
    } else if text::ends(s, "GiB/s"@) {
        rate_of(without_end(s, 5), 1073741824)
    } else if text::ends(s, "B/s"@) {
        rate_of(without_end(s, 3), 1)
    } else {
        None
    }
}

fn make_rate(number: &str, unit_bytes: u64) -> (r: Option<TransferRate>)
    ensures
        record::rate_opt(r) == rate_of(number@, unit_bytes),
{
    let number = text::trim(number);
    if is_decimal_number(number.as_str()) {
        Some(TransferRate { number, unit_bytes })
    } else {
        None
    }
}

fn cut_end(s: &str, n: usize) -> (r: String)
    requires
        n <= s@.len(),
    ensures
        r@ == without_end(s@, n as nat),
{
    let v = text::chars_of(s);
    let r = text::slice_text(&v, 0, v.len() - n);
    assert(v@.subrange(0, v.len() - n) =~= without_end(s@, n as nat));
    r
}

/// The transfer rate that a word states.
pub fn parse_rate_to_bytes(rate: &str) -> (r: Option<TransferRate>)
    ensures
        record::rate_opt(r) == rate_in(rate@),
{
    let s = text::trim(rate);
    proof {
        reveal_strlit("KiB/s");
        reveal_strlit("MiB/s");
        reveal_strlit("GiB/s");
        reveal_strlit("B/s");
    }
    if text::ends_with(s.as_str(), "KiB/s") {
        make_rate(cut_end(s.as_str(), 5).as_str(), 1024)
    } else if text::ends_with(s.as_str(), "MiB/s") {
        make_rate(cut_end(s.as_str(), 5).as_str(), 1048576)
    } else if text::ends_with(s.as_str(), "GiB/s") {
        make_rate(cut_end(s.as_str(), 5).as_str(), 1073741824)
    } else if text::ends_with(s.as_str(), "B/s") {
        make_rate(cut_end(s.as_str(), 3).as_str(), 1)
    } else {
        None
    }
}

/// The seconds that parts such as hours, minutes and seconds come to, each counting sixty times
/// as much as the one after it; `None` where a part is no number, or it comes to too much.
pub open spec fn seconds_of(parts: Seq<Seq<char>>) -> Option<nat>
    decreases parts.len(),
{
    if parts.len() == 0 {
        Some(0)
    } else {
        match (seconds_of(parts.drop_last()), text::unsigned(parts.last(), u64::MAX as nat)) {
            (Some(before), Some(part)) => if before * 60 + part <= u64::MAX {
                Some(before * 60 + part)
            } else {
                None
            },
            _ => None,
        }
    }
}

/// The seconds that a time such as `01:23` states.
pub open spec fn eta_in(word: Seq<char>) -> Option<nat> {
    seconds_of(text::split_on(word, ':'))
}

proof fn lemma_no_seconds(parts: Seq<Seq<char>>, n: int)
    requires
        0 <= n <= parts.len(),
        seconds_of(parts.take(n)) is None,
    ensures
        seconds_of(parts) is None,
    decreases parts.len() - n,
{
    if n < parts.len() {
        assert(parts.take(n + 1).drop_last() =~= parts.take(n));
        lemma_no_seconds(parts, n + 1);
    } else {
        assert(parts.take(n) =~= parts);
    }
}

/// The seconds that a time such as `01:23` states.
pub fn parse_eta_seconds(value: &str) -> (r: Option<u64>)
    ensures
        match r {
            Some(seconds) => eta_in(value@) == Some(seconds as nat),
            None => eta_in(value@) is None,
        },
{
    let parts = text::split_text(value, ':');
    let ghost all = text::texts(parts@);
    let mut seconds: u64 = 0;
    let mut i: usize = 0;
    assert(all.take(0) =~= Seq::<Seq<char>>::empty());
    while i < parts.len()
        invariant
            i <= parts.len(),
            all == text::texts(parts@),
            all == text::split_on(value@, ':'),
            seconds_of(all.take(i as int)) == Some(seconds as nat),
        decreases parts.len() - i,
    {
        assert(all.take(i + 1).drop_last() =~= all.take(i as int));
        assert(all.take(i + 1).last() == parts@[i as int]@);
        let next = match text::parse_unsigned(parts[i].as_str(), u64::MAX) {
            Some(part) => match seconds.checked_mul(60) {
                Some(scaled) => scaled.checked_add(part),
                None => None,
            },
            None => None,
        };
        match next {
            Some(sum) => {
                seconds = sum;
            },
            None => {
                assert(seconds_of(all.take(i + 1)) is None);
                proof {
                    lemma_no_seconds(all, i + 1);
                }
                return None;
            },
        }
        i = i + 1;
    }
    assert(all.take(i as int) =~= all);
    Some(seconds)
}

// ---------------------------------------------------------------------------
// Lines of output
// ---------------------------------------------------------------------------

/// The first word after `mark`; empty where there is none.
pub open spec fn word_after(line: Seq<char>, mark: Seq<char>) -> Seq<char> {
    match text::second_piece(line, mark) {
        Some(piece) => text::first_word(piece),
        None => Seq::empty(),
    }
}

fn find_word_after(line: &str, mark: &str) -> (r: String)
    ensures
        r@ == word_after(line@, mark@),
{
    match text::second_part(line, mark) {
        Some(piece) => text::word_first(piece.as_str()),
        None => {
            let none = String::new();
            assert(none@ =~= Seq::<char>::empty());
            none
        },
    }
}

/// The last word before the first percent sign.
pub open spec fn percent_word(line: Seq<char>) -> Seq<char> {
    text::last_word(text::split_on(line, '%')[0])
}

/// The progress that a line of output states; `None` where it states none. How much was
/// downloaded, and of how much, is carried on.
pub open spec fn progress_in(line: Seq<char>, previous: ProgressView) -> Option<ProgressView> {
    if text::occurs(line, "[download]"@) && text::occurs(line, "%"@) && percent_word(line).len() > 0
        && decimal_number(percent_word(line)) {
        Some(
            ProgressView {
                percent: percent_word(line),
                downloaded_bytes: previous.downloaded_bytes,
                total_bytes: previous.total_bytes,
                speed: if word_after(line, " at "@).len() > 0 {
                    rate_in(word_after(line, " at "@))
                } else {
                    None
                },
                eta_seconds: if word_after(line, " ETA "@).len() > 0 {
                    match eta_in(word_after(line, " ETA "@)) {
                        Some(seconds) => Some(seconds as u64),
                        None => None,
                    }
                } else {
                    None
                },
            },
        )
    } else {
        None
    }
}

/// What progress that may be absent says.
pub open spec fn progress_opt(progress: Option<TaskProgress>) -> Option<ProgressView> {
    match progress {
        Some(p) => Some(p@),
        None => None,
    }
}

/// The progress that a line of output states.
pub fn parse_progress_line(line: &str, previous: &TaskProgress) -> (r: Option<TaskProgress>)
    ensures
        progress_opt(r) == progress_in(line@, previous@),
{
    if !text::contains(line, "[download]") || !text::contains(line, "%") {
        return None;
    }
    let pieces = text::split_text(line, '%');
    proof {
        text::lemma_upto(line@, '%');
        assert(text::split_on(line@, '%').len() > 0);
        assert(text::texts(pieces@).len() == pieces@.len());
        assert(text::texts(pieces@)[0] == pieces@[0]@);
    }
    let percent = text::word_last(pieces[0].as_str());
    if percent.as_str().is_empty() || !is_decimal_number(percent.as_str()) {
        return None;
    }
    let rate = find_word_after(line, " at ");
    let speed = if rate.as_str().is_empty() {
        None
    } else {
        parse_rate_to_bytes(rate.as_str())
    };
    let eta = find_word_after(line, " ETA ");
    let eta_seconds = if eta.as_str().is_empty() {
        None
    } else {
        parse_eta_seconds(eta.as_str())
    };
    Some(
        TaskProgress {
            percent,
            downloaded_bytes: previous.downloaded_bytes,
            total_bytes: previous.total_bytes,
            speed,
            eta_seconds,
        },
    )
}

/// What is known of a download after a line of output.
pub open spec fn after_line(state: RuntimeView, line: Seq<char>) -> RuntimeView {
    let seen = match progress_in(line, state.progress) {
        Some(progress) => RuntimeView { progress, ..state },
        None => state,
    };
    seen.logged(line)
}

/// Takes in a line of output.
pub fn handle_output_line(state: &mut RuntimeState, line: &str)
    requires
        old(state).recent_logs@.len() < usize::MAX,
    ensures
        final(state)@ == after_line(old(state)@, line@),
{
    if let Some(progress) = parse_progress_line(line, &state.progress) {
        state.progress = progress;
    }
    state.push_log(line.to_owned());
}

/// What is known of a download after these lines of output.
pub open spec fn after_lines(state: RuntimeView, lines: Seq<Seq<char>>) -> RuntimeView
    decreases lines.len(),
{
    if lines.len() == 0 {
        state
    } else {
        after_line(after_lines(state, lines.drop_last()), lines.last())
    }
}

/// However much is put out, no more lines are kept than the window is wide; and only lines that
/// state progress change it.
pub proof fn output_stays_bounded(state: RuntimeView, lines: Seq<Seq<char>>)
    requires
        state.recent_logs.len() <= record::LOG_WINDOW,
    ensures
        after_lines(state, lines).recent_logs.len() <= record::LOG_WINDOW,
        (forall|i: int|
            0 <= i < lines.len() ==> !text::occurs(#[trigger] lines[i], "[download]"@))
            ==> after_lines(state, lines).progress == state.progress,
    decreases lines.len(),
{
    if lines.len() > 0 {
        let head = lines.drop_last();
        output_stays_bounded(state, head);
        if forall|i: int|
            0 <= i < lines.len() ==> !text::occurs(#[trigger] lines[i], "[download]"@) {
            assert forall|i: int| 0 <= i < head.len() implies !text::occurs(
                #[trigger] head[i],
                "[download]"@,
            ) by {
                assert(!text::occurs(lines[i], "[download]"@));
            }
            assert(!text::occurs(lines[lines.len() - 1], "[download]"@));
        }
    }
}

}
