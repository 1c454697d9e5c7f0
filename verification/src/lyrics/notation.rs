//! Lyrics as providers write them, and the laws that they are read as they are
//! written.

use crate::lyrics::parse::{
    behind, clock, headed, joined, plain_line, prefixed, qrc_words, row_lines, spans, stamp,
    stamped, timing, worded_line, yrc_words, Layout, MILLISECOND, SECOND,
};
use crate::lyrics::{LineView, WordView};
use crate::number::{
    all_digits, digit, digits_of, lemma_both_digits, lemma_digits_are_read, lemma_digits_of,
    lemma_overflow_is_huge, lemma_pointed_is_read, natural, number, ten_to, ABOVE,
};
use crate::text::{lemma_position, position, trim, trim_end, trim_start, white};
use vstd::prelude::*;

verus! {

/// A word as it is sung, in whole milliseconds.
#[verifier::ext_equal]
pub struct Sung {
    pub at: int,
    pub duration: int,
    pub text: Seq<char>,
}

/// The most milliseconds that a time can tell.
pub open spec fn last_millisecond() -> int {
    (ABOVE - 1) / 10_000
}

/// Whether words can be written: their times can be told, and no bracket stands
/// in their text.
pub open spec fn writable(words: Seq<Sung>) -> bool {
    forall|i: int|
        #![trigger words[i]]
        0 <= i < words.len() ==> {
            &&& 0 <= words[i].at <= last_millisecond()
            &&& 0 <= words[i].duration <= last_millisecond()
            &&& !words[i].text.contains('(')
        }
}

/// Words as they are read, in ticks.
pub open spec fn timed_words(words: Seq<Sung>) -> Seq<WordView> {
    Seq::new(
        words.len(),
        |i: int|
            WordView {
                at: (words[i].at * 10_000) as i64,
                duration: (words[i].duration * 10_000) as i64,
                text: words[i].text,
            },
    )
}

/// What stands in the brackets of a timing group.
pub open spec fn pair(at: int, duration: int) -> Seq<char> {
    digits_of(at) + seq![','] + digits_of(duration)
}

/// Words with each timing group behind its text.
pub open spec fn suffixed(words: Seq<Sung>) -> Seq<char>
    decreases words.len(),
{
    if words.len() == 0 {
        Seq::empty()
    } else {
        words[0].text + (seq!['('] + pair(words[0].at, words[0].duration) + seq![')'] + suffixed(
            words.drop_first(),
        ))
    }
}

/// Words with each timing group, of three numbers, before its text.
pub open spec fn led(words: Seq<Sung>) -> Seq<char>
    decreases words.len(),
{
    if words.len() == 0 {
        Seq::empty()
    } else {
        seq!['('] + (pair(words[0].at, words[0].duration) + seq![',', '0']) + seq![')'] + (
        words[0].text + led(words.drop_first()))
    }
}

/// A row with its start and length before its body.
pub open spec fn timed_row(start: int, length: int, body: Seq<char>) -> Seq<char> {
    seq!['['] + pair(start, length) + seq![']'] + body
}

/// A stamp of minutes, seconds and a fraction of a second.
pub open spec fn written_stamp(minutes: Seq<char>, seconds: Seq<char>, part: Seq<char>) -> Seq<
    char,
> {
    minutes + seq![':'] + (seconds + seq!['.'] + part)
}

proof fn lemma_first_at(s: Seq<char>, c: char, from: int, k: int)
    requires
        0 <= from <= k < s.len(),
        s[k] == c,
        forall|i: int| from <= i < k ==> s[i] != c,
    ensures
        position(s, c, from) == k,
{
    lemma_position(s, c, from);
}

proof fn lemma_trim_digits(s: Seq<char>)
    requires
        all_digits(s),
        s.len() > 0,
    ensures
        trim(s) == s,
{
    assert(digit(s[0]));
    assert(digit(s[s.len() - 1]));
    assert(!white(s[0]) && !white(s.last()));
    assert(trim_start(s) == s);
    assert(trim_end(s) == s);
}

proof fn lemma_powers()
    ensures
        ten_to(4) == 10_000,
        ten_to(7) == 10_000_000,
{
    reveal_with_fuel(ten_to, 8);
}

proof fn lemma_milliseconds(n: int)
    requires
        0 <= n <= last_millisecond(),
    ensures
        number(trim(digits_of(n)), MILLISECOND as int) == Some(n * 10_000),
{
    lemma_digits_of(n);
    lemma_trim_digits(digits_of(n));
    lemma_overflow_is_huge();
    lemma_digits_are_read(digits_of(n), 4);
    lemma_powers();
}

proof fn lemma_digits_hold(n: int, c: char)
    requires
        n >= 0,
        !digit(c),
    ensures
        !digits_of(n).contains(c),
{
    lemma_digits_of(n);
    if digits_of(n).contains(c) {
        let i = choose|i: int| 0 <= i < digits_of(n).len() && digits_of(n)[i] == c;
        assert(digit(digits_of(n)[i]));
    }
}

/// A pair of numbers is a timing, with or without more behind a third comma.
proof fn lemma_timing(at: int, duration: int, more: Seq<char>)
    requires
        0 <= at <= last_millisecond(),
        0 <= duration <= last_millisecond(),
        more.len() == 0 || more[0] == ',',
    ensures
        timing(pair(at, duration) + more) == Some((at * 10_000, duration * 10_000)),
{
    let first = digits_of(at);
    let second = digits_of(duration);
    let s = pair(at, duration) + more;
    lemma_digits_hold(at, ',');
    lemma_digits_hold(duration, ',');
    assert forall|i: int| 0 <= i < first.len() implies s[i] != ',' by {
        assert(s[i] == first[i]);
        assert(first.contains(first[i]));
    }
    assert(s[first.len() as int] == ',');
    lemma_first_at(s, ',', 0, first.len() as int);
    assert(s.take(first.len() as int) =~= first);
    let rest = behind(s, first.len() as int);
    assert(rest =~= second + more);
    assert forall|i: int| 0 <= i < second.len() implies rest[i] != ',' by {
        assert(rest[i] == second[i]);
        assert(second.contains(second[i]));
    }
    if more.len() == 0 {
        lemma_position(rest, ',', 0);
    } else {
        assert(rest[second.len() as int] == ',');
        lemma_first_at(rest, ',', 0, second.len() as int);
    }
    assert(rest.take(position(rest, ',', 0)) =~= second);
    lemma_milliseconds(at);
    lemma_milliseconds(duration);
}

proof fn lemma_pair_has_no(at: int, duration: int, c: char)
    requires
        at >= 0,
        duration >= 0,
        !digit(c),
        c != ',',
    ensures
        forall|i: int| 0 <= i < pair(at, duration).len() ==> #[trigger] pair(at, duration)[i] != c,
{
    let first = digits_of(at);
    let second = digits_of(duration);
    lemma_digits_hold(at, c);
    lemma_digits_hold(duration, c);
    assert forall|i: int| 0 <= i < pair(at, duration).len() implies #[trigger] pair(
        at,
        duration,
    )[i] != c by {
        if i < first.len() {
            assert(pair(at, duration)[i] == first[i]);
            assert(first.contains(first[i]));
        } else if i > first.len() {
            let k = i - first.len() - 1;
            assert(pair(at, duration)[i] == second[k]);
            assert(second.contains(second[k]));
        }
    }
}

/// Text without a bracket goes to the word that is being read.
proof fn lemma_spans_text(text: Seq<char>, rest: Seq<char>, before: Seq<char>)
    requires
        !text.contains('('),
    ensures
        spans(text + rest, before) == spans(rest, before + text),
    decreases text.len(),
{
    if text.len() == 0 {
        assert(text + rest =~= rest);
        assert(before + text =~= before);
    } else {
        assert(text.contains(text[0]));
        let tail = text.drop_first();
        assert forall|i: int| 0 <= i < tail.len() implies tail[i] != '(' by {
            assert(tail[i] == text[i + 1]);
            assert(text.contains(text[i + 1]));
        }
        assert((text + rest).drop_first() =~= tail + rest);
        assert((text + rest)[0] == text[0]);
        lemma_spans_text(tail, rest, before.push(text[0]));
        assert(before.push(text[0]) + tail =~= before + text);
    }
}

/// Where a group ends, and what stands in it and behind it.
proof fn lemma_group(inner: Seq<char>, rest: Seq<char>)
    requires
        forall|i: int| 0 <= i < inner.len() ==> #[trigger] inner[i] != ')',
    ensures
        ({
            let body = seq!['('] + inner + seq![')'] + rest;
            &&& position(body, ')', 1) == inner.len() + 1
            &&& body.subrange(1, position(body, ')', 1)) == inner
            &&& behind(body, position(body, ')', 1)) == rest
        }),
{
    let body = seq!['('] + inner + seq![')'] + rest;
    let close = (inner.len() + 1) as int;
    assert forall|i: int| 1 <= i < close implies body[i] != ')' by {
        assert(body[i] == inner[i - 1]);
    }
    assert(body[close] == ')');
    lemma_first_at(body, ')', 1, close);
    assert(body.subrange(1, close) =~= inner);
    assert(behind(body, close) =~= rest);
}

proof fn lemma_spans_suffixed(words: Seq<Sung>)
    requires
        writable(words),
    ensures
        spans(suffixed(words), Seq::empty()) == (timed_words(words), Seq::<char>::empty()),
    decreases words.len(),
{
    if words.len() == 0 {
        assert(timed_words(words) =~= Seq::<WordView>::empty());
    } else {
        let one = words[0];
        let others = words.drop_first();
        assert forall|i: int| #![trigger others[i]] 0 <= i < others.len() implies {
            &&& 0 <= others[i].at <= last_millisecond()
            &&& 0 <= others[i].duration <= last_millisecond()
            &&& !others[i].text.contains('(')
        } by {
            assert(others[i] == words[i + 1]);
        }
        lemma_spans_suffixed(others);
        let inner = pair(one.at, one.duration);
        let rest = suffixed(others);
        let body = seq!['('] + inner + seq![')'] + rest;
        lemma_spans_text(one.text, body, Seq::empty());
        assert(Seq::<char>::empty() + one.text =~= one.text);
        lemma_pair_has_no(one.at, one.duration, ')');
        lemma_group(inner, rest);
        lemma_timing(one.at, one.duration, Seq::empty());
        assert(inner + Seq::<char>::empty() =~= inner);
        assert(body[0] == '(');
        let word = WordView {
            at: (one.at * 10_000) as i64,
            duration: (one.duration * 10_000) as i64,
            text: one.text,
        };
        assert(spans(body, one.text) == (
            seq![word] + timed_words(others),
            Seq::<char>::empty(),
        ));
        assert(seq![word] + timed_words(others) =~= timed_words(words));
    }
}

/// Words whose timing groups follow them are read with the times and the text
/// that were written.
pub proof fn law_suffixed_words_are_read(words: Seq<Sung>)
    requires
        writable(words),
    ensures
        qrc_words(suffixed(words)) == timed_words(words),
{
    lemma_spans_suffixed(words);
    let read = timed_words(words);
    if read.len() > 0 {
        assert(read.last().text + Seq::<char>::empty() =~= read.last().text);
        assert(read.drop_last().push(read.last()) =~= read);
    }
}

/// What stands before the next bracket makes no word.
proof fn lemma_next_group(text: Seq<char>, rest: Seq<char>)
    requires
        !text.contains('('),
        rest.len() == 0 || rest[0] == '(',
    ensures
        position(text + rest, '(', 0) == text.len(),
        (text + rest).take(text.len() as int) == text,
        (text + rest).skip(text.len() as int) == rest,
{
    let all = text + rest;
    assert forall|i: int| 0 <= i < text.len() implies all[i] != '(' by {
        assert(all[i] == text[i]);
        assert(text.contains(text[i]));
    }
    if rest.len() == 0 {
        lemma_position(all, '(', 0);
    } else {
        assert(all[text.len() as int] == '(');
        lemma_first_at(all, '(', 0, text.len() as int);
    }
    assert(all.take(text.len() as int) =~= text);
    assert(all.skip(text.len() as int) =~= rest);
}

proof fn lemma_led(words: Seq<Sung>)
    requires
        writable(words),
        forall|i: int| 0 <= i < words.len() ==> (#[trigger] words[i]).text.len() > 0,
    ensures
        prefixed(led(words)) == timed_words(words),
        words.len() > 0 ==> led(words).len() > 0 && led(words)[0] == '(',
    decreases words.len(),
{
    if words.len() == 0 {
        assert(timed_words(words) =~= Seq::<WordView>::empty());
    } else {
        let one = words[0];
        let others = words.drop_first();
        assert forall|i: int| #![trigger others[i]] 0 <= i < others.len() implies {
            &&& 0 <= others[i].at <= last_millisecond()
            &&& 0 <= others[i].duration <= last_millisecond()
            &&& !others[i].text.contains('(')
            &&& others[i].text.len() > 0
        } by {
            assert(others[i] == words[i + 1]);
        }
        lemma_led(others);
        let more = seq![',', '0'];
        let inner = pair(one.at, one.duration) + more;
        let rest = one.text + led(others);
        let body = seq!['('] + inner + seq![')'] + rest;
        lemma_pair_has_no(one.at, one.duration, ')');
        assert forall|i: int| 0 <= i < inner.len() implies #[trigger] inner[i] != ')' by {
            let front = pair(one.at, one.duration);
            if i < front.len() {
                assert(inner[i] == front[i]);
            }
        }
        lemma_group(inner, rest);
        lemma_timing(one.at, one.duration, more);
        lemma_next_group(one.text, led(others));
        assert(body[0] == '(');
        assert(led(words) == body);
        let word = WordView {
            at: (one.at * 10_000) as i64,
            duration: (one.duration * 10_000) as i64,
            text: one.text,
        };
        assert(prefixed(body) == seq![word] + timed_words(others));
        assert(seq![word] + timed_words(others) =~= timed_words(words));
    }
}

/// Words whose timing groups go before them are read with the times and the
/// text that were written.
pub proof fn law_led_words_are_read(words: Seq<Sung>)
    requires
        writable(words),
        words.len() > 0,
        forall|i: int| 0 <= i < words.len() ==> (#[trigger] words[i]).text.len() > 0,
    ensures
        yrc_words(led(words)) == timed_words(words),
{
    lemma_led(words);
    assert(trim_start(led(words)) == led(words));
}

/// A row is read with the start that was written, whatever its length.
pub proof fn law_row_heads_are_read(start: int, length: int, body: Seq<char>)
    requires
        0 <= start <= last_millisecond(),
        length >= 0,
    ensures
        headed(timed_row(start, length, body)) == Some((start * 10_000, body)),
{
    let row = timed_row(start, length, body);
    let inner = pair(start, length);
    let close = (inner.len() + 1) as int;
    lemma_pair_has_no(start, length, ']');
    assert forall|i: int| 1 <= i < close implies row[i] != ']' by {
        assert(row[i] == inner[i - 1]);
    }
    assert(row[close] == ']');
    lemma_first_at(row, ']', 1, close);
    assert(row.subrange(1, close) =~= inner);
    assert(behind(row, close) =~= body);
    let first = digits_of(start);
    lemma_digits_hold(start, ',');
    assert forall|i: int| 0 <= i < first.len() implies inner[i] != ',' by {
        assert(inner[i] == first[i]);
        assert(first.contains(first[i]));
    }
    assert(inner[first.len() as int] == ',');
    lemma_first_at(inner, ',', 0, first.len() as int);
    assert(inner.take(first.len() as int) =~= first);
    lemma_milliseconds(start);
    assert(row[0] == '[');
}

/// A QRC row of words that show something is read as the line that was written.
pub proof fn law_qrc_rows_are_read(start: int, length: int, words: Seq<Sung>)
    requires
        0 <= start <= last_millisecond(),
        length >= 0,
        writable(words),
        trim(joined(timed_words(words))).len() > 0,
    ensures
        row_lines(Layout::Qrc, timed_row(start, length, suffixed(words))) == seq![
            worded_line(start * 10_000, timed_words(words)),
        ],
{
    law_row_heads_are_read(start, length, suffixed(words));
    law_suffixed_words_are_read(words);
}

/// A YRC row in either layout is read as the line that was written; it starts
/// where its first word does.
pub proof fn law_yrc_rows_are_read(start: int, length: int, words: Seq<Sung>)
    requires
        0 <= start <= last_millisecond(),
        length >= 0,
        writable(words),
        words.len() > 0,
        forall|i: int| 0 <= i < words.len() ==> (#[trigger] words[i]).text.len() > 0,
        trim(joined(timed_words(words))).len() > 0,
    ensures
        row_lines(Layout::Yrc, timed_row(start, length, led(words))) == seq![
            worded_line(words[0].at * 10_000, timed_words(words)),
        ],
{
    law_row_heads_are_read(start, length, led(words));
    law_led_words_are_read(words);
}

proof fn lemma_natural(digits: Seq<char>)
    requires
        all_digits(digits),
    ensures
        natural(digits) >= 0,
    decreases digits.len(),
{
    if digits.len() > 0 {
        let front = digits.drop_last();
        assert forall|i: int| 0 <= i < front.len() implies digit(#[trigger] front[i]) by {
            assert(front[i] == digits[i]);
        }
        assert(digit(digits[digits.len() - 1]));
        lemma_natural(front);
    }
}

/// More digits make no smaller number.
proof fn lemma_front_is_smaller(a: Seq<char>, b: Seq<char>)
    requires
        all_digits(a),
        all_digits(b),
    ensures
        natural(a) <= natural(a + b),
    decreases b.len(),
{
    if b.len() == 0 {
        assert(a + b =~= a);
    } else {
        let shorter = b.drop_last();
        assert forall|i: int| 0 <= i < shorter.len() implies digit(#[trigger] shorter[i]) by {
            assert(shorter[i] == b[i]);
        }
        lemma_front_is_smaller(a, shorter);
        lemma_both_digits(a, shorter);
        lemma_natural(a + shorter);
        assert((a + b).drop_last() =~= a + shorter);
        assert((a + b).last() == b.last());
        assert(digit(b[b.len() - 1]));
    }
}

proof fn lemma_ten_to_is_positive(k: int)
    ensures
        ten_to(k) > 0,
    decreases k,
{
    if k > 0 {
        lemma_ten_to_is_positive(k - 1);
    }
}

/// Where a stamp is split.
proof fn lemma_stamp_parts(minutes: Seq<char>, seconds: Seq<char>, part: Seq<char>)
    requires
        all_digits(minutes),
        all_digits(seconds),
        all_digits(part),
    ensures
        ({
            let s = written_stamp(minutes, seconds, part);
            let colon = position(s, ':', 0);
            &&& colon == minutes.len()
            &&& colon < s.len()
            &&& s.take(colon) == minutes
            &&& behind(s, colon).map_values(
                |c: char|
                    if c == ':' {
                        '.'
                    } else {
                        c
                    },
            ) == seconds + seq!['.'] + part
        }),
{
    let rest = seconds + seq!['.'] + part;
    let s = written_stamp(minutes, seconds, part);
    let colon = minutes.len() as int;
    assert forall|i: int| 0 <= i < colon implies s[i] != ':' by {
        assert(s[i] == minutes[i]);
        assert(digit(minutes[i]));
    }
    assert(s[colon] == ':');
    lemma_first_at(s, ':', 0, colon);
    assert(s.take(colon) =~= minutes);
    assert(behind(s, colon) =~= rest);
    assert forall|i: int| 0 <= i < rest.len() implies #[trigger] rest[i] != ':' by {
        if i < seconds.len() {
            assert(rest[i] == seconds[i]);
            assert(digit(seconds[i]));
        } else if i > seconds.len() {
            assert(rest[i] == part[i - seconds.len() - 1]);
            assert(digit(part[i - seconds.len() - 1]));
        }
    }
    assert(behind(s, colon).map_values(
        |c: char|
            if c == ':' {
                '.'
            } else {
                c
            },
    ) =~= rest);
}

/// A stamp is read as its minutes and seconds, with the fraction to the tick.
pub proof fn law_stamps_are_read(minutes: Seq<char>, seconds: Seq<char>, part: Seq<char>)
    requires
        all_digits(minutes),
        all_digits(seconds),
        all_digits(part),
        minutes.len() > 0,
        seconds.len() + part.len() > 0,
        part.len() <= SECOND,
        natural(minutes) <= 10_000_000_000,
        natural(seconds + part) * ten_to(SECOND - part.len()) <= 1_000_000_000_000_000_000,
    ensures
        stamp(written_stamp(minutes, seconds, part)) == Some(
            natural(minutes) * 600_000_000 + natural(seconds + part) * ten_to(
                SECOND - part.len(),
            ),
        ),
{
    lemma_stamp_parts(minutes, seconds, part);
    lemma_trim_digits(minutes);
    lemma_overflow_is_huge();
    lemma_powers();
    lemma_natural(minutes);
    lemma_both_digits(seconds, part);
    lemma_natural(seconds + part);
    lemma_ten_to_is_positive(7 - part.len());
    lemma_front_is_smaller(seconds, part);
    let whole = natural(minutes) * 10_000_000;
    let power = ten_to(7 - part.len());
    let count = natural(seconds + part);
    assert(0 <= count * power) by (nonlinear_arith)
        requires
            count >= 0,
            power > 0,
    ;
    assert(count <= count * power) by (nonlinear_arith)
        requires
            count >= 0,
            power >= 1,
    ;
    lemma_digits_are_read(minutes, 7);
    lemma_pointed_is_read(seconds, part, 7);
    let rest = natural(seconds + part) * ten_to(7 - part.len());
    assert(number(trim(minutes), SECOND as int) == Some(whole));
    assert(number(seconds + seq!['.'] + part, SECOND as int) == Some(rest));
    assert(clock(whole, rest) == whole * 60 + rest);
}

/// A row with one stamp and a text that shows something is read as one line.
pub proof fn law_lrc_rows_are_read(front: Seq<char>, at: int, text: Seq<char>)
    requires
        !front.contains(']'),
        stamp(front) == Some(at),
        trim(text).len() > 0,
        text[0] != '[',
    ensures
        row_lines(Layout::Lrc, seq!['['] + front + seq![']'] + text) == seq![
            plain_line(at, trim(text)),
        ],
{
    let row = seq!['['] + front + seq![']'] + text;
    let close = (front.len() + 1) as int;
    assert forall|i: int| 1 <= i < close implies row[i] != ']' by {
        assert(row[i] == front[i - 1]);
        assert(front.contains(front[i - 1]));
    }
    assert(row[close] == ']');
    assert(row[0] == '[');
    lemma_first_at(row, ']', 1, close);
    assert(row.subrange(1, close) =~= front);
    assert(row.skip(close + 1) =~= text);
    assert(stamped(text) == (Seq::<i64>::empty(), text));
    assert(seq![at as i64] + Seq::<i64>::empty() =~= seq![at as i64]);
    assert(stamped(row) == (seq![at as i64], text));
    assert(row_lines(Layout::Lrc, row) =~= seq![plain_line(at as i64 as int, trim(text))]);
}

/// A row that begins with a stamp makes a line for it, and then the lines that
/// it makes without it; all lines of a row show the same text.
pub proof fn law_repeated_stamps_share_their_text(front: Seq<char>, at: int, rest: Seq<char>)
    requires
        !front.contains(']'),
        stamp(front) == Some(at),
        row_lines(Layout::Lrc, rest).len() > 0,
    ensures
        row_lines(Layout::Lrc, seq!['['] + front + seq![']'] + rest) == seq![
            LineView { at: at as i64, ..row_lines(Layout::Lrc, rest)[0] },
        ] + row_lines(Layout::Lrc, rest),
{
    let row = seq!['['] + front + seq![']'] + rest;
    lemma_stamped_row(front, rest);
    let text = stamped(rest).1;
    let others = stamped(rest).0;
    assert(stamped(row) == (seq![at as i64] + others, text));
    let made = (seq![at as i64] + others).map_values(|at: i64| plain_line(at as int, trim(text)));
    assert(row_lines(Layout::Lrc, row) =~= made);
    assert(row_lines(Layout::Lrc, rest)[0] == plain_line(others[0] as int, trim(text)));
    assert(made =~= seq![plain_line(at as i64 as int, trim(text))] + row_lines(Layout::Lrc, rest));
}

/// Brackets at the head of an LRC row that hold no time are passed over.
pub proof fn law_brackets_without_a_time_are_passed_over(front: Seq<char>, rest: Seq<char>)
    requires
        !front.contains(']'),
        stamp(front) is None,
    ensures
        row_lines(Layout::Lrc, seq!['['] + front + seq![']'] + rest) == row_lines(
            Layout::Lrc,
            rest,
        ),
{
    lemma_stamped_row(front, rest);
}

proof fn lemma_stamped_row(front: Seq<char>, rest: Seq<char>)
    requires
        !front.contains(']'),
    ensures
        stamped(seq!['['] + front + seq![']'] + rest) == match stamp(front) {
            Some(at) => (seq![at as i64] + stamped(rest).0, stamped(rest).1),
            None => stamped(rest),
        },
{
    let row = seq!['['] + front + seq![']'] + rest;
    let close = (front.len() + 1) as int;
    assert forall|i: int| 1 <= i < close implies row[i] != ']' by {
        assert(row[i] == front[i - 1]);
        assert(front.contains(front[i - 1]));
    }
    assert(row[close] == ']');
    assert(row[0] == '[');
    lemma_first_at(row, ']', 1, close);
    assert(row.subrange(1, close) =~= front);
    assert(row.skip(close + 1) =~= rest);
}

/// A row without a stamp makes no line, and neither does one without a text.
pub proof fn law_rows_without_stamp_or_text_make_no_line(row: Seq<char>, front: Seq<char>)
    requires
        row.len() == 0 || row[0] != '[',
        !front.contains(']'),
    ensures
        row_lines(Layout::Lrc, row).len() == 0,
        row_lines(Layout::Qrc, row).len() == 0,
        row_lines(Layout::Yrc, row).len() == 0,
        row_lines(Layout::Translation, row).len() == 0,
        row_lines(Layout::Lrc, seq!['['] + front + seq![']']).len() == 0,
{
    lemma_stamped_row(front, Seq::empty());
    assert(seq!['['] + front + seq![']'] + Seq::<char>::empty() =~= seq!['['] + front + seq![
        ']',
    ]);
    assert(trim(Seq::<char>::empty()).len() == 0);
}

/// A line that is read holds what was written and nothing else: an LRC row its
/// stamp and its trimmed text, a QRC row its start and its words, a YRC row its
/// words and the start of the first, a translated row its start and its trimmed
/// text.
pub proof fn law_lines_hold_what_was_written(
    front: Seq<char>,
    at: int,
    text: Seq<char>,
    start: int,
    length: int,
    words: Seq<Sung>,
)
    requires
        !front.contains(']'),
        stamp(front) == Some(at),
        trim(text).len() > 0,
        text[0] != '[',
        !text.contains('('),
        0 <= start <= 900_000_000_000_000,
        length >= 0,
        words.len() > 0,
        forall|i: int|
            #![trigger words[i]]
            0 <= i < words.len() ==> {
                &&& 0 <= words[i].at <= 900_000_000_000_000
                &&& 0 <= words[i].duration <= 900_000_000_000_000
                &&& words[i].text.len() > 0
                &&& !words[i].text.contains('(')
            },
        trim(joined(timed_words(words))).len() > 0,
    ensures
        row_lines(Layout::Lrc, seq!['['] + front + seq![']'] + text) == seq![
            LineView { at: at as i64, text: trim(text), translation: None, words: Seq::empty() },
        ],
        row_lines(Layout::Qrc, timed_row(start, length, suffixed(words))) == seq![
            LineView {
                at: (start * 10_000) as i64,
                text: joined(timed_words(words)),
                translation: None,
                words: timed_words(words),
            },
        ],
        row_lines(Layout::Yrc, timed_row(start, length, led(words))) == seq![
            LineView {
                at: (words[0].at * 10_000) as i64,
                text: joined(timed_words(words)),
                translation: None,
                words: timed_words(words),
            },
        ],
        row_lines(Layout::Translation, timed_row(start, length, text)) == seq![
            LineView {
                at: (start * 10_000) as i64,
                text: trim(text),
                translation: None,
                words: Seq::empty(),
            },
        ],
        row_lines(Layout::Translation, timed_row(start, length, suffixed(words))) == seq![
            LineView {
                at: (start * 10_000) as i64,
                text: joined(timed_words(words)),
                translation: None,
                words: Seq::empty(),
            },
        ],
{
    law_lrc_rows_are_read(front, at, text);
    law_qrc_rows_are_read(start, length, words);
    law_yrc_rows_are_read(start, length, words);
    law_row_heads_are_read(start, length, text);
    law_row_heads_are_read(start, length, suffixed(words));
    law_suffixed_words_are_read(words);
    lemma_spans_text(text, Seq::empty(), Seq::empty());
    assert(text + Seq::<char>::empty() =~= text);
    assert(qrc_words(text).len() == 0);
    crate::text::law_trim_is_idempotent(text);
}

/// A bracket that holds no timing is a part of the text around it.
pub proof fn law_literal_brackets_stay(
    before: Seq<char>,
    text: Seq<char>,
    inner: Seq<char>,
    rest: Seq<char>,
)
    requires
        !text.contains('('),
        !inner.contains(')'),
        timing(inner) is None,
    ensures
        spans(text + (seq!['('] + inner + seq![')'] + rest), before) == spans(
            rest,
            before + text + seq!['('] + inner + seq![')'],
        ),
{
    let body = seq!['('] + inner + seq![')'] + rest;
    lemma_spans_text(text, body, before);
    assert forall|i: int| 0 <= i < inner.len() implies #[trigger] inner[i] != ')' by {
        assert(inner.contains(inner[i]));
    }
    lemma_group(inner, rest);
    assert(body[0] == '(');
}

/// Text behind the last group belongs to the last word.
pub proof fn law_tail_belongs_to_the_last_word(words: Seq<Sung>, tail: Seq<char>)
    requires
        writable(words),
        words.len() > 0,
        !tail.contains('('),
    ensures
        qrc_words(suffixed(words) + tail) == timed_words(words).drop_last().push(
            WordView {
                text: words.last().text + tail,
                ..timed_words(words).last()
            },
        ),
{
    lemma_spans_tail(words, tail);
}

proof fn lemma_spans_tail(words: Seq<Sung>, tail: Seq<char>)
    requires
        writable(words),
        !tail.contains('('),
    ensures
        spans(suffixed(words) + tail, Seq::empty()) == (timed_words(words), tail),
    decreases words.len(),
{
    if words.len() == 0 {
        lemma_spans_text(tail, Seq::empty(), Seq::empty());
        assert(suffixed(words) + tail =~= tail);
        assert(tail + Seq::<char>::empty() =~= tail);
        assert(Seq::<char>::empty() + tail =~= tail);
        assert(timed_words(words) =~= Seq::<WordView>::empty());
    } else {
        let one = words[0];
        let others = words.drop_first();
        assert forall|i: int| #![trigger others[i]] 0 <= i < others.len() implies {
            &&& 0 <= others[i].at <= last_millisecond()
            &&& 0 <= others[i].duration <= last_millisecond()
            &&& !others[i].text.contains('(')
        } by {
            assert(others[i] == words[i + 1]);
        }
        lemma_spans_tail(others, tail);
        let inner = pair(one.at, one.duration);
        let rest = suffixed(others) + tail;
        let body = seq!['('] + inner + seq![')'] + rest;
        assert(suffixed(words) + tail =~= one.text + body);
        lemma_spans_text(one.text, body, Seq::empty());
        assert(Seq::<char>::empty() + one.text =~= one.text);
        lemma_pair_has_no(one.at, one.duration, ')');
        lemma_group(inner, rest);
        lemma_timing(one.at, one.duration, Seq::empty());
        assert(inner + Seq::<char>::empty() =~= inner);
        assert(body[0] == '(');
        let word = WordView {
            at: (one.at * 10_000) as i64,
            duration: (one.duration * 10_000) as i64,
            text: one.text,
        };
        assert(spans(body, one.text) == (seq![word] + timed_words(others), tail));
        assert(seq![word] + timed_words(others) =~= timed_words(words));
    }
}

/// YRC may put its groups behind their words as well: a body that begins with a
/// text is read as QRC is.
pub proof fn law_yrc_reads_either_layout(words: Seq<Sung>)
    requires
        writable(words),
        words.len() > 0,
        words[0].text.len() > 0,
        !white(words[0].text[0]),
    ensures
        yrc_words(suffixed(words)) == timed_words(words),
{
    law_suffixed_words_are_read(words);
    let body = suffixed(words);
    assert(body[0] == words[0].text[0]);
    assert(words[0].text.contains(words[0].text[0]));
    assert(trim_start(body) == body);
}

} // verus!
