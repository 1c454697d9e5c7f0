//! The lyric formats: LRC, QRC, YRC and the translations that come with them.

use crate::lyrics::{lines_view, words_view, LineView, LyricLine, LyricWord, WordView};
use crate::number::{
    clamped, hold, is_nan, number, read_number, ABOVE, BELOW, NEGATIVE_NOT_A_NUMBER, NOT_A_NUMBER,
};
use crate::text::{
    append, chars_of, find, find_of, is_blank, last_position, last_position_of,
    law_find_is_first, law_last_position_is_last, law_rows_of_joined_texts, lemma_position,
    position, position_of, rows, split_row, stands_at, string_of, trim, trim_of, trim_start,
    trim_start_of,
};
use vstd::prelude::*;
use vstd::slice::slice_subrange;

verus! {

/// Decimal places of a tick in a millisecond.
pub const MILLISECOND: u8 = 4;

/// Decimal places of a tick in a second.
pub const SECOND: u8 = 7;

/// How the rows of a document are laid out.
#[derive(Debug, Clone, Copy, PartialEq, Eq, Structural)]
pub enum Layout {
    /// `[mm:ss.xx]text`, with repeated stamps for shared lines.
    Lrc,
    /// `[start,duration]` and timing groups after their characters.
    Qrc,
    /// `[start,duration]` and timing groups before or after their characters.
    Yrc,
    /// `[start,duration]` and a translated line, with or without groups.
    Translation,
}

/// What stands behind position `i`.
pub open spec fn behind(s: Seq<char>, i: int) -> Seq<char> {
    if 0 <= i < s.len() {
        s.skip(i + 1)
    } else {
        Seq::empty()
    }
}

/// The tick at which a time in milliseconds stands.
pub open spec fn milliseconds(s: Seq<char>) -> Option<int> {
    number(trim(s), MILLISECOND as int)
}

/// Start and duration of a timing group, from what stands in its brackets:
/// two numbers, and perhaps more behind another comma.
pub open spec fn timing(s: Seq<char>) -> Option<(int, int)> {
    let first = position(s, ',', 0);
    let rest = behind(s, first);
    if first >= s.len() {
        None
    } else {
        match (milliseconds(s.take(first)), milliseconds(rest.take(position(rest, ',', 0)))) {
            (Some(at), Some(duration)) => Some((at, duration)),
            _ => None,
        }
    }
}

/// The timed words of a body that puts each group behind its characters, with
/// `text` already read, and the text that no group follows. A bracket that
/// holds no timing belongs to the text.
pub open spec fn spans(body: Seq<char>, text: Seq<char>) -> (Seq<WordView>, Seq<char>)
    decreases body.len(),
{
    if body.len() == 0 {
        (Seq::empty(), text)
    } else if body[0] != '(' {
        spans(body.drop_first(), text.push(body[0]))
    } else {
        let close = position(body, ')', 1);
        let group = body.subrange(1, close);
        let rest = behind(body, close);
        match timing(group) {
            Some((at, duration)) => {
                let word = WordView { at: at as i64, duration: duration as i64, text };
                (seq![word] + spans(rest, Seq::empty()).0, spans(rest, Seq::empty()).1)
            },
            None => spans(rest, text + seq!['('] + group + seq![')']),
        }
    }
}

/// The words of a QRC body; text behind the last group belongs to the last
/// word.
pub open spec fn qrc_words(body: Seq<char>) -> Seq<WordView> {
    let (words, tail) = spans(body, Seq::empty());
    if words.len() == 0 {
        words
    } else {
        words.drop_last().push(WordView { text: words.last().text + tail, ..words.last() })
    }
}

/// The words of a body that puts each group before its characters; a group
/// without timing or without characters makes no word.
pub open spec fn prefixed(body: Seq<char>) -> Seq<WordView>
    decreases body.len(),
{
    if body.len() == 0 {
        Seq::empty()
    } else if body[0] != '(' {
        prefixed(body.drop_first())
    } else {
        let close = position(body, ')', 1);
        let rest = behind(body, close);
        let open = position(rest, '(', 0);
        if rest.len() >= body.len() || open < 0 || open > rest.len() {
            Seq::empty()
        } else {
            match timing(body.subrange(1, close)) {
                Some((at, duration)) => {
                    let word = WordView {
                        at: at as i64,
                        duration: duration as i64,
                        text: rest.take(open),
                    };
                    (if open > 0 {
                        seq![word]
                    } else {
                        Seq::empty()
                    }) + prefixed(rest.skip(open))
                },
                None => prefixed(rest),
            }
        }
    }
}

/// The words of a YRC body, in either layout.
pub open spec fn yrc_words(body: Seq<char>) -> Seq<WordView> {
    let first = trim_start(body);
    if first.len() > 0 && first[0] == '(' {
        prefixed(body)
    } else {
        qrc_words(body)
    }
}

/// What a row of words says.
pub open spec fn joined(words: Seq<WordView>) -> Seq<char>
    decreases words.len(),
{
    if words.len() == 0 {
        Seq::empty()
    } else {
        joined(words.drop_last()) + words.last().text
    }
}

/// A row `[start,...]body` as its start and its body.
pub open spec fn headed(row: Seq<char>) -> Option<(int, Seq<char>)> {
    let close = position(row, ']', 1);
    let head = row.subrange(1, close);
    let comma = position(head, ',', 0);
    if row.len() == 0 || row[0] != '[' || close >= row.len() || comma >= head.len() {
        None
    } else {
        match milliseconds(head.take(comma)) {
            Some(at) => Some((at, behind(row, close))),
            None => None,
        }
    }
}

/// An LRC stamp, `mm:ss.xx`; a second colon reads as the decimal point.
pub open spec fn stamp(s: Seq<char>) -> Option<int> {
    let colon = position(s, ':', 0);
    let seconds = behind(s, colon).map_values(
        |c: char|
            if c == ':' {
                '.'
            } else {
                c
            },
    );
    if colon >= s.len() {
        None
    } else {
        match (number(trim(s.take(colon)), SECOND as int), number(seconds, SECOND as int)) {
            (Some(minutes), Some(seconds)) => Some(clock(minutes, seconds)),
            _ => None,
        }
    }
}

/// The tick that stands `minutes` and `seconds` into the track, both counted
/// in ticks of a second. No number with anything is none, and neither is
/// infinity with minus infinity.
pub open spec fn clock(minutes: int, seconds: int) -> int {
    if is_nan(minutes) {
        minutes
    } else if is_nan(seconds) {
        seconds
    } else if (minutes == ABOVE && seconds == BELOW) || (minutes == BELOW && seconds == ABOVE) {
        NOT_A_NUMBER as int
    } else if minutes == ABOVE || seconds == ABOVE {
        ABOVE as int
    } else if minutes == BELOW || seconds == BELOW {
        BELOW as int
    } else {
        clamped(minutes * 60 + seconds)
    }
}

/// The stamps before an LRC row's text, without those that hold no time, and
/// the text.
pub open spec fn stamped(row: Seq<char>) -> (Seq<i64>, Seq<char>)
    decreases row.len(),
{
    let close = position(row, ']', 1);
    if row.len() == 0 || row[0] != '[' || close < 0 || close >= row.len() {
        (Seq::empty(), row)
    } else {
        let (stamps, text) = stamped(row.skip(close + 1));
        match stamp(row.subrange(1, close)) {
            Some(at) => (seq![at as i64] + stamps, text),
            None => (stamps, text),
        }
    }
}

/// A line without a translation and without words.
pub open spec fn plain_line(at: int, text: Seq<char>) -> LineView {
    LineView { at: at as i64, text, translation: None, words: Seq::empty() }
}

/// A line made of timed words.
pub open spec fn worded_line(at: int, words: Seq<WordView>) -> LineView {
    LineView { at: at as i64, text: joined(words), translation: None, words }
}

/// The text of a translated row.
pub open spec fn translated_text(body: Seq<char>) -> Seq<char> {
    if qrc_words(body).len() == 0 {
        trim(body)
    } else {
        joined(qrc_words(body))
    }
}

/// The lines that one row makes. A row without a head, or whose text is blank,
/// makes none.
pub open spec fn row_lines(layout: Layout, row: Seq<char>) -> Seq<LineView> {
    match layout {
        Layout::Lrc => {
            let (stamps, text) = stamped(row);
            if trim(text).len() == 0 {
                Seq::empty()
            } else {
                stamps.map_values(|at: i64| plain_line(at as int, trim(text)))
            }
        },
        Layout::Qrc => match headed(row) {
            Some((at, body)) if trim(joined(qrc_words(body))).len() > 0 => seq![
                worded_line(at, qrc_words(body)),
            ],
            _ => Seq::empty(),
        },
        Layout::Yrc => match headed(row) {
            Some((_, body)) if trim(joined(yrc_words(body))).len() > 0 => seq![
                worded_line(yrc_words(body)[0].at as int, yrc_words(body)),
            ],
            _ => Seq::empty(),
        },
        Layout::Translation => match headed(row) {
            Some((at, body)) if trim(translated_text(body)).len() > 0 => seq![
                plain_line(at, translated_text(body)),
            ],
            _ => Seq::empty(),
        },
    }
}

/// The lines of a document in the order of its rows.
pub open spec fn all_lines(layout: Layout, rows: Seq<Seq<char>>) -> Seq<LineView>
    decreases rows.len(),
{
    if rows.len() == 0 {
        Seq::empty()
    } else {
        row_lines(layout, rows[0]) + all_lines(layout, rows.drop_first())
    }
}

/// `lines`, which are in order, with `line` placed behind every one that does
/// not start later.
pub open spec fn placed(lines: Seq<LineView>, line: LineView) -> Seq<LineView>
    decreases lines.len(),
{
    if lines.len() == 0 || lines.last().at <= line.at {
        lines.push(line)
    } else {
        placed(lines.drop_last(), line).push(lines.last())
    }
}

/// The lines by their time; lines of one time keep their order.
pub open spec fn ordered(lines: Seq<LineView>) -> Seq<LineView>
    decreases lines.len(),
{
    if lines.len() == 0 {
        lines
    } else {
        placed(ordered(lines.drop_last()), lines.last())
    }
}

/// The attribute that holds the lyric in a QRC document.
pub open spec fn content_tag() -> Seq<char> {
    "LyricContent=\""@
}

/// The lyric in a QRC document: from behind the tag to the last quote.
pub open spec fn content(document: Seq<char>) -> Option<Seq<char>> {
    let start = find(document, content_tag(), 0);
    let rest = document.skip(start + content_tag().len());
    let end = last_position(rest, '"', rest.len() as int);
    if start >= document.len() || end < 0 {
        None
    } else {
        Some(rest.take(end))
    }
}

pub open spec fn lrc_lines(raw: Seq<char>) -> Seq<LineView> {
    ordered(all_lines(Layout::Lrc, rows(raw)))
}

pub open spec fn yrc_lines(raw: Seq<char>) -> Seq<LineView> {
    ordered(all_lines(Layout::Yrc, rows(raw)))
}

pub open spec fn qrc_lines(document: Seq<char>) -> Seq<LineView> {
    match content(document) {
        Some(lyric) => ordered(all_lines(Layout::Qrc, rows(lyric))),
        None => Seq::empty(),
    }
}

pub open spec fn translation_lines(document: Seq<char>) -> Seq<LineView> {
    let body = match content(document) {
        Some(lyric) => lyric,
        None => document,
    };
    let lines = all_lines(Layout::Translation, rows(body));
    if lines.len() == 0 {
        lrc_lines(body)
    } else {
        ordered(lines)
    }
}

fn read_milliseconds(s: &[char]) -> (res: Option<i64>)
    ensures
        match res {
            Some(at) => milliseconds(s@) == Some(at as int),
            None => milliseconds(s@) is None,
        },
{
    read_number(trim_of(s), MILLISECOND)
}

fn read_timing(s: &[char]) -> (res: Option<(i64, i64)>)
    ensures
        match res {
            Some((at, duration)) => timing(s@) == Some((at as int, duration as int)),
            None => timing(s@) is None,
        },
{
    let first = position_of(s, ',', 0);
    if first >= s.len() {
        return None;
    }
    let head = slice_subrange(s, 0, first);
    assert(head@ =~= s@.take(first as int));
    let rest = slice_subrange(s, first + 1, s.len());
    assert(rest@ =~= behind(s@, first as int));
    let second = slice_subrange(rest, 0, position_of(rest, ',', 0));
    assert(second@ =~= rest@.take(position(rest@, ',', 0)));
    match (read_milliseconds(head), read_milliseconds(second)) {
        (Some(at), Some(duration)) => Some((at, duration)),
        _ => None,
    }
}

fn drop_through(s: &[char], i: usize) -> (res: &[char])
    ensures
        res@ == behind(s@, i as int),
{
    if i < s.len() {
        let res = slice_subrange(s, i + 1, s.len());
        assert(res@ =~= behind(s@, i as int));
        res
    } else {
        let res = slice_subrange(s, s.len(), s.len());
        assert(res@ =~= behind(s@, i as int));
        res
    }
}

/// The timed words of a QRC body.
pub fn parse_qrc_words(body: &[char]) -> (res: Vec<LyricWord>)
    ensures
        words_view(res@) == qrc_words(body@),
{
    let mut words: Vec<LyricWord> = Vec::new();
    let mut text: Vec<char> = Vec::new();
    let mut rest: &[char] = body;
    assert(words_view(words@) =~= Seq::<WordView>::empty());
    assert(text@ =~= Seq::<char>::empty());
    assert(words_view(words@) + spans(rest@, text@).0 =~= spans(body@, Seq::empty()).0);
    while rest.len() > 0
        invariant
            spans(body@, Seq::empty()).0 == words_view(words@) + spans(rest@, text@).0,
            spans(body@, Seq::empty()).1 == spans(rest@, text@).1,
        decreases rest@.len(),
    {
        if rest[0] != '(' {
            text.push(rest[0]);
            let next = slice_subrange(rest, 1, rest.len());
            assert(next@ =~= rest@.drop_first());
            rest = next;
            continue;
        }
        let close = position_of(rest, ')', 1);
        let group = slice_subrange(rest, 1, close);
        let next = drop_through(rest, close);
        match read_timing(group) {
            Some((at, duration)) => {
                let ghost before = words@;
                let ghost word = WordView { at, duration, text: text@ };
                words.push(LyricWord { at, duration, text: string_of(text.as_slice()) });
                assert(words_view(words@) =~= words_view(before).push(word));
                text = Vec::new();
                assert(text@ =~= Seq::<char>::empty());
                assert(words_view(words@) + spans(next@, text@).0 =~= words_view(before) + (seq![
                    word,
                ] + spans(next@, text@).0));
            },
            None => {
                let ghost before = text@;
                text.push('(');
                append(&mut text, group);
                text.push(')');
                assert(text@ =~= before + seq!['('] + group@ + seq![')']);
            },
        }
        rest = next;
    }
    let ghost all = spans(body@, Seq::empty());
    assert(words_view(words@) =~= all.0);
    if words.len() > 0 {
        let ghost before = words@;
        match words.pop() {
            Some(last) => {
                let mut end = chars_of(last.text.as_str());
                append(&mut end, text.as_slice());
                words.push(
                    LyricWord {
                        at: last.at,
                        duration: last.duration,
                        text: string_of(end.as_slice()),
                    },
                );
                assert(all.0.last() == before.last()@);
                assert(words_view(words@) =~= qrc_words(body@));
            },
            None => {},
        }
    }
    words
}

fn parse_prefixed(body: &[char]) -> (res: Vec<LyricWord>)
    ensures
        words_view(res@) == prefixed(body@),
{
    let mut words: Vec<LyricWord> = Vec::new();
    let mut rest: &[char] = body;
    assert(words_view(words@) + prefixed(rest@) =~= prefixed(body@));
    while rest.len() > 0
        invariant
            prefixed(body@) == words_view(words@) + prefixed(rest@),
        decreases rest@.len(),
    {
        if rest[0] != '(' {
            let next = slice_subrange(rest, 1, rest.len());
            assert(next@ =~= rest@.drop_first());
            rest = next;
            continue;
        }
        let close = position_of(rest, ')', 1);
        let group = slice_subrange(rest, 1, close);
        let next = drop_through(rest, close);
        match read_timing(group) {
            Some((at, duration)) => {
                let open = position_of(next, '(', 0);
                let text = slice_subrange(next, 0, open);
                let after = slice_subrange(next, open, next.len());
                assert(text@ =~= next@.take(open as int));
                assert(after@ =~= next@.skip(open as int));
                let ghost before = words@;
                if open > 0 {
                    words.push(LyricWord { at, duration, text: string_of(text) });
                    assert(words_view(words@) =~= words_view(before).push(words@.last()@));
                }
                assert(words_view(words@) + prefixed(after@) =~= words_view(before) + prefixed(
                    rest@,
                ));
                rest = after;
            },
            None => {
                let ghost open = position(next@, '(', 0);
                proof {
                    lemma_position(next@, '(', 0);
                }
                rest = next;
            },
        }
    }
    assert(words_view(words@) =~= prefixed(body@));
    words
}

/// The timed words of a YRC body. The format commonly puts each timing group
/// before its characters, where QRC puts it after them; both are read.
pub fn parse_yrc_words(body: &[char]) -> (res: Vec<LyricWord>)
    ensures
        words_view(res@) == yrc_words(body@),
{
    let first = trim_start_of(body);
    if first.len() > 0 && first[0] == '(' {
        parse_prefixed(body)
    } else {
        parse_qrc_words(body)
    }
}

fn join_words(words: &Vec<LyricWord>) -> (res: Vec<char>)
    ensures
        res@ == joined(words_view(words@)),
{
    let mut res: Vec<char> = Vec::new();
    for i in 0..words.len()
        invariant
            res@ == joined(words_view(words@).take(i as int)),
    {
        let chars = chars_of(words[i].text.as_str());
        append(&mut res, chars.as_slice());
        assert(words_view(words@).take(i + 1).drop_last() =~= words_view(words@).take(i as int));
    }
    assert(words_view(words@).take(words@.len() as int) =~= words_view(words@));
    res
}

fn read_head(row: &[char]) -> (res: Option<(i64, &[char])>)
    ensures
        match res {
            Some((at, body)) => headed(row@) == Some((at as int, body@)),
            None => headed(row@) is None,
        },
{
    if row.len() == 0 || row[0] != '[' {
        return None;
    }
    let close = position_of(row, ']', 1);
    if close >= row.len() {
        return None;
    }
    let head = slice_subrange(row, 1, close);
    let comma = position_of(head, ',', 0);
    if comma >= head.len() {
        return None;
    }
    let start = slice_subrange(head, 0, comma);
    assert(start@ =~= head@.take(comma as int));
    let body = drop_through(row, close);
    match read_milliseconds(start) {
        Some(at) => Some((at, body)),
        None => None,
    }
}

/// The tick that an LRC stamp names.
pub fn parse_stamp(s: &[char]) -> (res: Option<i64>)
    ensures
        match res {
            Some(at) => stamp(s@) == Some(at as int),
            None => stamp(s@) is None,
        },
{
    let colon = position_of(s, ':', 0);
    if colon >= s.len() {
        return None;
    }
    let head = slice_subrange(s, 0, colon);
    assert(head@ =~= s@.take(colon as int));
    let rest = drop_through(s, colon);
    let mut tail: Vec<char> = Vec::new();
    let ghost dotted = |c: char|
        if c == ':' {
            '.'
        } else {
            c
        };
    for i in 0..rest.len()
        invariant
            dotted == (|c: char|
                if c == ':' {
                    '.'
                } else {
                    c
                }),
            tail@ == rest@.take(i as int).map_values(dotted),
    {
        if rest[i] == ':' {
            tail.push('.');
        } else {
            tail.push(rest[i]);
        }
        assert(tail@ =~= rest@.take(i + 1).map_values(dotted));
    }
    assert(rest@.take(rest@.len() as int) =~= rest@);
    match (read_number(trim_of(head), SECOND), read_number(tail.as_slice(), SECOND)) {
        (Some(minutes), Some(seconds)) => Some(read_clock(minutes, seconds)),
        _ => None,
    }
}

fn read_clock(minutes: i64, seconds: i64) -> (res: i64)
    ensures
        res == clock(minutes as int, seconds as int),
{
    if minutes == NOT_A_NUMBER || minutes == NEGATIVE_NOT_A_NUMBER {
        minutes
    } else if seconds == NOT_A_NUMBER || seconds == NEGATIVE_NOT_A_NUMBER {
        seconds
    } else if (minutes == ABOVE && seconds == BELOW) || (minutes == BELOW && seconds == ABOVE) {
        NOT_A_NUMBER
    } else if minutes == ABOVE || seconds == ABOVE {
        ABOVE
    } else if minutes == BELOW || seconds == BELOW {
        BELOW
    } else {
        let total: i128 = minutes as i128 * 60 + seconds as i128;
        hold(total)
    }
}

fn read_stamps(row: &[char]) -> (res: (Vec<i64>, &[char]))
    ensures
        res.0@ == stamped(row@).0,
        res.1@ == stamped(row@).1,
{
    let mut stamps: Vec<i64> = Vec::new();
    let mut rest: &[char] = row;
    assert(stamps@ + stamped(rest@).0 =~= stamped(row@).0);
    while rest.len() > 0 && rest[0] == '['
        invariant
            stamped(row@).0 == stamps@ + stamped(rest@).0,
            stamped(row@).1 == stamped(rest@).1,
        decreases rest@.len(),
    {
        let close = position_of(rest, ']', 1);
        if close >= rest.len() {
            assert(stamps@ =~= stamped(row@).0);
            return (stamps, rest);
        }
        let next = drop_through(rest, close);
        let ghost before = stamps@;
        match parse_stamp(slice_subrange(rest, 1, close)) {
            Some(at) => {
                stamps.push(at);
            },
            None => {},
        }
        assert(stamps@ + stamped(next@).0 =~= before + stamped(rest@).0);
        rest = next;
    }
    assert(stamps@ =~= stamped(row@).0);
    (stamps, rest)
}

fn push_line(lines: &mut Vec<LyricLine>, line: LyricLine)
    ensures
        lines_view(final(lines)@) == lines_view(old(lines)@).push(line@),
{
    lines.push(line);
    assert(lines_view(lines@) =~= lines_view(old(lines)@).push(line@));
}

fn make_plain(at: i64, text: &[char]) -> (res: LyricLine)
    ensures
        res@ == plain_line(at as int, text@),
{
    let res = LyricLine { at, text: string_of(text), translation: None, words: Vec::new() };
    assert(res@.words =~= Seq::<WordView>::empty());
    res
}

fn read_row(layout: Layout, row: &[char], lines: &mut Vec<LyricLine>)
    ensures
        lines_view(final(lines)@) == lines_view(old(lines)@) + row_lines(layout, row@),
{
    let ghost before = lines_view(lines@);
    match layout {
        Layout::Lrc => {
            let (stamps, rest) = read_stamps(row);
            let text = trim_of(rest);
            if text.len() > 0 {
                let ghost made = stamps@.map_values(|at: i64| plain_line(at as int, text@));
                assert(row_lines(layout, row@) =~= made);
                for i in 0..stamps.len()
                    invariant
                        made == stamps@.map_values(|at: i64| plain_line(at as int, text@)),
                        lines_view(lines@) == before + made.take(i as int),
                {
                    push_line(lines, make_plain(stamps[i], text));
                    assert(made.take(i + 1) =~= made.take(i as int).push(made[i as int]));
                }
                assert(made.take(made.len() as int) =~= made);
            }
        },
        Layout::Qrc => match read_head(row) {
            Some((at, body)) => {
                let words = parse_qrc_words(body);
                let text = join_words(&words);
                if !is_blank(text.as_slice()) {
                    push_line(
                        lines,
                        LyricLine { at, text: string_of(text.as_slice()), translation: None, words },
                    );
                }
            },
            None => {},
        },
        Layout::Yrc => match read_head(row) {
            Some((_, body)) => {
                let words = parse_yrc_words(body);
                let text = join_words(&words);
                if !is_blank(text.as_slice()) {
                    assert(words@.len() > 0);
                    assert(yrc_words(body@)[0] == words@[0]@);
                    push_line(
                        lines,
                        LyricLine {
                            at: words[0].at,
                            text: string_of(text.as_slice()),
                            translation: None,
                            words,
                        },
                    );
                }
            },
            None => {},
        },
        Layout::Translation => match read_head(row) {
            Some((at, body)) => {
                let words = parse_qrc_words(body);
                let mut text: Vec<char> = Vec::new();
                if words.len() == 0 {
                    append(&mut text, trim_of(body));
                } else {
                    text = join_words(&words);
                }
                assert(text@ =~= translated_text(body@));
                if !is_blank(text.as_slice()) {
                    push_line(lines, make_plain(at, text.as_slice()));
                }
            },
            None => {},
        },
    }
    assert(lines_view(lines@) =~= before + row_lines(layout, row@));
}

fn read_rows(layout: Layout, s: &[char]) -> (res: Vec<LyricLine>)
    ensures
        lines_view(res@) == all_lines(layout, rows(s@)),
{
    let mut lines: Vec<LyricLine> = Vec::new();
    let mut rest: &[char] = s;
    assert(lines_view(lines@) + all_lines(layout, rows(rest@)) =~= all_lines(layout, rows(s@)));
    while rest.len() > 0
        invariant
            all_lines(layout, rows(s@)) == lines_view(lines@) + all_lines(layout, rows(rest@)),
        decreases rest@.len(),
    {
        let (row, next) = split_row(rest);
        let ghost before = lines_view(lines@);
        read_row(layout, row, &mut lines);
        assert((seq![row@] + rows(next@)).drop_first() =~= rows(next@));
        assert(lines_view(lines@) + all_lines(layout, rows(next@)) =~= before + (row_lines(
            layout,
            row@,
        ) + all_lines(layout, rows(next@))));
        rest = next;
    }
    assert(rows(rest@) =~= Seq::<Seq<char>>::empty());
    assert(lines_view(lines@) =~= all_lines(layout, rows(s@)));
    lines
}

proof fn lemma_placed(lines: Seq<LineView>, line: LineView, k: int)
    requires
        0 <= k <= lines.len(),
        k > 0 ==> lines[k - 1].at <= line.at,
        forall|j: int| k <= j < lines.len() ==> #[trigger] lines[j].at > line.at,
    ensures
        placed(lines, line) == lines.insert(k, line),
    decreases lines.len(),
{
    if lines.len() == k {
        assert(placed(lines, line) =~= lines.insert(k, line));
    } else {
        assert(lines[lines.len() - 1].at > line.at);
        lemma_placed(lines.drop_last(), line, k);
        assert(placed(lines, line) =~= lines.insert(k, line));
    }
}

/// Sorts lines by their time; lines of one time keep their order.
pub fn sort_lines(lines: Vec<LyricLine>) -> (res: Vec<LyricLine>)
    ensures
        lines_view(res@) == ordered(lines_view(lines@)),
{
    let mut res: Vec<LyricLine> = Vec::new();
    let ghost all = lines_view(lines@);
    assert(ordered(all.take(0)) =~= Seq::<LineView>::empty());
    assert(lines_view(res@) =~= Seq::<LineView>::empty());
    for i in 0..lines.len()
        invariant
            all == lines_view(lines@),
            lines_view(res@) == ordered(all.take(i as int)),
    {
        let line = lines[i].clone();
        let mut k: usize = res.len();
        while k > 0 && res[k - 1].at > line.at
            invariant
                k <= res@.len(),
                forall|j: int| k <= j < res@.len() ==> #[trigger] res@[j].at > line.at,
            decreases k,
        {
            k = k - 1;
        }
        let ghost before = res@;
        proof {
            assert forall|j: int| k <= j < lines_view(before).len() implies #[trigger] lines_view(
                before,
            )[j].at > line.at by {
                assert(before[j].at > line.at);
            }
            lemma_placed(lines_view(before), line@, k as int);
        }
        res.insert(k, line);
        assert(lines_view(res@) =~= lines_view(before).insert(k as int, line@));
        assert(all.take(i + 1).drop_last() =~= all.take(i as int));
    }
    assert(all.take(all.len() as int) =~= all);
    res
}

fn find_content(document: &[char]) -> (res: Option<&[char]>)
    ensures
        match res {
            Some(lyric) => content(document@) == Some(lyric@),
            None => content(document@) is None,
        },
{
    let tag = chars_of("LyricContent=\"");
    let start = find_of(document, tag.as_slice(), 0);
    if start >= document.len() {
        return None;
    }
    let rest = slice_subrange(document, start + tag.len(), document.len());
    assert(rest@ =~= document@.skip(start + tag@.len()));
    match last_position_of(rest, '"') {
        Some(end) => {
            let lyric = slice_subrange(rest, 0, end);
            assert(lyric@ =~= rest@.take(end as int));
            Some(lyric)
        },
        None => None,
    }
}

/// The lyric lives in the `LyricContent` attribute of the QRC document.
pub fn qrc_content(document: &str) -> (res: Option<String>)
    ensures
        crate::lyrics::text_view(res) == content(document@),
{
    let chars = chars_of(document);
    match find_content(chars.as_slice()) {
        Some(lyric) => Some(string_of(lyric)),
        None => None,
    }
}

/// `[mm:ss.xx]text`, with repeated stamps for shared lines.
pub fn parse_lrc(raw: &str) -> (res: Vec<LyricLine>)
    ensures
        lines_view(res@) == lrc_lines(raw@),
{
    let chars = chars_of(raw);
    sort_lines(read_rows(Layout::Lrc, chars.as_slice()))
}

/// NetEase's YRC holds the timing data of QRC without its wrapper.
pub fn parse_yrc(raw: &str) -> (res: Vec<LyricLine>)
    ensures
        lines_view(res@) == yrc_lines(raw@),
{
    let chars = chars_of(raw);
    sort_lines(read_rows(Layout::Yrc, chars.as_slice()))
}

/// `[start,duration]` and then characters, each followed by
/// `(start,duration)`, in milliseconds.
pub fn parse_qrc(document: &str) -> (res: Vec<LyricLine>)
    ensures
        lines_view(res@) == qrc_lines(document@),
{
    let chars = chars_of(document);
    match find_content(chars.as_slice()) {
        Some(lyric) => sort_lines(read_rows(Layout::Qrc, lyric)),
        None => {
            let res: Vec<LyricLine> = Vec::new();
            assert(lines_view(res@) =~= Seq::<LineView>::empty());
            res
        },
    }
}

/// A translation: rows with a head, or an LRC document when there are none.
/// Literal brackets stay; only groups that hold a timing are taken out.
pub fn parse_translation(document: &str) -> (res: Vec<LyricLine>)
    ensures
        lines_view(res@) == translation_lines(document@),
{
    let chars = chars_of(document);
    let body = match find_content(chars.as_slice()) {
        Some(lyric) => lyric,
        None => chars.as_slice(),
    };
    let lines = read_rows(Layout::Translation, body);
    if lines.len() == 0 {
        sort_lines(read_rows(Layout::Lrc, body))
    } else {
        sort_lines(lines)
    }
}

/// Whether no line starts before the one ahead of it.
pub open spec fn in_order(lines: Seq<LineView>) -> bool {
    forall|i: int, j: int| 0 <= i <= j < lines.len() ==> lines[i].at <= lines[j].at
}

proof fn lemma_placed_in_order(lines: Seq<LineView>, line: LineView)
    requires
        in_order(lines),
    ensures
        in_order(placed(lines, line)),
        placed(lines, line).len() == lines.len() + 1,
        placed(lines, line).last().at == line.at || (lines.len() > 0 && placed(
            lines,
            line,
        ).last().at == lines.last().at),
        forall|i: int|
            0 <= i < placed(lines, line).len() ==> (#[trigger] placed(lines, line)[i].at
                <= line.at || lines.len() > 0 && placed(lines, line)[i].at <= lines.last().at),
    decreases lines.len(),
{
    if lines.len() > 0 && lines.last().at > line.at {
        lemma_placed_in_order(lines.drop_last(), line);
    }
}

/// Sorted lines come in the order of their times.
pub proof fn law_sorted_lines_are_in_order(lines: Seq<LineView>)
    ensures
        in_order(ordered(lines)),
        ordered(lines).len() == lines.len(),
    decreases lines.len(),
{
    if lines.len() > 0 {
        law_sorted_lines_are_in_order(lines.drop_last());
        lemma_placed_in_order(ordered(lines.drop_last()), lines.last());
    }
}

proof fn lemma_placed_filter(lines: Seq<LineView>, line: LineView, at: i64)
    requires
        in_order(lines),
    ensures
        placed(lines, line).filter(|l: LineView| l.at == at) == lines.push(line).filter(
            |l: LineView| l.at == at,
        ),
    decreases lines.len(),
{
    let same = |l: LineView| l.at == at;
    if lines.len() > 0 && lines.last().at > line.at {
        let front = lines.drop_last();
        lemma_placed_filter(front, line, at);
        assert(placed(lines, line) == placed(front, line).push(lines.last()));
        placed(front, line).lemma_filter_push(lines.last(), same);
        front.lemma_filter_push(line, same);
        assert(lines =~= front.push(lines.last()));
        front.lemma_filter_push(lines.last(), same);
        lines.lemma_filter_push(line, same);
        assert(lines.push(line).filter(same) =~= placed(lines, line).filter(same));
    }
}

/// Sorting keeps every line, and lines of one time stay in the order that they
/// had.
pub proof fn law_sorting_is_stable(lines: Seq<LineView>, at: i64)
    ensures
        ordered(lines).filter(|l: LineView| l.at == at) == lines.filter(
            |l: LineView| l.at == at,
        ),
    decreases lines.len(),
{
    let same = |l: LineView| l.at == at;
    if lines.len() > 0 {
        let front = lines.drop_last();
        law_sorted_lines_are_in_order(front);
        law_sorting_is_stable(front, at);
        lemma_placed_filter(ordered(front), lines.last(), at);
        ordered(front).lemma_filter_push(lines.last(), same);
        assert(lines =~= front.push(lines.last()));
        front.lemma_filter_push(lines.last(), same);
    }
}

/// Whether a line shows something, and its words, if it has any, spell it.
pub open spec fn shown(line: LineView) -> bool {
    &&& trim(line.text).len() > 0
    &&& line.translation is None
    &&& line.words.len() > 0 ==> line.text == joined(line.words)
}

pub open spec fn all_shown(lines: Seq<LineView>) -> bool {
    forall|i: int| 0 <= i < lines.len() ==> shown(#[trigger] lines[i])
}

proof fn lemma_row_lines_shown(layout: Layout, row: Seq<char>)
    ensures
        all_shown(row_lines(layout, row)),
{
    if layout == Layout::Lrc {
        crate::text::law_trim_is_idempotent(stamped(row).1);
    }
}

/// Every line of a document shows something: rows of blanks make none. Words,
/// where a line has them, spell the line.
pub proof fn law_parsed_lines_are_shown(layout: Layout, rows: Seq<Seq<char>>)
    ensures
        all_shown(all_lines(layout, rows)),
    decreases rows.len(),
{
    if rows.len() > 0 {
        lemma_row_lines_shown(layout, rows[0]);
        law_parsed_lines_are_shown(layout, rows.drop_first());
    }
}

proof fn lemma_placed_shown(lines: Seq<LineView>, line: LineView)
    requires
        all_shown(lines),
        shown(line),
    ensures
        all_shown(placed(lines, line)),
    decreases lines.len(),
{
    if lines.len() > 0 && lines.last().at > line.at {
        assert(shown(lines[lines.len() - 1]));
        assert forall|i: int| 0 <= i < lines.drop_last().len() implies shown(
            #[trigger] lines.drop_last()[i],
        ) by {
            assert(shown(lines[i]));
        }
        lemma_placed_shown(lines.drop_last(), line);
    }
}

proof fn lemma_ordered_shown(lines: Seq<LineView>)
    requires
        all_shown(lines),
    ensures
        all_shown(ordered(lines)),
    decreases lines.len(),
{
    if lines.len() > 0 {
        assert forall|i: int| 0 <= i < lines.drop_last().len() implies shown(
            #[trigger] lines.drop_last()[i],
        ) by {
            assert(shown(lines[i]));
        }
        lemma_ordered_shown(lines.drop_last());
        assert(shown(lines[lines.len() - 1]));
        lemma_placed_shown(ordered(lines.drop_last()), lines.last());
    }
}

/// Whatever the document, the lines that its reader gives come in the order of
/// their times, and each shows something.
pub proof fn law_readers_give_ordered_lines(document: Seq<char>)
    ensures
        in_order(lrc_lines(document)) && all_shown(lrc_lines(document)),
        in_order(yrc_lines(document)) && all_shown(yrc_lines(document)),
        in_order(qrc_lines(document)) && all_shown(qrc_lines(document)),
        in_order(translation_lines(document)) && all_shown(translation_lines(document)),
{
    let lyric = match content(document) {
        Some(lyric) => lyric,
        None => document,
    };
    lemma_readers(Layout::Lrc, document);
    lemma_readers(Layout::Lrc, lyric);
    lemma_readers(Layout::Yrc, document);
    lemma_readers(Layout::Qrc, lyric);
    lemma_readers(Layout::Translation, lyric);
}

proof fn lemma_readers(layout: Layout, s: Seq<char>)
    ensures
        in_order(ordered(all_lines(layout, rows(s)))),
        all_shown(ordered(all_lines(layout, rows(s)))),
{
    law_parsed_lines_are_shown(layout, rows(s));
    law_sorted_lines_are_in_order(all_lines(layout, rows(s)));
    lemma_ordered_shown(all_lines(layout, rows(s)));
}

/// No row is lost, wherever it stands: the lines of some rows and then others
/// are the lines of the ones and then those of the others, and a single row
/// gives its own lines. So a row that makes no line changes nothing about the
/// rest.
pub proof fn law_no_row_is_lost(
    layout: Layout,
    a: Seq<Seq<char>>,
    b: Seq<Seq<char>>,
    row: Seq<char>,
)
    ensures
        all_lines(layout, a + b) == all_lines(layout, a) + all_lines(layout, b),
        all_lines(layout, seq![row]) == row_lines(layout, row),
    decreases a.len(),
{
    assert(seq![row].drop_first() =~= Seq::<Seq<char>>::empty());
    assert(all_lines(layout, Seq::<Seq<char>>::empty()) =~= Seq::<LineView>::empty());
    assert(row_lines(layout, row) + Seq::<LineView>::empty() =~= row_lines(layout, row));
    if a.len() == 0 {
        assert(a + b =~= b);
        assert(all_lines(layout, a) + all_lines(layout, b) =~= all_lines(layout, b));
    } else {
        law_no_row_is_lost(layout, a.drop_first(), b, row);
        assert((a + b).drop_first() =~= a.drop_first() + b);
        assert(all_lines(layout, a + b) =~= all_lines(layout, a) + all_lines(layout, b));
    }
}

/// A line of the document stands in the result as often as its row makes it:
/// what `row` and the rows of `more` make for one time is what the document
/// makes for it, and in that order.
pub proof fn law_documents_are_read_row_by_row(row: Seq<char>, more: Seq<char>, at: i64)
    requires
        !row.contains('\n'),
        row.len() == 0 || row.last() != '\r',
    ensures
        lrc_lines(row + seq!['\n'] + more).filter(|l: LineView| l.at == at) == row_lines(
            Layout::Lrc,
            row,
        ).filter(|l: LineView| l.at == at) + lrc_lines(more).filter(|l: LineView| l.at == at),
        yrc_lines(row + seq!['\n'] + more).filter(|l: LineView| l.at == at) == row_lines(
            Layout::Yrc,
            row,
        ).filter(|l: LineView| l.at == at) + yrc_lines(more).filter(|l: LineView| l.at == at),
        lrc_lines(row + seq!['\n'] + more).len() == row_lines(Layout::Lrc, row).len() + lrc_lines(
            more,
        ).len(),
        yrc_lines(row + seq!['\n'] + more).len() == row_lines(Layout::Yrc, row).len() + yrc_lines(
            more,
        ).len(),
{
    lemma_first_row(Layout::Lrc, row, more, at);
    lemma_first_row(Layout::Yrc, row, more, at);
}

proof fn lemma_first_row(layout: Layout, row: Seq<char>, more: Seq<char>, at: i64)
    requires
        !row.contains('\n'),
        row.len() == 0 || row.last() != '\r',
    ensures
        ({
            let whole = ordered(all_lines(layout, rows(row + seq!['\n'] + more)));
            let rest = ordered(all_lines(layout, rows(more)));
            &&& whole.filter(|l: LineView| l.at == at) == row_lines(layout, row).filter(
                |l: LineView| l.at == at,
            ) + rest.filter(|l: LineView| l.at == at)
            &&& whole.len() == row_lines(layout, row).len() + rest.len()
        }),
{
    let first = row_lines(layout, row);
    let others = all_lines(layout, rows(more));
    law_rows_of_joined_texts(row, more);
    law_no_row_is_lost(layout, seq![row], rows(more), row);
    let all = all_lines(layout, rows(row + seq!['\n'] + more));
    assert(all == first + others);
    law_sorting_is_stable(all, at);
    law_sorting_is_stable(others, at);
    law_sorted_lines_are_in_order(all);
    law_sorted_lines_are_in_order(others);
    lemma_filter_lines(first, others, at);
}

proof fn lemma_filter_lines(a: Seq<LineView>, b: Seq<LineView>, at: i64)
    ensures
        (a + b).filter(|l: LineView| l.at == at) == a.filter(|l: LineView| l.at == at) + b.filter(
            |l: LineView| l.at == at,
        ),
    decreases b.len(),
{
    let same = |l: LineView| l.at == at;
    if b.len() == 0 {
        reveal(Seq::filter);
        assert(a + b =~= a);
        assert(b.filter(same) =~= Seq::<LineView>::empty());
        assert(a.filter(same) + Seq::<LineView>::empty() =~= a.filter(same));
    } else {
        let front = b.drop_last();
        lemma_filter_lines(a, front, at);
        (a + front).lemma_filter_push(b.last(), same);
        front.lemma_filter_push(b.last(), same);
        assert((a + front).push(b.last()) =~= a + b);
        assert(front.push(b.last()) =~= b);
        assert((a + b).filter(same) =~= a.filter(same) + b.filter(same));
    }
}

/// The lyric of a QRC document is what stands between the first tag and the
/// last quote, quotes within it and all.
pub proof fn law_content_is_between_tag_and_last_quote(
    front: Seq<char>,
    lyric: Seq<char>,
    back: Seq<char>,
)
    requires
        !back.contains('"'),
        forall|i: int|
            0 <= i < front.len() ==> !#[trigger] stands_at(
                front + "LyricContent=\""@ + lyric + seq!['"'] + back,
                "LyricContent=\""@,
                i,
            ),
    ensures
        content(front + "LyricContent=\""@ + lyric + seq!['"'] + back) == Some(lyric),
{
    reveal_strlit("LyricContent=\"");
    let tag = "LyricContent=\""@;
    let document = front + tag + lyric + seq!['"'] + back;
    let start = front.len() as int;
    assert(document.subrange(start, start + tag.len()) =~= tag);
    assert(stands_at(document, tag, start));
    law_find_is_first(document, tag, 0);
    assert(find(document, tag, 0) == start) by {
        let found = find(document, tag, 0);
        if found < start {
            assert(stands_at(document, tag, found));
        }
    }
    let rest = document.skip(start + tag.len());
    assert(rest =~= lyric + seq!['"'] + back);
    law_last_position_is_last(rest, '"', rest.len() as int);
    assert(rest[lyric.len() as int] == '"');
    let end = last_position(rest, '"', rest.len() as int);
    if end > lyric.len() {
        assert(rest[end] == back[end - lyric.len() - 1]);
        assert(back.contains(back[end - lyric.len() - 1]));
    }
    assert(rest.take(end) =~= lyric);
}

/// A document without the tag has no lyric of that kind.
pub proof fn law_no_tag_no_content(document: Seq<char>)
    requires
        forall|i: int| !#[trigger] stands_at(document, "LyricContent=\""@, i),
    ensures
        content(document) is None,
        qrc_lines(document).len() == 0,
{
    reveal_strlit("LyricContent=\"");
    law_find_is_first(document, "LyricContent=\""@, 0);
    let found = find(document, "LyricContent=\""@, 0);
    if found < document.len() {
        assert(stands_at(document, "LyricContent=\""@, found));
    }
}

/// A translation none of whose rows has a head and a text is read as LRC; one
/// with such a row is read by those rows alone.
pub proof fn law_translations_fall_back_to_lrc(document: Seq<char>, k: int)
    requires
        content(document) is None,
    ensures
        (forall|i: int|
            0 <= i < rows(document).len() ==> row_lines(
                Layout::Translation,
                #[trigger] rows(document)[i],
            ).len() == 0) ==> translation_lines(document) == lrc_lines(document),
        0 <= k < rows(document).len() && row_lines(Layout::Translation, rows(document)[k]).len()
            > 0 ==> translation_lines(document) == ordered(
            all_lines(Layout::Translation, rows(document)),
        ),
{
    lemma_some_lines(Layout::Translation, rows(document), k);
    if forall|i: int|
        0 <= i < rows(document).len() ==> row_lines(
            Layout::Translation,
            #[trigger] rows(document)[i],
        ).len() == 0 {
        lemma_no_lines(Layout::Translation, rows(document));
    }
}

proof fn lemma_no_lines(layout: Layout, all: Seq<Seq<char>>)
    requires
        forall|i: int| 0 <= i < all.len() ==> row_lines(layout, #[trigger] all[i]).len() == 0,
    ensures
        all_lines(layout, all).len() == 0,
    decreases all.len(),
{
    if all.len() > 0 {
        let rest = all.drop_first();
        assert forall|i: int| 0 <= i < rest.len() implies row_lines(
            layout,
            #[trigger] rest[i],
        ).len() == 0 by {
            assert(rest[i] == all[i + 1]);
        }
        lemma_no_lines(layout, rest);
        assert(row_lines(layout, all[0]).len() == 0);
    }
}

proof fn lemma_some_lines(layout: Layout, all: Seq<Seq<char>>, k: int)
    ensures
        0 <= k < all.len() ==> all_lines(layout, all).len() >= row_lines(layout, all[k]).len(),
    decreases all.len(),
{
    if 0 < k < all.len() {
        lemma_some_lines(layout, all.drop_first(), k - 1);
    }
}

/// What words spell is what each of them spells, in their order.
pub proof fn law_words_are_joined(a: Seq<WordView>, b: Seq<WordView>, word: WordView)
    ensures
        joined(a + b) == joined(a) + joined(b),
        joined(seq![word]) == word.text,
    decreases b.len(),
{
    assert(seq![word].drop_last() =~= Seq::<WordView>::empty());
    assert(joined(Seq::<WordView>::empty()) =~= Seq::<char>::empty());
    assert(Seq::<char>::empty() + word.text =~= word.text);
    if b.len() == 0 {
        assert(a + b =~= a);
        assert(joined(a) + joined(b) =~= joined(a));
    } else {
        law_words_are_joined(a, b.drop_last(), word);
        assert((a + b).drop_last() =~= a + b.drop_last());
        assert(joined(a + b) =~= joined(a) + joined(b));
    }
}

/// A QRC document is read row by row as well: what its lyric makes for one time
/// is what the first row makes and then what the others do.
pub proof fn law_qrc_is_read_row_by_row(
    front: Seq<char>,
    row: Seq<char>,
    more: Seq<char>,
    back: Seq<char>,
    at: i64,
)
    requires
        !row.contains('\n'),
        row.len() == 0 || row.last() != '\r',
        !back.contains('"'),
        forall|i: int|
            0 <= i < front.len() ==> !#[trigger] stands_at(
                front + "LyricContent=\""@ + more + seq!['"'] + back,
                "LyricContent=\""@,
                i,
            ),
        forall|i: int|
            0 <= i < front.len() ==> !#[trigger] stands_at(
                front + "LyricContent=\""@ + (row + seq!['\n'] + more) + seq!['"'] + back,
                "LyricContent=\""@,
                i,
            ),
    ensures
        ({
            let whole = qrc_lines(
                front + "LyricContent=\""@ + (row + seq!['\n'] + more) + seq!['"'] + back,
            );
            let rest = qrc_lines(front + "LyricContent=\""@ + more + seq!['"'] + back);
            &&& whole.filter(|l: LineView| l.at == at) == row_lines(Layout::Qrc, row).filter(
                |l: LineView| l.at == at,
            ) + rest.filter(|l: LineView| l.at == at)
            &&& whole.len() == row_lines(Layout::Qrc, row).len() + rest.len()
        }),
{
    law_content_is_between_tag_and_last_quote(front, more, back);
    law_content_is_between_tag_and_last_quote(front, row + seq!['\n'] + more, back);
    lemma_first_row(Layout::Qrc, row, more, at);
}

/// A translation within a QRC document is read as the lyric in it is by itself.
pub proof fn law_wrapped_translations_are_unwrapped(
    front: Seq<char>,
    lyric: Seq<char>,
    back: Seq<char>,
)
    requires
        content(lyric) is None,
        !back.contains('"'),
        forall|i: int|
            0 <= i < front.len() ==> !#[trigger] stands_at(
                front + "LyricContent=\""@ + lyric + seq!['"'] + back,
                "LyricContent=\""@,
                i,
            ),
    ensures
        translation_lines(front + "LyricContent=\""@ + lyric + seq!['"'] + back)
            == translation_lines(lyric),
{
    law_content_is_between_tag_and_last_quote(front, lyric, back);
}

/// A translation with heads is read row by row as well.
pub proof fn law_translations_are_read_row_by_row(
    row: Seq<char>,
    more: Seq<char>,
    k: int,
    at: i64,
)
    requires
        !row.contains('\n'),
        row.len() == 0 || row.last() != '\r',
        content(row + seq!['\n'] + more) is None,
        content(more) is None,
        0 <= k < rows(more).len(),
        row_lines(Layout::Translation, rows(more)[k]).len() > 0,
    ensures
        ({
            let whole = translation_lines(row + seq!['\n'] + more);
            let rest = translation_lines(more);
            &&& whole.filter(|l: LineView| l.at == at) == row_lines(Layout::Translation, row).filter(
                |l: LineView| l.at == at,
            ) + rest.filter(|l: LineView| l.at == at)
            &&& whole.len() == row_lines(Layout::Translation, row).len() + rest.len()
        }),
{
    lemma_some_lines(Layout::Translation, rows(more), k);
    law_rows_of_joined_texts(row, more);
    law_no_row_is_lost(Layout::Translation, seq![row], rows(more), row);
    lemma_first_row(Layout::Translation, row, more, at);
}

/// A second colon in a stamp reads as the decimal point.
pub proof fn law_second_colon_is_a_point(minutes: Seq<char>, seconds: Seq<char>, part: Seq<char>)
    requires
        !minutes.contains(':'),
        !seconds.contains(':'),
        !part.contains(':'),
    ensures
        stamp(minutes + seq![':'] + (seconds + seq![':'] + part)) == stamp(
            minutes + seq![':'] + (seconds + seq!['.'] + part),
        ),
        stamp(minutes) is None,
{
    let dotted = |c: char|
        if c == ':' {
            '.'
        } else {
            c
        };
    let colons = seconds + seq![':'] + part;
    let points = seconds + seq!['.'] + part;
    let ends: Seq<Seq<char>> = seq![colons, points];
    assert forall|k: int| 0 <= k < 2 implies {
        let s = minutes + seq![':'] + #[trigger] ends[k];
        &&& position(s, ':', 0) == minutes.len()
        &&& s.take(minutes.len() as int) == minutes
        &&& behind(s, minutes.len() as int) == ends[k]
    } by {
        let s = minutes + seq![':'] + ends[k];
        lemma_position(s, ':', 0);
        let at = position(s, ':', 0);
        assert(s[minutes.len() as int] == ':');
        if at < minutes.len() {
            assert(s[at] == minutes[at]);
            assert(minutes.contains(minutes[at]));
        }
        assert(s.take(minutes.len() as int) =~= minutes);
        assert(behind(s, minutes.len() as int) =~= ends[k]);
    }
    assert(ends[0] == colons && ends[1] == points);
    assert(behind(minutes + seq![':'] + colons, minutes.len() as int).map_values(dotted)
        =~= behind(minutes + seq![':'] + points, minutes.len() as int).map_values(dotted));
    lemma_position(minutes, ':', 0);
    if position(minutes, ':', 0) < minutes.len() {
        assert(minutes.contains(minutes[position(minutes, ':', 0)]));
    }
}

} // verus!
