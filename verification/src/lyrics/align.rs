//! Laying a translation over the lines of a lyric.

use crate::lyrics::{copy_text, copy_words, lines_view, LineView, LyricLine};
use crate::number::{finite, is_nan, ABOVE, BELOW, NEGATIVE_NOT_A_NUMBER, NOT_A_NUMBER};
use crate::text::{chars_of, same, string_of, trim, trim_of};
use vstd::prelude::*;

verus! {

/// Shifts are tried in steps of a twentieth of a second.
pub const STEP: i64 = 500_000;

/// How far the two timelines may lie apart: five seconds.
pub const REACH: i64 = 50_000_000;

/// The steps that `REACH` spans.
pub const STEPS: i64 = 100;

/// How far a shifted row may miss its line: a fifth of a second.
pub const SLACK: i64 = 2_000_000;

/// The steps in a gap of so many ticks, to the nearest, and halves away from
/// zero.
pub open spec fn steps_in(gap: int) -> int {
    if gap >= 0 {
        (gap + 250_000) / 500_000
    } else {
        -((-gap + 250_000) / 500_000)
    }
}

/// The step that lays a row at `row` onto a line at `line`, if the two are
/// within reach of each other.
pub open spec fn step_between(line: i64, row: i64) -> Option<int> {
    if finite(line as int) && finite(row as int) && -REACH <= line - row <= REACH {
        Some(steps_in(line - row))
    } else {
        None
    }
}

/// How many rows `step` lays onto one line.
pub open spec fn row_votes(line: LineView, rows: Seq<LineView>, step: int) -> int
    decreases rows.len(),
{
    if rows.len() == 0 {
        0
    } else {
        row_votes(line, rows.drop_last(), step) + if step_between(line.at, rows.last().at) == Some(
            step,
        ) {
            1int
        } else {
            0
        }
    }
}

/// How many pairs of a line and a row `step` brings together.
pub open spec fn votes(lines: Seq<LineView>, rows: Seq<LineView>, step: int) -> int
    decreases lines.len(),
{
    if lines.len() == 0 {
        0
    } else {
        votes(lines.drop_last(), rows, step) + row_votes(lines.last(), rows, step)
    }
}

/// Whether a row, shifted by `offset`, comes too early for a line. What stands
/// at no number comes neither early nor late.
pub open spec fn early(row: i64, offset: int, line: i64) -> bool {
    if is_nan(row as int) || is_nan(line as int) || row == ABOVE || line == BELOW {
        false
    } else if row == BELOW || line == ABOVE {
        true
    } else {
        row + offset < line - SLACK
    }
}

/// Whether a row, shifted by `offset`, falls on a line.
pub open spec fn near(row: i64, offset: int, line: i64) -> bool {
    finite(row as int) && finite(line as int) && -SLACK <= row + offset - line <= SLACK
}

/// The first row from `from` on that does not come too early for `line`.
pub open spec fn next_row(rows: Seq<LineView>, offset: int, line: i64, from: int) -> int
    decreases rows.len() - from,
{
    if from < 0 || from >= rows.len() {
        rows.len() as int
    } else if early(rows[from].at, offset, line) {
        next_row(rows, offset, line, from + 1)
    } else {
        from
    }
}

/// For each line, the row that falls on it, with the rows taken in turn from
/// `from` on and each at most once.
pub open spec fn laid(lines: Seq<LineView>, rows: Seq<LineView>, offset: int, from: int) -> Seq<
    Option<int>,
>
    decreases lines.len(),
{
    if lines.len() == 0 {
        Seq::empty()
    } else {
        let row = next_row(rows, offset, lines[0].at, from);
        if row >= rows.len() {
            Seq::new(lines.len(), |i: int| None::<int>)
        } else if near(rows[row].at, offset, lines[0].at) {
            seq![Some(row)] + laid(lines.drop_first(), rows, offset, row + 1)
        } else {
            seq![None::<int>] + laid(lines.drop_first(), rows, offset, row)
        }
    }
}

/// Whether a row has something to say that its line does not.
pub open spec fn translates(line: LineView, row: LineView) -> bool {
    trim(row.text).len() > 0 && trim(row.text) != trim(line.text)
}

/// A line with the row that falls on it as its translation.
pub open spec fn with_row(line: LineView, rows: Seq<LineView>, row: Option<int>) -> LineView {
    match row {
        Some(row) if translates(line, rows[row]) => LineView {
            translation: Some(trim(rows[row].text)),
            ..line
        },
        _ => line,
    }
}

/// The lines with the shifted rows laid over them.
pub open spec fn paired(lines: Seq<LineView>, rows: Seq<LineView>, offset: int) -> Seq<LineView> {
    Seq::new(lines.len(), |i: int| with_row(lines[i], rows, laid(lines, rows, offset, 0)[i]))
}

/// How many of the first `n` lines get a translation.
pub open spec fn count_to(
    lines: Seq<LineView>,
    rows: Seq<LineView>,
    offset: int,
    n: int,
) -> int
    decreases n,
{
    if n <= 0 {
        0
    } else {
        count_to(lines, rows, offset, n - 1) + match laid(lines, rows, offset, 0)[n - 1] {
            Some(row) if translates(lines[n - 1], rows[row]) => 1int,
            _ => 0,
        }
    }
}

/// How many lines get a translation.
pub open spec fn pair_count(lines: Seq<LineView>, rows: Seq<LineView>, offset: int) -> int {
    count_to(lines, rows, offset, lines.len() as int)
}

pub open spec fn size(step: int) -> int {
    if step < 0 {
        -step
    } else {
        step
    }
}

/// Whether the shift by `a` steps is preferred to that by `b`: it translates
/// more lines, or as many and is smaller, or is as large and brings more pairs
/// together. Of two opposite shifts that tie in all this, the later one is
/// taken.
pub open spec fn preferred(lines: Seq<LineView>, rows: Seq<LineView>, a: int, b: int) -> bool {
    let count_a = pair_count(lines, rows, a * STEP);
    let count_b = pair_count(lines, rows, b * STEP);
    ||| count_a > count_b
    ||| count_a == count_b && {
        ||| size(a) < size(b)
        ||| size(a) == size(b) && {
            ||| votes(lines, rows, a) > votes(lines, rows, b)
            ||| votes(lines, rows, a) == votes(lines, rows, b) && a > b
        }
    }
}

/// Whether some pair asks for the shift by `step` steps and it is preferred to
/// every other that some pair asks for.
pub open spec fn is_best(lines: Seq<LineView>, rows: Seq<LineView>, step: int) -> bool {
    &&& votes(lines, rows, step) > 0
    &&& forall|other: int|
        #![trigger votes(lines, rows, other)]
        votes(lines, rows, other) > 0 && other != step ==> preferred(lines, rows, step, other)
}

pub open spec fn least(a: int, b: int) -> int {
    if a < b {
        a
    } else {
        b
    }
}

/// Whether `matched` translated lines are enough for a timeline that could
/// give `available`: five of them, or all where there are fewer, and seven in
/// ten.
pub open spec fn enough(matched: int, available: int) -> bool {
    matched >= least(available, 5) && matched * 10 >= available * 7
}

/// The best shift in ticks and what it matches, if that is enough.
pub open spec fn best_shift(lines: Seq<LineView>, rows: Seq<LineView>) -> Option<(int, int)> {
    let available = least(lines.len() as int, rows.len() as int);
    if available > 0 && exists|step: int| is_best(lines, rows, step) {
        let step = choose|step: int| is_best(lines, rows, step);
        let matched = pair_count(lines, rows, step * STEP);
        if enough(matched, available) {
            Some((step * STEP, matched))
        } else {
            None
        }
    } else {
        None
    }
}

proof fn lemma_row_votes(line: LineView, rows: Seq<LineView>, step: int)
    ensures
        0 <= row_votes(line, rows, step) <= rows.len(),
        row_votes(line, rows, step) > 0 ==> -STEPS <= step <= STEPS,
    decreases rows.len(),
{
    if rows.len() > 0 {
        lemma_row_votes(line, rows.drop_last(), step);
    }
}

proof fn lemma_votes(lines: Seq<LineView>, rows: Seq<LineView>, step: int)
    ensures
        0 <= votes(lines, rows, step),
        votes(lines, rows, step) > 0 ==> -STEPS <= step <= STEPS,
    decreases lines.len(),
{
    if lines.len() > 0 {
        lemma_votes(lines.drop_last(), rows, step);
        lemma_row_votes(lines.last(), rows, step);
    }
}

proof fn lemma_count(lines: Seq<LineView>, rows: Seq<LineView>, offset: int, n: int)
    ensures
        0 <= count_to(lines, rows, offset, n),
        n >= 0 ==> count_to(lines, rows, offset, n) <= n,
    decreases n,
{
    if n > 0 {
        lemma_count(lines, rows, offset, n - 1);
    }
}

proof fn lemma_laid(lines: Seq<LineView>, rows: Seq<LineView>, offset: int, from: int)
    requires
        0 <= from <= rows.len(),
    ensures
        laid(lines, rows, offset, from).len() == lines.len(),
        forall|i: int|
            0 <= i < lines.len() ==> match #[trigger] laid(lines, rows, offset, from)[i] {
                Some(row) => from <= row < rows.len() && near(
                    rows[row].at,
                    offset,
                    lines[i].at,
                ),
                None => true,
            },
        forall|i: int, j: int|
            0 <= i < j < lines.len() ==> match (
                #[trigger] laid(lines, rows, offset, from)[i],
                #[trigger] laid(lines, rows, offset, from)[j],
            ) {
                (Some(a), Some(b)) => a < b,
                _ => true,
            },
    decreases lines.len(),
{
    if lines.len() > 0 {
        let row = next_row(rows, offset, lines[0].at, from);
        lemma_next_row(rows, offset, lines[0].at, from);
        if row < rows.len() {
            let all = laid(lines, rows, offset, from);
            let start = if near(rows[row].at, offset, lines[0].at) {
                row + 1
            } else {
                row
            };
            let rest = laid(lines.drop_first(), rows, offset, start);
            lemma_laid(lines.drop_first(), rows, offset, start);
            assert forall|i: int| 0 <= i < lines.len() implies match #[trigger] all[i] {
                Some(row) => from <= row < rows.len() && near(
                    rows[row].at,
                    offset,
                    lines[i].at,
                ),
                None => true,
            } by {
                if i > 0 {
                    assert(all[i] == rest[i - 1]);
                    assert(lines.drop_first()[i - 1] == lines[i]);
                }
            }
            assert forall|i: int, j: int| 0 <= i < j < lines.len() implies match (
                #[trigger] all[i],
                #[trigger] all[j],
            ) {
                (Some(a), Some(b)) => a < b,
                _ => true,
            } by {
                assert(all[j] == rest[j - 1]);
                if i > 0 {
                    assert(all[i] == rest[i - 1]);
                }
            }
        }
    }
}

proof fn lemma_next_row(rows: Seq<LineView>, offset: int, line: i64, from: int)
    requires
        0 <= from <= rows.len(),
    ensures
        from <= next_row(rows, offset, line, from) <= rows.len(),
    decreases rows.len() - from,
{
    if from < rows.len() && early(rows[from].at, offset, line) {
        lemma_next_row(rows, offset, line, from + 1);
    }
}

fn is_finite(at: i64) -> (res: bool)
    ensures
        res == finite(at as int),
{
    BELOW < at && at < ABOVE
}

fn find_step(line: i64, row: i64) -> (res: Option<i64>)
    ensures
        match res {
            Some(step) => step_between(line, row) == Some(step as int),
            None => step_between(line, row) is None,
        },
{
    let gap: i128 = line as i128 - row as i128;
    if !is_finite(line) || !is_finite(row) || gap < -50_000_000 || gap > 50_000_000 {
        return None;
    }
    let gap: i64 = gap as i64;
    if gap >= 0 {
        Some((gap + 250_000) / 500_000)
    } else {
        Some(-((-gap + 250_000) / 500_000))
    }
}

fn count_votes(lines: &Vec<LyricLine>, rows: &Vec<LyricLine>, step: i64) -> (res: u128)
    ensures
        res == votes(lines_view(lines@), lines_view(rows@), step as int),
{
    let ghost all = lines_view(lines@);
    let ghost other = lines_view(rows@);
    let mut sum: u128 = 0;
    for i in 0..lines.len()
        invariant
            all == lines_view(lines@),
            other == lines_view(rows@),
            sum == votes(all.take(i as int), other, step as int),
            sum <= i * 0xffff_ffff_ffff_ffff,
    {
        let mut count: u64 = 0;
        for j in 0..rows.len()
            invariant
                i < lines@.len(),
                all == lines_view(lines@),
                other == lines_view(rows@),
                count == row_votes(all[i as int], other.take(j as int), step as int),
                count <= j,
        {
            match find_step(lines[i].at, rows[j].at) {
                Some(found) => {
                    if found == step {
                        count = count + 1;
                    }
                },
                None => {},
            }
            assert(other.take(j + 1).drop_last() =~= other.take(j as int));
        }
        assert(other.take(other.len() as int) =~= other);
        assert(all.take(i + 1).drop_last() =~= all.take(i as int));
        sum = sum + count as u128;
    }
    assert(all.take(all.len() as int) =~= all);
    sum
}

fn comes_early(row: i64, offset: i64, line: i64) -> (res: bool)
    ensures
        res == early(row, offset as int, line),
{
    if row == NOT_A_NUMBER || row == NEGATIVE_NOT_A_NUMBER || line == NOT_A_NUMBER || line
        == NEGATIVE_NOT_A_NUMBER || row == ABOVE || line == BELOW {
        false
    } else if row == BELOW || line == ABOVE {
        true
    } else {
        (row as i128 + offset as i128) < (line as i128 - SLACK as i128)
    }
}

fn falls_on(row: i64, offset: i64, line: i64) -> (res: bool)
    ensures
        res == near(row, offset as int, line),
{
    let gap: i128 = row as i128 + offset as i128 - line as i128;
    is_finite(row) && is_finite(line) && -2_000_000 <= gap && gap <= 2_000_000
}

fn find_row(rows: &Vec<LyricLine>, offset: i64, line: i64, from: usize) -> (res: usize)
    requires
        from <= rows@.len(),
    ensures
        res == next_row(lines_view(rows@), offset as int, line, from as int),
        from <= res <= rows@.len(),
{
    let mut k: usize = from;
    while k < rows.len() && comes_early(rows[k].at, offset, line)
        invariant
            from <= k <= rows@.len(),
            next_row(lines_view(rows@), offset as int, line, from as int) == next_row(
                lines_view(rows@),
                offset as int,
                line,
                k as int,
            ),
        decreases rows@.len() - k,
    {
        k = k + 1;
    }
    k
}

/// Lays the rows, shifted by `offset` ticks, over the lines: each line takes
/// the next row that falls on it. Also counts the lines that got a
/// translation.
pub fn pair_translation(
    originals: &Vec<LyricLine>,
    translations: &Vec<LyricLine>,
    offset: i64,
) -> (res: (Vec<LyricLine>, usize))
    ensures
        lines_view(res.0@) == paired(
            lines_view(originals@),
            lines_view(translations@),
            offset as int,
        ),
        res.1 == pair_count(lines_view(originals@), lines_view(translations@), offset as int),
{
    let ghost lines = lines_view(originals@);
    let ghost rows = lines_view(translations@);
    let ghost all = laid(lines, rows, offset as int, 0);
    let mut out: Vec<LyricLine> = Vec::new();
    let mut matched: usize = 0;
    let mut from: usize = 0;
    let ghost mut done: Seq<Option<int>> = Seq::empty();
    proof {
        lemma_laid(lines, rows, offset as int, 0);
        assert(lines.skip(0) =~= lines);
        assert(all =~= done + laid(lines.skip(0), rows, offset as int, 0));
    }
    for i in 0..originals.len()
        invariant
            lines == lines_view(originals@),
            rows == lines_view(translations@),
            all == laid(lines, rows, offset as int, 0),
            all.len() == lines.len(),
            from <= rows.len(),
            done.len() == i,
            all == done + laid(lines.skip(i as int), rows, offset as int, from as int),
            lines_view(out@) == paired(lines, rows, offset as int).take(i as int),
            matched == count_to(lines, rows, offset as int, i as int),
            matched <= i,
    {
        let ghost rest = lines.skip(i as int);
        let ghost before = out@;
        let ghost start = from;
        let line = &originals[i];
        let row = find_row(translations, offset, line.at, from);
        let mut translation = copy_text(&line.translation);
        let mut taken: bool = false;
        let ghost mut choice: Option<int> = None;
        if row < translations.len() && falls_on(translations[row].at, offset, line.at) {
            let row_text = chars_of(translations[row].text.as_str());
            let line_text = chars_of(line.text.as_str());
            let text = trim_of(row_text.as_slice());
            if text.len() > 0 && !same(text, trim_of(line_text.as_slice())) {
                translation = Some(string_of(text));
                taken = true;
            }
            from = row + 1;
            proof {
                choice = Some(row as int);
            }
        } else {
            from = row;
        }
        if taken {
            matched = matched + 1;
        }
        let next = LyricLine {
            at: line.at,
            text: line.text.clone(),
            translation,
            words: copy_words(&line.words),
        };
        proof {
            let now = laid(rest, rows, offset as int, start as int);
            let then = laid(rest.drop_first(), rows, offset as int, from as int);
            assert(rest[0] == lines[i as int]);
            assert(rest.drop_first() =~= lines.skip(i + 1));
            assert(now =~= seq![choice] + then) by {
                lemma_next_row(rows, offset as int, line.at, start as int);
                if row >= rows.len() {
                    lemma_none_laid(rest.drop_first(), rows, offset as int);
                }
            }
            assert(all[i as int] == now[0]);
            assert(all[i as int] == choice);
            done = done.push(choice);
            assert(all =~= done + then);
            assert(next@ == with_row(lines[i as int], rows, choice));
        }
        out.push(next);
        assert(lines_view(out@) =~= lines_view(before).push(next@));
        assert(lines_view(out@) =~= paired(lines, rows, offset as int).take(i + 1));
    }
    assert(lines_view(out@) =~= paired(lines, rows, offset as int));
    (out, matched)
}

proof fn lemma_none_laid(lines: Seq<LineView>, rows: Seq<LineView>, offset: int)
    ensures
        laid(lines, rows, offset, rows.len() as int) =~= Seq::new(
            lines.len(),
            |i: int| None::<int>,
        ),
{
}

/// Finds the one shift that lays most translation rows over the lines, and
/// pairs them. This bears with providers that shift an otherwise identical
/// timeline. Gives the lines, the shift in ticks and how many lines got a
/// translation, if those are enough.
pub fn align_translation(
    originals: &Vec<LyricLine>,
    translations: &Vec<LyricLine>,
) -> (res: Option<(Vec<LyricLine>, i64, usize)>)
    ensures
        match res {
            Some((lines, offset, matched)) => {
                &&& best_shift(lines_view(originals@), lines_view(translations@)) == Some(
                    (offset as int, matched as int),
                )
                &&& lines_view(lines@) == paired(
                    lines_view(originals@),
                    lines_view(translations@),
                    offset as int,
                )
            },
            None => best_shift(lines_view(originals@), lines_view(translations@)) is None,
        },
{
    let ghost o = lines_view(originals@);
    let ghost t = lines_view(translations@);
    let available = if originals.len() < translations.len() {
        originals.len()
    } else {
        translations.len()
    };
    if available == 0 {
        return None;
    }
    let mut best: Option<(Vec<LyricLine>, i64, usize, u128)> = None;
    let mut step: i64 = -STEPS;
    while step <= STEPS
        invariant
            o == lines_view(originals@),
            t == lines_view(translations@),
            -STEPS <= step <= STEPS + 1,
            match best {
                Some((lines, chosen, matched, count)) => {
                    &&& -STEPS <= chosen <= STEPS
                    &&& count == votes(o, t, chosen as int) && count > 0
                    &&& matched == pair_count(o, t, chosen * STEP)
                    &&& lines_view(lines@) == paired(o, t, chosen * STEP)
                    &&& forall|other: int|
                        #![trigger votes(o, t, other)]
                        -STEPS <= other < step && votes(o, t, other) > 0 && other != chosen
                            ==> preferred(o, t, chosen as int, other)
                },
                None => forall|other: int|
                    #![trigger votes(o, t, other)]
                    -STEPS <= other < step ==> votes(o, t, other) <= 0,
            },
        decreases STEPS + 1 - step,
    {
        let count = count_votes(originals, translations, step);
        if count > 0 {
            let (lines, matched) = pair_translation(originals, translations, step * STEP);
            let better = match &best {
                Some((_, chosen, most, most_votes)) => {
                    let mine: i64 = if step < 0 {
                        -step
                    } else {
                        step
                    };
                    let theirs: i64 = if *chosen < 0 {
                        -*chosen
                    } else {
                        *chosen
                    };
                    matched > *most || (matched == *most && (mine < theirs || (mine == theirs && (
                    count > *most_votes || (count == *most_votes && step > *chosen)))))
                },
                None => true,
            };
            if better {
                best = Some((lines, step, matched, count));
            }
        }
        step = step + 1;
    }
    assert forall|other: int| #[trigger] votes(o, t, other) > 0 implies -STEPS <= other < step by {
        lemma_votes(o, t, other);
    }
    match best {
        Some((lines, chosen, matched, _)) => {
            proof {
                assert(is_best(o, t, chosen as int));
                let other = choose|step: int| is_best(o, t, step);
                assert(other == chosen) by {
                    assert(is_best(o, t, other));
                    if other != chosen {
                        assert(preferred(o, t, chosen as int, other));
                        assert(preferred(o, t, other, chosen as int));
                    }
                }
            }
            let rows: usize = if available < 5 {
                available
            } else {
                5
            };
            if matched >= rows && matched as u128 * 10 >= available as u128 * 7 {
                Some((lines, chosen * STEP, matched))
            } else {
                None
            }
        },
        None => {
            assert forall|step: int| !is_best(o, t, step) by {
                if is_best(o, t, step) {
                    assert(votes(o, t, step) > 0);
                }
            }
            None
        },
    }
}

/// Pairing changes nothing of a line but its translation, and that only to
/// what a row says, and the line does not, that falls within a fifth of a second
/// of the line once it is shifted.
pub proof fn law_pairing_only_adds_translations(
    lines: Seq<LineView>,
    rows: Seq<LineView>,
    offset: int,
    i: int,
)
    requires
        0 <= i < lines.len(),
    ensures
        paired(lines, rows, offset).len() == lines.len(),
        paired(lines, rows, offset)[i] == (LineView {
            translation: paired(lines, rows, offset)[i].translation,
            ..lines[i]
        }),
        paired(lines, rows, offset)[i].translation == lines[i].translation || exists|j: int|
            {
                &&& 0 <= j < rows.len()
                &&& near(#[trigger] rows[j].at, offset, lines[i].at)
                &&& -2_000_000 <= rows[j].at + offset - lines[i].at <= 2_000_000
                &&& i64::MIN + 1 < rows[j].at && rows[j].at < i64::MAX - 1
                &&& trim(rows[j].text).len() > 0
                &&& trim(rows[j].text) != trim(lines[i].text)
                &&& paired(lines, rows, offset)[i].translation == Some(trim(rows[j].text))
            },
{
    lemma_laid(lines, rows, offset, 0);
    match laid(lines, rows, offset, 0)[i] {
        Some(row) => {
            assert(near(rows[row].at, offset, lines[i].at));
            assert(-2_000_000 <= rows[row].at + offset - lines[i].at <= 2_000_000);
        },
        None => {},
    }
}

/// Rows are laid over the lines in their own order: a later line never takes
/// an earlier row, and no row is taken twice.
pub proof fn law_pairing_is_monotone(
    lines: Seq<LineView>,
    rows: Seq<LineView>,
    offset: int,
    i: int,
    j: int,
)
    requires
        0 <= i < j < lines.len(),
        laid(lines, rows, offset, 0)[i] is Some,
        laid(lines, rows, offset, 0)[j] is Some,
    ensures
        laid(lines, rows, offset, 0)[i]->0 < laid(lines, rows, offset, 0)[j]->0,
{
    lemma_laid(lines, rows, offset, 0);
}

/// An alignment that is accepted shifts by whole twentieths of a second, at most
/// five seconds, and translates at least seven in ten of the lines that it
/// could, and five of them or all.
pub proof fn law_accepted_alignment_is_close(lines: Seq<LineView>, rows: Seq<LineView>)
    requires
        best_shift(lines, rows) is Some,
    ensures
        ({
            let (offset, matched) = best_shift(lines, rows)->0;
            &&& -50_000_000 <= offset <= 50_000_000
            &&& offset % 500_000 == 0
            &&& matched * 10 >= least(lines.len() as int, rows.len() as int) * 7
            &&& matched * 10 >= lines.len() * 7 || matched * 10 >= rows.len() * 7
            &&& matched >= 5 || matched >= lines.len() || matched >= rows.len()
            &&& 1 <= matched <= lines.len()
            &&& matched <= rows.len()
        }),
{
    let step = choose|step: int| is_best(lines, rows, step);
    lemma_votes(lines, rows, step);
    lemma_count(lines, rows, step * STEP, lines.len() as int);
    lemma_laid(lines, rows, step * STEP, 0);
    lemma_count_rows(lines, rows, step * STEP, lines.len() as int, rows.len() as int);
}

/// Of the first lines, no more are translated than there are rows before the
/// last that they take.
proof fn lemma_count_rows(lines: Seq<LineView>, rows: Seq<LineView>, offset: int, n: int, m: int)
    requires
        0 <= n <= lines.len(),
        0 <= m,
        forall|i: int|
            0 <= i < n ==> match #[trigger] laid(lines, rows, offset, 0)[i] {
                Some(row) => 0 <= row < m,
                None => true,
            },
        forall|i: int, j: int|
            0 <= i < j < n ==> match (
                #[trigger] laid(lines, rows, offset, 0)[i],
                #[trigger] laid(lines, rows, offset, 0)[j],
            ) {
                (Some(a), Some(b)) => a < b,
                _ => true,
            },
    ensures
        count_to(lines, rows, offset, n) <= m,
    decreases n,
{
    if n > 0 {
        let all = laid(lines, rows, offset, 0);
        let most = match all[n - 1] {
            Some(row) => row,
            None => m,
        };
        assert forall|i: int| 0 <= i < n - 1 implies match #[trigger] all[i] {
            Some(row) => 0 <= row < most,
            None => true,
        } by {
            let last = all[n - 1];
            let one = all[i];
        }
        lemma_count_rows(lines, rows, offset, n - 1, most);
    }
}

proof fn lemma_preferred_total(lines: Seq<LineView>, rows: Seq<LineView>, a: int, b: int)
    requires
        a != b,
    ensures
        preferred(lines, rows, a, b) || preferred(lines, rows, b, a),
{
}

proof fn lemma_best_exists(lines: Seq<LineView>, rows: Seq<LineView>, end: int) -> (best: int)
    requires
        -STEPS <= end,
        exists|step: int| -STEPS <= step <= end && #[trigger] votes(lines, rows, step) > 0,
    ensures
        -STEPS <= best <= end,
        votes(lines, rows, best) > 0,
        forall|other: int|
            #![trigger votes(lines, rows, other)]
            -STEPS <= other <= end && votes(lines, rows, other) > 0 && other != best ==> preferred(
                lines,
                rows,
                best,
                other,
            ),
    decreases end + STEPS,
{
    let earlier = exists|step: int|
        -STEPS <= step <= end - 1 && #[trigger] votes(lines, rows, step) > 0;
    if !earlier || end == -STEPS {
        end
    } else {
        let best = lemma_best_exists(lines, rows, end - 1);
        if votes(lines, rows, end) > 0 {
            lemma_preferred_total(lines, rows, best, end);
            if preferred(lines, rows, end, best) {
                end
            } else {
                best
            }
        } else {
            best
        }
    }
}

proof fn lemma_shifted_laid(lines: Seq<LineView>, rows: Seq<LineView>, offset: int, from: int)
    requires
        0 <= from,
        rows.len() == lines.len() + from,
        forall|i: int|
            #![trigger lines[i]]
            0 <= i < lines.len() ==> near(rows[i + from].at, offset, lines[i].at),
    ensures
        laid(lines, rows, offset, from) == Seq::new(lines.len(), |i: int| Some(i + from)),
    decreases lines.len(),
{
    let want = Seq::new(lines.len(), |i: int| Some(i + from));
    if lines.len() > 0 {
        let rest = lines.drop_first();
        assert(near(rows[0 + from].at, offset, lines[0].at));
        assert(next_row(rows, offset, lines[0].at, from) == from);
        assert forall|i: int| #![trigger rest[i]] 0 <= i < rest.len() implies near(
            rows[i + (from + 1)].at,
            offset,
            rest[i].at,
        ) by {
            assert(rest[i] == lines[i + 1]);
            assert(near(rows[(i + 1) + from].at, offset, lines[i + 1].at));
        }
        lemma_shifted_laid(rest, rows, offset, from + 1);
        assert(laid(lines, rows, offset, from) =~= want);
    } else {
        assert(laid(lines, rows, offset, from) =~= want);
    }
}

proof fn lemma_count_all(lines: Seq<LineView>, rows: Seq<LineView>, offset: int, n: int)
    requires
        0 <= n <= lines.len(),
        laid(lines, rows, offset, 0) == Seq::new(lines.len(), |i: int| Some(i + 0)),
        forall|i: int|
            #![trigger lines[i]]
            0 <= i < lines.len() ==> translates(lines[i], rows[i]),
    ensures
        count_to(lines, rows, offset, n) == n,
    decreases n,
{
    if n > 0 {
        lemma_count_all(lines, rows, offset, n - 1);
        assert(translates(lines[n - 1], rows[n - 1]));
    }
}

proof fn lemma_row_vote(line: LineView, rows: Seq<LineView>, step: int, j: int)
    requires
        0 <= j < rows.len(),
        step_between(line.at, rows[j].at) == Some(step),
    ensures
        row_votes(line, rows, step) > 0,
    decreases rows.len(),
{
    lemma_row_votes(line, rows.drop_last(), step);
    if j < rows.len() - 1 {
        lemma_row_vote(line, rows.drop_last(), step, j);
    }
}

/// The steps in a gap that is less than half a step from a whole number of them.
proof fn lemma_steps(gap: int, step: int)
    requires
        -250_000 < gap - step * 500_000 < 250_000,
    ensures
        steps_in(gap) == step,
{
}

/// A pair of a line and a row votes for the step between them.
proof fn lemma_asked(lines: Seq<LineView>, rows: Seq<LineView>, a: int, b: int, step: int)
    requires
        0 <= a < lines.len(),
        0 <= b < rows.len(),
        step_between(lines[a].at, rows[b].at) == Some(step),
    ensures
        votes(lines, rows, step) > 0,
    decreases lines.len(),
{
    lemma_votes(lines.drop_last(), rows, step);
    lemma_row_votes(lines.last(), rows, step);
    if a == lines.len() - 1 {
        lemma_row_vote(lines.last(), rows, step, b);
    } else {
        lemma_asked(lines.drop_last(), rows, a, b, step);
    }
}

/// If some pair asks for a step, the shift that is best is at least as good.
proof fn lemma_best_is_as_good(lines: Seq<LineView>, rows: Seq<LineView>, step: int) -> (best: int)
    requires
        votes(lines, rows, step) > 0,
    ensures
        is_best(lines, rows, best),
        best == (choose|step: int| is_best(lines, rows, step)),
        pair_count(lines, rows, best * STEP) >= pair_count(lines, rows, step * STEP),
        pair_count(lines, rows, best * STEP) == pair_count(lines, rows, step * STEP) ==> size(best)
            <= size(step),
{
    lemma_votes(lines, rows, step);
    assert forall|other: int| #[trigger] votes(lines, rows, other) > 0 implies -STEPS <= other
        <= STEPS by {
        lemma_votes(lines, rows, other);
    }
    let found = lemma_best_exists(lines, rows, STEPS as int);
    assert(is_best(lines, rows, found));
    let best = choose|step: int| is_best(lines, rows, step);
    if best != step {
        assert(preferred(lines, rows, best, step));
    }
    best
}

/// Rows that translate their lines one by one are all laid over them where one
/// shift, which some line and some row ask for, brings each row within a fifth
/// of a second of its line: the two timelines need not agree to the tick, nor
/// the lines be in order.
pub proof fn law_rows_may_miss_their_lines(
    lines: Seq<LineView>,
    rows: Seq<LineView>,
    step: int,
    a: int,
    b: int,
)
    requires
        rows.len() == lines.len(),
        0 <= a < lines.len(),
        0 <= b < rows.len(),
        -50_000_000 <= lines[a].at - rows[b].at <= 50_000_000,
        -250_000 < lines[a].at - rows[b].at - step * 500_000 < 250_000,
        forall|i: int|
            #![trigger lines[i]]
            0 <= i < lines.len() ==> {
                &&& i64::MIN + 1 < lines[i].at && lines[i].at < i64::MAX - 1
                &&& i64::MIN + 1 < rows[i].at && rows[i].at < i64::MAX - 1
                &&& -2_000_000 <= rows[i].at + step * 500_000 - lines[i].at <= 2_000_000
                &&& trim(rows[i].text).len() > 0
                &&& trim(rows[i].text) != trim(lines[i].text)
            },
    ensures
        best_shift(lines, rows) is Some,
        (best_shift(lines, rows)->0).1 == lines.len(),
        size((best_shift(lines, rows)->0).0) <= size(step * 500_000),
{
    let offset = step * STEP;
    assert forall|i: int| #![trigger lines[i]] 0 <= i < lines.len() implies near(
        rows[i + 0].at,
        offset,
        lines[i].at,
    ) && translates(lines[i], rows[i]) by {}
    lemma_shifted_laid(lines, rows, offset, 0);
    lemma_count_all(lines, rows, offset, lines.len() as int);
    lemma_steps(lines[a].at - rows[b].at, step);
    let line = lines[a];
    let row = lines[b];
    assert(step_between(lines[a].at, rows[b].at) == Some(step));
    lemma_asked(lines, rows, a, b, step);
    let best = lemma_best_is_as_good(lines, rows, step);
    lemma_count(lines, rows, best * STEP, lines.len() as int);
}

/// A translation whose timeline is the lyric's own, shifted as a whole by up
/// to five seconds in whole steps, is laid over every line of it.
pub proof fn law_shifted_timeline_is_aligned(
    lines: Seq<LineView>,
    rows: Seq<LineView>,
    step: int,
)
    requires
        lines.len() > 0,
        rows.len() == lines.len(),
        -100 <= step <= 100,
        forall|i: int|
            #![trigger lines[i]]
            0 <= i < lines.len() ==> {
                &&& i64::MIN + 1 < lines[i].at && lines[i].at < i64::MAX - 1
                &&& i64::MIN + 1 < rows[i].at && rows[i].at < i64::MAX - 1
                &&& rows[i].at + step * 500_000 == lines[i].at
                &&& trim(rows[i].text).len() > 0
                &&& trim(rows[i].text) != trim(lines[i].text)
            },
    ensures
        best_shift(lines, rows) is Some,
        (best_shift(lines, rows)->0).1 == lines.len(),
{
    let line = lines[0];
    law_rows_may_miss_their_lines(lines, rows, step, 0, 0);
}

/// Whether row `r`, shifted, lies within a fifth of a second of line `l`.
pub open spec fn meets(
    lines: Seq<LineView>,
    rows: Seq<LineView>,
    offset: int,
    l: int,
    r: int,
) -> bool {
    -2_000_000 <= rows[r].at + offset - lines[l].at <= 2_000_000
}

/// Whether row `r`, shifted, meets line `l` and no line before it, with the
/// lines before the one and the rows before the other in their order and at
/// real times.
pub open spec fn first_met(
    lines: Seq<LineView>,
    rows: Seq<LineView>,
    offset: int,
    l: int,
    r: int,
) -> bool {
    &&& 0 <= l < lines.len() && 0 <= r < rows.len()
    &&& meets(lines, rows, offset, l, r)
    &&& forall|i: int|
        #![trigger lines[i]]
        0 <= i <= l ==> {
            &&& i64::MIN + 1 < lines[i].at <= lines[l].at
            &&& lines[i].at < i64::MAX - 1
            &&& i < l ==> !meets(lines, rows, offset, i, r)
        }
    &&& forall|k: int|
        #![trigger rows[k]]
        0 <= k <= r ==> i64::MIN + 1 < rows[k].at <= rows[r].at && rows[k].at < i64::MAX - 1
}

proof fn lemma_next_row_is_first(
    rows: Seq<LineView>,
    offset: int,
    line: i64,
    from: int,
    r: int,
)
    requires
        0 <= from <= r < rows.len(),
        !early(rows[r].at, offset, line),
    ensures
        from <= next_row(rows, offset, line, from) <= r,
        !early(rows[next_row(rows, offset, line, from)].at, offset, line),
    decreases rows.len() - from,
{
    if early(rows[from].at, offset, line) {
        lemma_next_row_is_first(rows, offset, line, from + 1, r);
    }
}

proof fn lemma_row_is_taken(
    lines: Seq<LineView>,
    rows: Seq<LineView>,
    offset: int,
    from: int,
    l: int,
    r: int,
)
    requires
        0 <= from <= r,
        first_met(lines, rows, offset, l, r),
    ensures
        laid(lines, rows, offset, from).len() == lines.len(),
        laid(lines, rows, offset, from)[l] is Some,
        from <= laid(lines, rows, offset, from)[l]->0 <= r,
    decreases lines.len(),
{
    lemma_laid(lines, rows, offset, from);
    let first = lines[0];
    let met = lines[l];
    let row = rows[r];
    assert(!early(rows[r].at, offset, lines[0].at));
    let next = next_row(rows, offset, lines[0].at, from);
    lemma_next_row_is_first(rows, offset, lines[0].at, from, r);
    let at = rows[next];
    if l > 0 {
        let start = if near(rows[next].at, offset, lines[0].at) {
            next + 1
        } else {
            next
        };
        let rest = lines.drop_first();
        assert forall|i: int| #![trigger rest[i]] 0 <= i <= l - 1 implies {
            &&& i64::MIN + 1 < rest[i].at <= rest[l - 1].at
            &&& rest[i].at < i64::MAX - 1
            &&& i < l - 1 ==> !meets(rest, rows, offset, i, r)
        } by {
            assert(rest[i] == lines[i + 1]);
            assert(rest[l - 1] == lines[l]);
        }
        assert(rest[l - 1] == lines[l]);
        assert(start <= r) by {
            if next == r {
                assert(!meets(lines, rows, offset, 0, r));
            }
        }
        lemma_row_is_taken(rest, rows, offset, start, l - 1, r);
    }
}

/// A line that a shifted row meets, and no line before it does, takes a row: the
/// first that meets it and was not taken, with what that says as its
/// translation, where it says something that the line does not.
pub proof fn law_met_line_takes_a_row(
    lines: Seq<LineView>,
    rows: Seq<LineView>,
    offset: int,
    l: int,
    r: int,
)
    requires
        first_met(lines, rows, offset, l, r),
    ensures
        exists|k: int|
            {
                &&& 0 <= k <= r
                &&& #[trigger] meets(lines, rows, offset, l, k)
                &&& paired(lines, rows, offset)[l].translation == if trim(rows[k].text).len() > 0
                    && trim(rows[k].text) != trim(lines[l].text) {
                    Some(trim(rows[k].text))
                } else {
                    lines[l].translation
                }
            },
{
    lemma_row_is_taken(lines, rows, offset, 0, l, r);
    lemma_laid(lines, rows, offset, 0);
    let k = laid(lines, rows, offset, 0)[l]->0;
    assert(laid(lines, rows, offset, 0)[l] == Some(k));
    assert(meets(lines, rows, offset, l, k));
}

/// Whether row `r`, shifted, and line `l` meet each other and, up to there,
/// nothing else.
pub open spec fn lone(
    lines: Seq<LineView>,
    rows: Seq<LineView>,
    offset: int,
    l: int,
    r: int,
) -> bool {
    &&& first_met(lines, rows, offset, l, r)
    &&& forall|k: int| 0 <= k < r ==> !#[trigger] meets(lines, rows, offset, l, k)
}

/// A line and a row that meet each other alone are paired: what the row says
/// becomes the line's translation, unless it says nothing or what the line says.
pub proof fn law_lone_row_translates_its_line(
    lines: Seq<LineView>,
    rows: Seq<LineView>,
    offset: int,
    l: int,
    r: int,
)
    requires
        lone(lines, rows, offset, l, r),
        trim(rows[r].text).len() > 0,
        trim(rows[r].text) != trim(lines[l].text),
    ensures
        paired(lines, rows, offset)[l].translation == Some(trim(rows[r].text)),
{
    law_met_line_takes_a_row(lines, rows, offset, l, r);
}

/// How many lines have a translation.
pub open spec fn said(lines: Seq<LineView>) -> int
    decreases lines.len(),
{
    if lines.len() == 0 {
        0
    } else {
        said(lines.drop_last()) + if lines.last().translation is Some {
            1int
        } else {
            0
        }
    }
}

proof fn lemma_said(lines: Seq<LineView>, rows: Seq<LineView>, offset: int, n: int)
    requires
        0 <= n <= lines.len(),
    ensures
        said(paired(lines, rows, offset).take(n)) >= count_to(lines, rows, offset, n),
        (forall|i: int| 0 <= i < n ==> (#[trigger] lines[i]).translation is None) ==> said(
            paired(lines, rows, offset).take(n),
        ) == count_to(lines, rows, offset, n),
    decreases n,
{
    if n > 0 {
        lemma_said(lines, rows, offset, n - 1);
        assert(paired(lines, rows, offset).take(n).drop_last() =~= paired(
            lines,
            rows,
            offset,
        ).take(n - 1));
        let last = lines[n - 1];
    }
}

/// At least as many lines have a translation once rows are laid over them as are
/// counted, and just as many where no line had one before.
pub proof fn law_count_is_of_translated_lines(
    lines: Seq<LineView>,
    rows: Seq<LineView>,
    offset: int,
)
    ensures
        said(paired(lines, rows, offset)) >= pair_count(lines, rows, offset),
        (forall|i: int| 0 <= i < lines.len() ==> (#[trigger] lines[i]).translation is None) ==> said(
            paired(lines, rows, offset),
        ) == pair_count(lines, rows, offset),
{
    lemma_said(lines, rows, offset, lines.len() as int);
    assert(paired(lines, rows, offset).take(lines.len() as int) =~= paired(lines, rows, offset));
}

/// The shift that is taken translates at least as many lines as any that a line
/// and a row ask for, and is the smallest of those that translate as many; and
/// one is taken where any of them translates enough: seven in ten of the lines
/// that could be, and five or all of them.
pub proof fn law_best_shift_translates_most(
    lines: Seq<LineView>,
    rows: Seq<LineView>,
    step: int,
    a: int,
    b: int,
)
    requires
        0 <= a < lines.len(),
        0 <= b < rows.len(),
        i64::MIN + 1 < lines[a].at && lines[a].at < i64::MAX - 1,
        i64::MIN + 1 < rows[b].at && rows[b].at < i64::MAX - 1,
        -50_000_000 <= lines[a].at - rows[b].at <= 50_000_000,
        -250_000 < lines[a].at - rows[b].at - step * 500_000 < 250_000,
        forall|i: int| 0 <= i < lines.len() ==> (#[trigger] lines[i]).translation is None,
    ensures
        best_shift(lines, rows) matches Some((offset, matched)) ==> {
            &&& matched == said(paired(lines, rows, offset))
            &&& matched >= said(paired(lines, rows, step * 500_000))
            &&& matched == said(paired(lines, rows, step * 500_000)) ==> size(offset) <= size(
                step * 500_000,
            )
        },
        ({
            let count = said(paired(lines, rows, step * 500_000));
            &&& count >= 5 || count >= lines.len() || count >= rows.len()
            &&& count * 10 >= lines.len() * 7 || count * 10 >= rows.len() * 7
        }) ==> best_shift(lines, rows) is Some,
{
    lemma_steps(lines[a].at - rows[b].at, step);
    lemma_asked(lines, rows, a, b, step);
    let best = lemma_best_is_as_good(lines, rows, step);
    law_count_is_of_translated_lines(lines, rows, step * STEP);
    law_count_is_of_translated_lines(lines, rows, best * STEP);
}

/// The shift that is taken is one that a line and a row ask for: it lays the one
/// within half a step of the other.
pub proof fn law_shift_is_asked_for(lines: Seq<LineView>, rows: Seq<LineView>)
    requires
        best_shift(lines, rows) is Some,
    ensures
        exists|a: int, b: int|
            {
                &&& 0 <= a < lines.len() && 0 <= b < rows.len()
                &&& -50_000_000 <= #[trigger] lines[a].at - #[trigger] rows[b].at <= 50_000_000
                &&& -250_000 <= lines[a].at - rows[b].at - (best_shift(lines, rows)->0).0 <= 250_000
            },
{
    let step = choose|step: int| is_best(lines, rows, step);
    let (a, b) = lemma_asker(lines, rows, step);
    assert(-50_000_000 <= lines[a].at - rows[b].at <= 50_000_000);
}

proof fn lemma_asker(lines: Seq<LineView>, rows: Seq<LineView>, step: int) -> (res: (int, int))
    requires
        votes(lines, rows, step) > 0,
    ensures
        0 <= res.0 < lines.len() && 0 <= res.1 < rows.len(),
        step_between(lines[res.0].at, rows[res.1].at) == Some(step),
    decreases lines.len(),
{
    if row_votes(lines.last(), rows, step) > 0 {
        (lines.len() - 1, lemma_row_asker(lines.last(), rows, step))
    } else {
        lemma_row_votes(lines.last(), rows, step);
        lemma_asker(lines.drop_last(), rows, step)
    }
}

proof fn lemma_row_asker(line: LineView, rows: Seq<LineView>, step: int) -> (res: int)
    requires
        row_votes(line, rows, step) > 0,
    ensures
        0 <= res < rows.len(),
        step_between(line.at, rows[res].at) == Some(step),
    decreases rows.len(),
{
    if step_between(line.at, rows.last().at) == Some(step) {
        rows.len() - 1
    } else {
        lemma_row_asker(line, rows.drop_last(), step)
    }
}

} // verus!
