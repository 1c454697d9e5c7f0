//! Text as sequences of characters: searching, trimming, splitting.
//!
//! The specifications speak of `Seq<char>`, the view of `str` and `String`;
//! the executable functions work on slices of characters.

use vstd::prelude::*;
use vstd::slice::slice_subrange;

verus! {

/// The lower-case form of a text under Unicode's rules, which do not depend on
/// the machine or its locale.
pub uninterp spec fn lowercase(text: Seq<char>) -> Seq<char>;

/// Whether a character is a letter or a number in Unicode's sense.
pub uninterp spec fn alphanumeric(c: char) -> bool;

/// `str::to_lowercase`: its result is a function of the text alone, which is
/// named here and not spelled out. The lower-case mappings of Unicode turn no
/// other character into U+001F, a control character, so it stands in the result
/// only where it stood in the text.
pub assume_specification[ str::to_lowercase ](s: &str) -> (res: String)
    ensures
        res@ == lowercase(s@),
        res@.contains('\u{1f}') ==> s@.contains('\u{1f}'),
;

/// `char::is_alphanumeric`: its result is a function of the character alone,
/// which is named here and not spelled out. U+001F, a control character, is
/// neither alphabetic nor numeric.
pub assume_specification[ char::is_alphanumeric ](c: char) -> (res: bool)
    ensures
        res == alphanumeric(c),
        c == '\u{1f}' ==> !res,
;

/// `String::push`: appends one character.
pub assume_specification[ String::push ](s: &mut String, c: char)
    ensures
        final(s)@ == old(s)@.push(c),
;

/// The characters with Unicode's `White_Space` property.
pub open spec fn white(c: char) -> bool {
    ||| 0x9 <= c as u32 <= 0xd
    ||| c as u32 == 0x20
    ||| c as u32 == 0x85
    ||| c as u32 == 0xa0
    ||| c as u32 == 0x1680
    ||| 0x2000 <= c as u32 <= 0x200a
    ||| c as u32 == 0x2028
    ||| c as u32 == 0x2029
    ||| c as u32 == 0x202f
    ||| c as u32 == 0x205f
    ||| c as u32 == 0x3000
}

/// The first position at or after `from` that holds `c`, or the length.
pub open spec fn position(s: Seq<char>, c: char, from: int) -> int
    decreases s.len() - from,
{
    if from < 0 || from >= s.len() {
        s.len() as int
    } else if s[from] == c {
        from
    } else {
        position(s, c, from + 1)
    }
}

/// The first position at or after `from` that holds one of `stops`, or the
/// length.
pub open spec fn scan(s: Seq<char>, stops: Seq<char>, from: int) -> int
    decreases s.len() - from,
{
    if from < 0 || from >= s.len() {
        s.len() as int
    } else if stops.contains(s[from]) {
        from
    } else {
        scan(s, stops, from + 1)
    }
}

/// The last position before `end` that holds `c`, or -1.
pub open spec fn last_position(s: Seq<char>, c: char, end: int) -> int
    decreases end,
{
    if end <= 0 || end > s.len() {
        -1
    } else if s[end - 1] == c {
        end - 1
    } else {
        last_position(s, c, end - 1)
    }
}

/// Whether `needle` stands in `s` at position `i`.
pub open spec fn stands_at(s: Seq<char>, needle: Seq<char>, i: int) -> bool {
    0 <= i && i + needle.len() <= s.len() && s.subrange(i, i + needle.len()) == needle
}

/// The first position at or after `from` where `needle` stands, or the length.
pub open spec fn find(s: Seq<char>, needle: Seq<char>, from: int) -> int
    decreases s.len() - from,
{
    if from < 0 || from >= s.len() {
        s.len() as int
    } else if stands_at(s, needle, from) {
        from
    } else {
        find(s, needle, from + 1)
    }
}

/// Whether `needle` stands anywhere in `s`.
pub open spec fn contains(s: Seq<char>, needle: Seq<char>) -> bool {
    exists|i: int| #[trigger] stands_at(s, needle, i)
}

pub open spec fn trim_start(s: Seq<char>) -> Seq<char>
    decreases s.len(),
{
    if s.len() > 0 && white(s[0]) {
        trim_start(s.drop_first())
    } else {
        s
    }
}

pub open spec fn trim_end(s: Seq<char>) -> Seq<char>
    decreases s.len(),
{
    if s.len() > 0 && white(s.last()) {
        trim_end(s.drop_last())
    } else {
        s
    }
}

/// The text without the white space around it.
pub open spec fn trim(s: Seq<char>) -> Seq<char> {
    trim_end(trim_start(s))
}

/// A row without the carriage return that ends it.
pub open spec fn chomp(row: Seq<char>) -> Seq<char> {
    if row.len() > 0 && row.last() == '\r' {
        row.drop_last()
    } else {
        row
    }
}

/// The rows of a text: each ends at a line feed, together with one carriage
/// return before it, and an empty row at the end of the text is none.
pub open spec fn rows(s: Seq<char>) -> Seq<Seq<char>>
    decreases s.len(),
{
    let end = position(s, '\n', 0);
    if s.len() == 0 {
        Seq::empty()
    } else if end < 0 || end >= s.len() {
        seq![s]
    } else {
        seq![chomp(s.take(end))] + rows(s.skip(end + 1))
    }
}

/// The pieces of a text between the characters of `stops`.
pub open spec fn pieces(s: Seq<char>, stops: Seq<char>) -> Seq<Seq<char>>
    decreases s.len(),
{
    let end = scan(s, stops, 0);
    if end < 0 || end >= s.len() {
        seq![s]
    } else {
        seq![s.take(end)] + pieces(s.skip(end + 1), stops)
    }
}

/// The text with every occurrence of `from`, taken from the left and without
/// overlap, replaced by `to`.
pub open spec fn replaced(s: Seq<char>, from: Seq<char>, to: Seq<char>) -> Seq<char>
    decreases s.len(),
{
    if s.len() == 0 || from.len() == 0 {
        s
    } else if stands_at(s, from, 0) {
        to + replaced(s.skip(from.len() as int), from, to)
    } else {
        seq![s[0]] + replaced(s.drop_first(), from, to)
    }
}

/// What a list of strings says.
pub open spec fn texts(list: Seq<String>) -> Seq<Seq<char>> {
    Seq::new(list.len(), |i: int| list[i]@)
}

/// `position` stays within the text, lands on `c` unless at the end, and
/// passes over no `c`.
pub proof fn lemma_position(s: Seq<char>, c: char, from: int)
    requires
        0 <= from <= s.len(),
    ensures
        from <= position(s, c, from) <= s.len(),
        position(s, c, from) < s.len() ==> s[position(s, c, from)] == c,
        forall|i: int| from <= i < position(s, c, from) ==> s[i] != c,
    decreases s.len() - from,
{
    if from < s.len() && s[from] != c {
        lemma_position(s, c, from + 1);
    }
}

/// The characters of a string.
pub fn chars_of(s: &str) -> (res: Vec<char>)
    ensures
        res@ == s@,
{
    let mut res: Vec<char> = Vec::new();
    for c in iter: s.chars()
        invariant
            res@ == s@.take(iter.index() as int),
            iter.seq() == s@,
    {
        res.push(c);
    }
    res
}

/// The string that `chars` spells.
pub fn string_of(chars: &[char]) -> (res: String)
    ensures
        res@ == chars@,
{
    let mut res = String::new();
    for i in 0..chars.len()
        invariant
            res@ == chars@.take(i as int),
    {
        res.push(chars[i]);
    }
    res
}

/// The string that holds what `s` holds.
pub fn owned(s: &str) -> (res: String)
    ensures
        res@ == s@,
{
    s.to_owned()
}

pub fn is_white(c: char) -> (res: bool)
    ensures
        res == white(c),
{
    let code: u32 = c as u32;
    (0x9 <= code && code <= 0xd) || code == 0x20 || code == 0x85 || code == 0xa0 || code == 0x1680
        || (0x2000 <= code && code <= 0x200a) || code == 0x2028 || code == 0x2029 || code == 0x202f
        || code == 0x205f || code == 0x3000
}

pub fn same(a: &[char], b: &[char]) -> (res: bool)
    ensures
        res == (a@ == b@),
{
    if a.len() != b.len() {
        return false;
    }
    for i in 0..a.len()
        invariant
            a@.len() == b@.len(),
            a@.take(i as int) == b@.take(i as int),
    {
        if a[i] != b[i] {
            assert(a@[i as int] != b@[i as int]);
            return false;
        }
        assert(a@.take(i + 1) =~= a@.take(i as int).push(a@[i as int]));
        assert(b@.take(i + 1) =~= b@.take(i as int).push(b@[i as int]));
    }
    assert(a@ =~= a@.take(a@.len() as int));
    assert(b@ =~= b@.take(b@.len() as int));
    true
}

pub fn same_text(a: &str, b: &str) -> (res: bool)
    ensures
        res == (a@ == b@),
{
    let left = chars_of(a);
    let right = chars_of(b);
    same(left.as_slice(), right.as_slice())
}

pub fn is_member(set: &[char], c: char) -> (res: bool)
    ensures
        res == set@.contains(c),
{
    for i in 0..set.len()
        invariant
            forall|j: int| 0 <= j < i ==> set@[j] != c,
    {
        if set[i] == c {
            return true;
        }
    }
    false
}

pub fn position_of(s: &[char], c: char, from: usize) -> (res: usize)
    requires
        from <= s@.len(),
    ensures
        res == position(s@, c, from as int),
        from <= res <= s@.len(),
        res < s@.len() ==> s@[res as int] == c,
{
    let mut i: usize = from;
    while i < s.len()
        invariant
            from <= i <= s@.len(),
            position(s@, c, from as int) == position(s@, c, i as int),
        decreases s@.len() - i,
    {
        if s[i] == c {
            return i;
        }
        i = i + 1;
    }
    i
}

pub fn scan_of(s: &[char], stops: &[char], from: usize) -> (res: usize)
    requires
        from <= s@.len(),
    ensures
        res == scan(s@, stops@, from as int),
        from <= res <= s@.len(),
{
    let mut i: usize = from;
    while i < s.len()
        invariant
            from <= i <= s@.len(),
            scan(s@, stops@, from as int) == scan(s@, stops@, i as int),
        decreases s@.len() - i,
    {
        if is_member(stops, s[i]) {
            return i;
        }
        i = i + 1;
    }
    i
}

/// The last position of `c`, if it occurs.
pub fn last_position_of(s: &[char], c: char) -> (res: Option<usize>)
    ensures
        match res {
            Some(i) => i < s@.len() && i == last_position(s@, c, s@.len() as int),
            None => last_position(s@, c, s@.len() as int) == -1,
        },
{
    let mut end: usize = s.len();
    while end > 0
        invariant
            end <= s@.len(),
            last_position(s@, c, s@.len() as int) == last_position(s@, c, end as int),
        decreases end,
    {
        if s[end - 1] == c {
            return Some(end - 1);
        }
        end = end - 1;
    }
    None
}

pub fn stands_here(s: &[char], needle: &[char], i: usize) -> (res: bool)
    ensures
        res == stands_at(s@, needle@, i as int),
{
    if i > s.len() || needle.len() > s.len() - i {
        return false;
    }
    same(slice_subrange(s, i, i + needle.len()), needle)
}

pub fn find_of(s: &[char], needle: &[char], from: usize) -> (res: usize)
    requires
        from <= s@.len(),
    ensures
        res == find(s@, needle@, from as int),
        from <= res <= s@.len(),
        res < s@.len() ==> stands_at(s@, needle@, res as int),
{
    let mut i: usize = from;
    while i < s.len()
        invariant
            from <= i <= s@.len(),
            find(s@, needle@, from as int) == find(s@, needle@, i as int),
        decreases s@.len() - i,
    {
        if stands_here(s, needle, i) {
            return i;
        }
        i = i + 1;
    }
    i
}

pub fn has(s: &[char], needle: &[char]) -> (res: bool)
    ensures
        res == contains(s@, needle@),
{
    let mut i: usize = 0;
    while i < s.len()
        invariant
            i <= s@.len(),
            forall|k: int| 0 <= k < i ==> !#[trigger] stands_at(s@, needle@, k),
        decreases s@.len() - i,
    {
        if stands_here(s, needle, i) {
            return true;
        }
        i = i + 1;
    }
    stands_here(s, needle, i)
}

pub fn has_text(s: &str, needle: &str) -> (res: bool)
    ensures
        res == contains(s@, needle@),
{
    let text = chars_of(s);
    let part = chars_of(needle);
    has(text.as_slice(), part.as_slice())
}

pub fn trim_start_of(s: &[char]) -> (res: &[char])
    ensures
        res@ == trim_start(s@),
{
    let mut rest: &[char] = s;
    while rest.len() > 0 && is_white(rest[0])
        invariant
            trim_start(s@) == trim_start(rest@),
        decreases rest@.len(),
    {
        let next = slice_subrange(rest, 1, rest.len());
        assert(next@ =~= rest@.drop_first());
        rest = next;
    }
    rest
}

pub fn trim_of(s: &[char]) -> (res: &[char])
    ensures
        res@ == trim(s@),
{
    let mut rest: &[char] = trim_start_of(s);
    while rest.len() > 0 && is_white(rest[rest.len() - 1])
        invariant
            trim(s@) == trim_end(rest@),
        decreases rest@.len(),
    {
        let next = slice_subrange(rest, 0, rest.len() - 1);
        assert(next@ =~= rest@.drop_last());
        rest = next;
    }
    rest
}

/// Whether nothing but white space stands in `s`.
pub fn is_blank(s: &[char]) -> (res: bool)
    ensures
        res == (trim(s@).len() == 0),
{
    trim_of(s).len() == 0
}

/// The row without the carriage return that ends it.
pub fn chomp_of(row: &[char]) -> (res: &[char])
    ensures
        res@ == chomp(row@),
{
    if row.len() > 0 && row[row.len() - 1] == '\r' {
        let res = slice_subrange(row, 0, row.len() - 1);
        assert(res@ =~= row@.drop_last());
        res
    } else {
        row
    }
}

/// Splits the first row off a text that is not empty.
pub fn split_row(s: &[char]) -> (res: (&[char], &[char]))
    requires
        s@.len() > 0,
    ensures
        rows(s@) == seq![res.0@] + rows(res.1@),
        res.1@.len() < s@.len(),
{
    let end = position_of(s, '\n', 0);
    if end >= s.len() {
        let rest = slice_subrange(s, s.len(), s.len());
        assert(rows(rest@) =~= Seq::<Seq<char>>::empty());
        assert(rows(s@) =~= seq![s@] + rows(rest@));
        (s, rest)
    } else {
        let row = slice_subrange(s, 0, end);
        let rest = slice_subrange(s, end + 1, s.len());
        assert(row@ =~= s@.take(end as int));
        assert(rest@ =~= s@.skip(end + 1));
        (chomp_of(row), rest)
    }
}

pub fn replace_of(s: &[char], from: &[char], to: &[char]) -> (res: Vec<char>)
    requires
        from@.len() > 0,
    ensures
        res@ == replaced(s@, from@, to@),
{
    let mut res: Vec<char> = Vec::new();
    let mut rest: &[char] = s;
    while rest.len() > 0
        invariant
            from@.len() > 0,
            replaced(s@, from@, to@) == res@ + replaced(rest@, from@, to@),
        decreases rest@.len(),
    {
        let ghost before = res@;
        if stands_here(rest, from, 0) {
            for k in 0..to.len()
                invariant
                    res@ == before + to@.take(k as int),
            {
                res.push(to[k]);
            }
            let next = slice_subrange(rest, from.len(), rest.len());
            assert(next@ =~= rest@.skip(from@.len() as int));
            assert(res@ =~= before + to@);
            assert(res@ + replaced(next@, from@, to@) =~= before + (to@ + replaced(
                next@,
                from@,
                to@,
            )));
            rest = next;
        } else {
            res.push(rest[0]);
            let next = slice_subrange(rest, 1, rest.len());
            assert(next@ =~= rest@.drop_first());
            assert(res@ + replaced(next@, from@, to@) =~= before + (seq![rest@[0]] + replaced(
                next@,
                from@,
                to@,
            )));
            rest = next;
        }
    }
    assert(replaced(rest@, from@, to@) =~= Seq::<char>::empty());
    assert(res@ =~= replaced(s@, from@, to@));
    res
}

/// Appends `tail` to `text`.
pub fn append(text: &mut Vec<char>, tail: &[char])
    ensures
        final(text)@ == old(text)@ + tail@,
{
    let ghost before = text@;
    for i in 0..tail.len()
        invariant
            text@ == before + tail@.take(i as int),
    {
        text.push(tail[i]);
    }
    assert(text@ =~= before + tail@);
}

pub fn append_str(text: &mut Vec<char>, tail: &str)
    ensures
        final(text)@ == old(text)@ + tail@,
{
    let chars = chars_of(tail);
    append(text, chars.as_slice());
}

proof fn lemma_trim_start_fixed(s: Seq<char>)
    ensures
        trim_start(s).len() <= s.len(),
        trim_start(s).len() > 0 ==> !white(trim_start(s)[0]),
    decreases s.len(),
{
    if s.len() > 0 && white(s[0]) {
        lemma_trim_start_fixed(s.drop_first());
    }
}

proof fn lemma_trim_end_fixed(s: Seq<char>)
    requires
        s.len() > 0 ==> !white(s[0]),
    ensures
        trim_end(s).len() > 0 ==> {
            &&& !white(trim_end(s)[0])
            &&& !white(trim_end(s).last())
        },
    decreases s.len(),
{
    if s.len() > 0 && white(s.last()) {
        lemma_trim_end_fixed(s.drop_last());
    }
}

/// Trimming a trimmed text changes nothing.
pub proof fn law_trim_is_idempotent(s: Seq<char>)
    ensures
        trim(trim(s)) == trim(s),
{
    lemma_trim_start_fixed(s);
    lemma_trim_end_fixed(trim_start(s));
}

/// Whether a text is made of something, then `part`, then something.
pub open spec fn holds(s: Seq<char>, part: Seq<char>) -> bool {
    exists|front: Seq<char>, back: Seq<char>| s == #[trigger] (front + part + back)
}

/// A text stands in another exactly when the other goes on before and behind
/// it.
pub proof fn law_contained_text_is_a_part(s: Seq<char>, part: Seq<char>)
    ensures
        contains(s, part) <==> holds(s, part),
{
    if contains(s, part) {
        let i = choose|i: int| stands_at(s, part, i);
        let front = s.take(i);
        let back = s.skip(i + part.len());
        assert(s =~= front + part + back);
    }
    if holds(s, part) {
        let (front, back) = choose|front: Seq<char>, back: Seq<char>| s == #[trigger] (front + part
            + back);
        let i = front.len() as int;
        assert(s.subrange(i, i + part.len()) =~= part);
        assert(stands_at(s, part, i));
    }
}

/// `find` gives the first place where the text stands, and the length where it
/// stands nowhere.
pub proof fn law_find_is_first(s: Seq<char>, needle: Seq<char>, from: int)
    requires
        0 <= from <= s.len(),
        needle.len() > 0,
    ensures
        from <= find(s, needle, from) <= s.len(),
        find(s, needle, from) < s.len() ==> find(s, needle, from) + needle.len() <= s.len()
            && s.subrange(find(s, needle, from), find(s, needle, from) + needle.len()) == needle,
        forall|i: int|
            from <= i < find(s, needle, from) ==> !#[trigger] stands_at(s, needle, i),
        !holds(s, needle) ==> find(s, needle, from) == s.len(),
    decreases s.len() - from,
{
    law_contained_text_is_a_part(s, needle);
    if from < s.len() && !stands_at(s, needle, from) {
        law_find_is_first(s, needle, from + 1);
    }
}

/// `scan` gives the first place that holds one of the stops, and the length
/// where none does.
pub proof fn law_scan_is_first(s: Seq<char>, stops: Seq<char>, from: int)
    requires
        0 <= from <= s.len(),
    ensures
        from <= scan(s, stops, from) <= s.len(),
        scan(s, stops, from) < s.len() ==> stops.contains(s[scan(s, stops, from)]),
        forall|i: int| from <= i < scan(s, stops, from) ==> !stops.contains(#[trigger] s[i]),
    decreases s.len() - from,
{
    if from < s.len() && !stops.contains(s[from]) {
        law_scan_is_first(s, stops, from + 1);
    }
}

/// `last_position` gives the last place that holds the character, and less than
/// zero where none does.
pub proof fn law_last_position_is_last(s: Seq<char>, c: char, end: int)
    requires
        0 <= end <= s.len(),
    ensures
        -1 <= last_position(s, c, end) < end || last_position(s, c, end) == -1,
        last_position(s, c, end) >= 0 ==> s[last_position(s, c, end)] == c,
        forall|i: int| last_position(s, c, end) < i < end && 0 <= i ==> #[trigger] s[i] != c,
    decreases end,
{
    if end > 0 && s[end - 1] != c {
        law_last_position_is_last(s, c, end - 1);
    }
}

/// Trimming takes white space off both ends and nothing else: what is left
/// neither begins nor ends with any.
pub proof fn law_trim_takes_white_space(s: Seq<char>)
    ensures
        exists|front: Seq<char>, back: Seq<char>|
            {
                &&& s == #[trigger] (front + trim(s) + back)
                &&& forall|i: int| 0 <= i < front.len() ==> white(#[trigger] front[i])
                &&& forall|i: int| 0 <= i < back.len() ==> white(#[trigger] back[i])
            },
        trim(s).len() > 0 ==> !white(trim(s)[0]) && !white(trim(s).last()),
{
    let middle = trim_start(s);
    lemma_trim_start_fixed(s);
    lemma_trim_end_fixed(middle);
    lemma_trim_start_parts(s);
    lemma_trim_end_parts(middle);
    let front = s.take(s.len() - middle.len());
    let back = middle.skip(trim(s).len() as int);
    assert(s =~= front + trim(s) + back);
}

proof fn lemma_trim_start_parts(s: Seq<char>)
    ensures
        trim_start(s).len() <= s.len(),
        s == s.take(s.len() - trim_start(s).len()) + trim_start(s),
        forall|i: int| 0 <= i < s.len() - trim_start(s).len() ==> white(#[trigger] s[i]),
    decreases s.len(),
{
    if s.len() > 0 && white(s[0]) {
        let rest = s.drop_first();
        lemma_trim_start_parts(rest);
        assert forall|i: int| 0 <= i < s.len() - trim_start(s).len() implies white(
            #[trigger] s[i],
        ) by {
            if i > 0 {
                assert(rest[i - 1] == s[i]);
            }
        }
        assert(s =~= seq![s[0]] + rest);
        assert(s.take(s.len() - trim_start(s).len()) =~= seq![s[0]] + rest.take(
            rest.len() - trim_start(rest).len(),
        ));
        assert(s =~= s.take(s.len() - trim_start(s).len()) + trim_start(s));
    } else {
        assert(s =~= s.take(0) + s);
    }
}

proof fn lemma_trim_end_parts(s: Seq<char>)
    ensures
        trim_end(s).len() <= s.len(),
        s == trim_end(s) + s.skip(trim_end(s).len() as int),
        forall|i: int| trim_end(s).len() <= i < s.len() ==> white(#[trigger] s[i]),
    decreases s.len(),
{
    if s.len() > 0 && white(s.last()) {
        let rest = s.drop_last();
        lemma_trim_end_parts(rest);
        assert forall|i: int| trim_end(s).len() <= i < s.len() implies white(#[trigger] s[i]) by {
            if i < s.len() - 1 {
                assert(rest[i] == s[i]);
            }
        }
        assert(trim_end(s) =~= s.take(trim_end(s).len() as int)) by {
            assert(rest.take(trim_end(s).len() as int) =~= s.take(trim_end(s).len() as int));
            assert(rest.take(trim_end(rest).len() as int) =~= trim_end(rest));
        }
        assert(s =~= trim_end(s) + s.skip(trim_end(s).len() as int));
    } else {
        assert(s =~= s + s.skip(s.len() as int));
    }
}

/// Spaces, tabs and line ends are white; what is printed in ASCII is not.
pub proof fn law_printed_characters_are_not_white(c: char)
    ensures
        (0x20 < (c as u32) && (c as u32) < 0x7f) ==> !white(c),
        c == ' ' || c == '\t' || c == '\n' || c == '\r' || c == '\u{3000}' || c == '\u{a0}'
            ==> white(c),
{
}

/// The rows of two texts with a line feed between them are the rows of the one
/// and then those of the other, whichever rows are empty.
pub proof fn law_rows_of_joined_texts(row: Seq<char>, more: Seq<char>)
    requires
        !row.contains('\n'),
    ensures
        row.len() == 0 || row.last() != '\r' ==> rows(row + seq!['\n'] + more) == seq![row] + rows(
            more,
        ),
        rows(row + seq!['\r', '\n'] + more) == seq![row] + rows(more),
        row.len() > 0 ==> rows(row) == seq![row],
{
    let ends: Seq<Seq<char>> = seq![seq!['\n'], seq!['\r', '\n']];
    assert forall|k: int| 0 <= k < 2 implies position(row + #[trigger] ends[k] + more, '\n', 0)
        == row.len() + ends[k].len() - 1 by {
        let s = row + ends[k] + more;
        lemma_position(s, '\n', 0);
        let at = row.len() + ends[k].len() - 1;
        assert(s[at] == '\n');
        assert forall|i: int| 0 <= i < at implies s[i] != '\n' by {
            if i < row.len() {
                assert(s[i] == row[i]);
                assert(row.contains(row[i]));
            }
        }
    }
    let one = row + ends[0] + more;
    let two = row + ends[1] + more;
    assert(one.take(row.len() as int) =~= row);
    assert(one.skip((row.len() + 1) as int) =~= more);
    assert(two.take((row.len() + 1) as int) =~= row.push('\r'));
    assert(row.push('\r').drop_last() =~= row);
    assert(two.skip((row.len() + 2) as int) =~= more);
    lemma_position(row, '\n', 0);
    if position(row, '\n', 0) < row.len() {
        assert(row.contains(row[position(row, '\n', 0)]));
    }
}

/// The pieces of two texts with a stop between them are the pieces of the one
/// and then those of the other; a text without stops is one piece.
pub proof fn law_pieces_of_joined_texts(a: Seq<char>, stop: char, b: Seq<char>, stops: Seq<char>)
    requires
        stops.contains(stop),
    ensures
        pieces(a + seq![stop] + b, stops) == pieces(a, stops) + pieces(b, stops),
        (forall|i: int| 0 <= i < a.len() ==> !stops.contains(#[trigger] a[i])) ==> pieces(a, stops)
            == seq![a],
    decreases a.len(),
{
    let all = a + seq![stop] + b;
    law_scan_is_first(a, stops, 0);
    law_scan_is_first(all, stops, 0);
    let end = scan(a, stops, 0);
    assert(all[a.len() as int] == stop);
    assert forall|i: int| 0 <= i < a.len() implies all[i] == a[i] by {}
    if scan(all, stops, 0) < end {
        assert(stops.contains(all[scan(all, stops, 0)]));
        assert(all[scan(all, stops, 0)] == a[scan(all, stops, 0)]);
        assert(false);
    }
    if scan(all, stops, 0) > end {
        assert(all[end] == if end < a.len() { a[end] } else { stop });
        assert(false);
    }
    if end < a.len() {
        let rest = a.skip(end + 1);
        law_pieces_of_joined_texts(rest, stop, b, stops);
        assert(all.take(end) =~= a.take(end));
        assert(all.skip(end + 1) =~= rest + seq![stop] + b);
        assert(pieces(all, stops) =~= pieces(a, stops) + pieces(b, stops));
    } else {
        assert(all.take(end) =~= a);
        assert(all.skip(end + 1) =~= b);
        assert(pieces(all, stops) =~= pieces(a, stops) + pieces(b, stops));
    }
}

/// Replacing leaves a text alone in which there is nothing to replace, and
/// replaces what a text begins with.
pub proof fn law_replacing_goes_from_the_left(
    s: Seq<char>,
    from: Seq<char>,
    to: Seq<char>,
)
    requires
        from.len() > 0,
    ensures
        !holds(s, from) ==> replaced(s, from, to) == s,
        replaced(from + s, from, to) == to + replaced(s, from, to),
    decreases s.len(),
{
    assert((from + s).subrange(0, from.len() as int) =~= from);
    assert((from + s).skip(from.len() as int) =~= s);
    assert(stands_at(from + s, from, 0));
    if s.len() > 0 && !holds(s, from) {
        law_contained_text_is_a_part(s, from);
        assert(!stands_at(s, from, 0));
        let rest = s.drop_first();
        if holds(rest, from) {
            let (front, back) = choose|front: Seq<char>, back: Seq<char>| rest == #[trigger] (front
                + from + back);
            assert(s =~= seq![s[0]] + (front + from + back));
            assert(s =~= (seq![s[0]] + front) + from + back);
        }
        law_replacing_goes_from_the_left(rest, from, to);
        assert(seq![s[0]] + rest =~= s);
    }
}

/// Replacing takes the first place where the text stands, and goes on behind it.
pub proof fn law_first_occurrence_is_replaced(
    a: Seq<char>,
    from: Seq<char>,
    b: Seq<char>,
    to: Seq<char>,
)
    requires
        from.len() > 0,
        forall|i: int| 0 <= i < a.len() ==> !#[trigger] stands_at(a + from + b, from, i),
    ensures
        replaced(a + from + b, from, to) == a + to + replaced(b, from, to),
    decreases a.len(),
{
    let s = a + from + b;
    if a.len() == 0 {
        assert(s =~= from + b);
        law_replacing_goes_from_the_left(b, from, to);
        assert(a + to + replaced(b, from, to) =~= to + replaced(b, from, to));
    } else {
        let rest = a.drop_first();
        assert(!stands_at(s, from, 0));
        assert(s.drop_first() =~= rest + from + b);
        assert forall|i: int| 0 <= i < rest.len() implies !#[trigger] stands_at(
            rest + from + b,
            from,
            i,
        ) by {
            if stands_at(rest + from + b, from, i) {
                assert(s.subrange(i + 1, i + 1 + from.len()) =~= (rest + from + b).subrange(
                    i,
                    i + from.len(),
                ));
                assert(stands_at(s, from, i + 1));
            }
        }
        law_first_occurrence_is_replaced(rest, from, b, to);
        assert(s[0] == a[0]);
        assert(seq![s[0]] + (rest + to + replaced(b, from, to)) =~= a + to + replaced(b, from, to));
    }
}

} // verus!
