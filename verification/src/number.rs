//! Decimal numbers: reading them into whole counts of a small unit, and
//! writing integers out.
//!
//! A number is kept as a whole count of `10^-places`, rounded down; one that the
//! range cannot hold is kept at its end. The counts beyond the ends stand for
//! what is no finite number, in the order in which such values are sorted: the
//! negative not-a-number, minus infinity, all finite numbers, infinity, and the
//! positive not-a-number. A number is infinite where a double-precision one
//! would be.

use crate::text::{law_scan_is_first, lemma_position, position, position_of, scan, scan_of};
use vstd::prelude::*;
use vstd::slice::slice_subrange;

verus! {

/// The count that stands for no number, with a plus sign.
pub const NOT_A_NUMBER: i64 = i64::MAX;

/// The count that stands for no number, with a minus sign.
pub const NEGATIVE_NOT_A_NUMBER: i64 = i64::MIN;

/// The count that stands for infinity.
pub const ABOVE: i64 = 0x7fff_ffff_ffff_fffe;

/// The count that stands for minus infinity.
pub const BELOW: i64 = -0x7fff_ffff_ffff_ffff;

/// Whether a count stands for no number.
pub open spec fn is_nan(count: int) -> bool {
    count == NOT_A_NUMBER || count == NEGATIVE_NOT_A_NUMBER
}

/// Whether a count stands for a finite number.
pub open spec fn finite(count: int) -> bool {
    BELOW < count < ABOVE
}

/// The finite count nearest to `value`.
pub open spec fn clamped(value: int) -> int {
    if value >= ABOVE {
        ABOVE - 1
    } else if value <= BELOW {
        BELOW + 1
    } else {
        value
    }
}

pub open spec fn digit(c: char) -> bool {
    '0' <= c <= '9'
}

pub open spec fn all_digits(s: Seq<char>) -> bool {
    forall|i: int| 0 <= i < s.len() ==> digit(#[trigger] s[i])
}

/// The natural number that a sequence of digits writes.
pub open spec fn natural(digits: Seq<char>) -> int
    decreases digits.len(),
{
    if digits.len() == 0 {
        0
    } else {
        natural(digits.drop_last()) * 10 + (digits.last() as int - '0' as int)
    }
}

/// Ten to the power `k`.
pub open spec fn ten_to(k: int) -> int
    decreases k,
{
    if k <= 0 {
        1
    } else {
        10 * ten_to(k - 1)
    }
}

pub open spec fn signed(s: Seq<char>) -> bool {
    s.len() > 0 && (s[0] == '+' || s[0] == '-')
}

pub open spec fn negative(s: Seq<char>) -> bool {
    s.len() > 0 && s[0] == '-'
}

pub open spec fn unsigned(s: Seq<char>) -> Seq<char> {
    if signed(s) {
        s.drop_first()
    } else {
        s
    }
}

/// Whether `s` spells `word`, which is in small ASCII letters, in any mix of
/// ASCII capitals.
pub open spec fn spells(s: Seq<char>, word: Seq<char>) -> bool {
    s.len() == word.len() && forall|i: int|
        0 <= i < s.len() ==> (#[trigger] s[i] == word[i] || s[i] as u32 + 32 == word[i] as u32)
}

/// The words for infinity.
pub open spec fn is_infinity(s: Seq<char>) -> bool {
    spells(s, seq!['i', 'n', 'f']) || spells(s, seq!['i', 'n', 'f', 'i', 'n', 'i', 't', 'y'])
}

/// The word for no number.
pub open spec fn is_nan_word(s: Seq<char>) -> bool {
    spells(s, seq!['n', 'a', 'n'])
}

/// The digits before the exponent.
pub open spec fn mantissa(s: Seq<char>) -> Seq<char> {
    s.take(scan(s, seq!['e', 'E'], 0))
}

pub open spec fn has_exponent(s: Seq<char>) -> bool {
    scan(s, seq!['e', 'E'], 0) < s.len()
}

/// What stands behind the `e`.
pub open spec fn exponent(s: Seq<char>) -> Seq<char> {
    s.skip(scan(s, seq!['e', 'E'], 0) + 1)
}

/// The power of ten that the exponent asks for.
pub open spec fn power(s: Seq<char>) -> int {
    if !has_exponent(s) {
        0
    } else if negative(exponent(s)) {
        -natural(unsigned(exponent(s)))
    } else {
        natural(unsigned(exponent(s)))
    }
}

/// The digits before the decimal point.
pub open spec fn whole(m: Seq<char>) -> Seq<char> {
    m.take(position(m, '.', 0))
}

/// The digits behind the decimal point.
pub open spec fn fraction(m: Seq<char>) -> Seq<char> {
    if position(m, '.', 0) < m.len() {
        m.skip(position(m, '.', 0) + 1)
    } else {
        Seq::empty()
    }
}

/// Whether `s`, without its sign, is a decimal number: digits with at most one
/// point among or beside them, then perhaps an exponent.
pub open spec fn is_decimal(s: Seq<char>) -> bool {
    let m = mantissa(s);
    &&& all_digits(whole(m))
    &&& all_digits(fraction(m))
    &&& whole(m).len() + fraction(m).len() > 0
    &&& has_exponent(s) ==> {
        &&& unsigned(exponent(s)).len() > 0
        &&& all_digits(unsigned(exponent(s)))
    }
}

/// The number that `digits` write when the point stands behind the first
/// `ahead` of them, without its fraction.
pub open spec fn pointed(digits: Seq<char>, ahead: int) -> int {
    if ahead <= 0 {
        0
    } else if ahead <= digits.len() {
        natural(digits.take(ahead))
    } else {
        natural(digits) * ten_to(ahead - digits.len())
    }
}

/// All digits of a decimal number, without its sign.
pub open spec fn digits_in(s: Seq<char>) -> Seq<char> {
    whole(mantissa(s)) + fraction(mantissa(s))
}

/// How many of them stand before the point, once the exponent has moved it.
pub open spec fn point_in(s: Seq<char>) -> int {
    whole(mantissa(s)).len() + power(s)
}

/// The digits of the least number that double precision rounds to infinity,
/// 2^1024 - 2^970, in groups.
pub open spec fn overflow_groups() -> Seq<u64> {
    seq![
        179_769_313_486_231_580u64,
        79_372_897_140_530_341u64,
        507_993_413_271_003_782u64,
        693_617_377_898_044_496u64,
        829_276_475_094_664_901u64,
        797_758_720_709_633_028u64,
        641_669_288_791_094_655u64,
        554_785_194_040_263_065u64,
        748_867_150_582_068_190u64,
        890_200_070_838_367_627u64,
        385_484_581_771_153_176u64,
        447_573_027_006_985_557u64,
        136_695_962_284_291_481u64,
        986_083_493_647_529_271u64,
        907_416_844_436_551_070u64,
        434_271_155_969_950_809u64,
        304_288_017_790_417_449u64,
        7_792u64,
    ]
}

/// Groups of digits, one behind the other.
pub open spec fn run(groups: Seq<u64>) -> Seq<char>
    decreases groups.len(),
{
    if groups.len() == 0 {
        Seq::empty()
    } else {
        run(groups.drop_last()) + digits_of(groups.last() as int)
    }
}

/// The digits of the least number that double precision rounds to infinity.
pub open spec fn overflow_digits() -> Seq<char> {
    run(overflow_groups())
}

/// Whether something but zeros stands among `digits` from place `ahead` on.
pub open spec fn goes_on(digits: Seq<char>, ahead: int) -> bool {
    exists|i: int| 0 <= i < digits.len() && ahead <= i && #[trigger] digits[i] != '0'
}

/// The number that `digits` write when the point stands behind the first
/// `point` of them, as a count of `10^-places`, rounded down.
pub open spec fn count_at(digits: Seq<char>, point: int, places: int, below: bool) -> int {
    let size = pointed(digits, point + places);
    if pointed(digits, point) >= natural(overflow_digits()) {
        if below {
            BELOW as int
        } else {
            ABOVE as int
        }
    } else if !below {
        clamped(size)
    } else if goes_on(digits, point + places) {
        clamped(-size - 1)
    } else {
        clamped(-size)
    }
}

/// What a text says as a number, as a count of `10^-places`: `None` unless it
/// is a decimal number or one of the words, with or without a sign.
pub open spec fn number(s: Seq<char>, places: int) -> Option<int> {
    let body = unsigned(s);
    if is_infinity(body) {
        Some(
            if negative(s) {
                BELOW as int
            } else {
                ABOVE as int
            },
        )
    } else if is_nan_word(body) {
        Some(
            if negative(s) {
                NEGATIVE_NOT_A_NUMBER as int
            } else {
                NOT_A_NUMBER as int
            },
        )
    } else if !is_decimal(body) {
        None
    } else {
        Some(count_at(digits_in(body), point_in(body), places, negative(s)))
    }
}

/// More than any count of 64 bits; sums are not followed beyond it.
const LIMIT: u128 = 0x10_0000_0000_0000_0000_0000_0000;

spec fn capped(value: int) -> int {
    if value > LIMIT {
        LIMIT as int
    } else {
        value
    }
}

proof fn lemma_ten_to_large(k: int)
    requires
        k >= 31,
    ensures
        ten_to(k) > LIMIT,
    decreases k,
{
    if k == 31 {
        reveal_with_fuel(ten_to, 32);
    } else {
        lemma_ten_to_large(k - 1);
    }
}

fn read_digit(c: char) -> (res: Option<u128>)
    ensures
        match res {
            Some(d) => digit(c) && d == c as int - '0' as int && d <= 9,
            None => !digit(c),
        },
{
    if '0' <= c && c <= '9' {
        Some((c as u32 - '0' as u32) as u128)
    } else {
        None
    }
}

fn are_digits(s: &[char]) -> (res: bool)
    ensures
        res == all_digits(s@),
{
    for i in 0..s.len()
        invariant
            forall|j: int| 0 <= j < i ==> digit(#[trigger] s@[j]),
    {
        if read_digit(s[i]).is_none() {
            assert(!digit(s@[i as int]));
            return false;
        }
    }
    true
}

/// The natural number that `digits` write, followed up to `LIMIT`.
fn read_natural(digits: &[char]) -> (res: u128)
    requires
        all_digits(digits@),
    ensures
        res == capped(natural(digits@)),
        natural(digits@) >= 0,
{
    let mut res: u128 = 0;
    for i in 0..digits.len()
        invariant
            all_digits(digits@),
            res == capped(natural(digits@.take(i as int))),
            natural(digits@.take(i as int)) >= 0,
    {
        let ghost before = digits@.take(i as int);
        let ghost after = digits@.take(i + 1);
        assert(after.drop_last() =~= before);
        assert(digit(digits@[i as int]));
        match read_digit(digits[i]) {
            Some(d) => {
                res = if res * 10 + d > LIMIT {
                    LIMIT
                } else {
                    res * 10 + d
                };
            },
            None => {},
        }
    }
    assert(digits@.take(digits@.len() as int) =~= digits@);
    res
}

/// `value * 10^zeros`, followed up to `LIMIT`.
fn shift(value: u128, Ghost(exact): Ghost<int>, zeros: i128) -> (res: u128)
    requires
        exact >= 0,
        value == capped(exact),
        zeros > 0,
    ensures
        res == capped(exact * ten_to(zeros as int)),
{
    if value == 0 {
        assert(exact * ten_to(zeros as int) == 0) by (nonlinear_arith)
            requires
                exact == 0,
        ;
        return 0;
    }
    if zeros >= 31 {
        proof {
            lemma_ten_to_large(zeros as int);
            assert(exact * ten_to(zeros as int) > LIMIT) by (nonlinear_arith)
                requires
                    exact >= 1,
                    ten_to(zeros as int) > LIMIT,
            ;
        }
        return LIMIT;
    }
    let mut res: u128 = value;
    let mut k: i128 = 0;
    assert(exact * ten_to(0) == exact);
    while k < zeros
        invariant
            0 <= k <= zeros,
            exact >= 0,
            exact * ten_to(k as int) >= 0,
            res == capped(exact * ten_to(k as int)),
        decreases zeros - k,
    {
        assert(exact * ten_to(k + 1) == 10 * (exact * ten_to(k as int))) by (nonlinear_arith)
            requires
                ten_to(k + 1) == 10 * ten_to(k as int),
        ;
        res = if res * 10 > LIMIT {
            LIMIT
        } else {
            res * 10
        };
        k = k + 1;
    }
    res
}

fn is_spelled(s: &[char], word: &[char]) -> (res: bool)
    ensures
        res == spells(s@, word@),
{
    if s.len() != word.len() {
        return false;
    }
    for i in 0..s.len()
        invariant
            s@.len() == word@.len(),
            forall|j: int|
                0 <= j < i ==> (#[trigger] s@[j] == word@[j] || s@[j] as u32 + 32
                    == word@[j] as u32),
    {
        proof {
            vstd::utf8::char_is_scalar(s@[i as int]);
        }
        let code: u32 = s[i] as u32;
        if !(s[i] == word[i] || code + 32 == word[i] as u32) {
            assert(!(s@[i as int] == word@[i as int] || s@[i as int] as u32 + 32
                == word@[i as int] as u32));
            return false;
        }
    }
    true
}

fn is_unbounded(s: &[char]) -> (res: bool)
    ensures
        res == is_infinity(s@),
{
    is_spelled(s, &['i', 'n', 'f']) || is_spelled(s, &['i', 'n', 'f', 'i', 'n', 'i', 't', 'y'])
}

fn drop_sign(s: &[char]) -> (res: &[char])
    ensures
        res@ == unsigned(s@),
{
    if s.len() > 0 && (s[0] == '+' || s[0] == '-') {
        let res = slice_subrange(s, 1, s.len());
        assert(res@ =~= s@.drop_first());
        res
    } else {
        s
    }
}

/// Reads a number as a count of `10^-places`.
pub fn read_number(s: &[char], places: u8) -> (res: Option<i64>)
    ensures
        match res {
            Some(count) => number(s@, places as int) == Some(count as int),
            None => number(s@, places as int) is None,
        },
{
    let below = s.len() > 0 && s[0] == '-';
    let body = drop_sign(s);
    if is_unbounded(body) {
        return Some(
            if below {
                BELOW
            } else {
                ABOVE
            },
        );
    }
    if is_spelled(body, &['n', 'a', 'n']) {
        return Some(
            if below {
                NEGATIVE_NOT_A_NUMBER
            } else {
                NOT_A_NUMBER
            },
        );
    }
    let stops: [char; 2] = ['e', 'E'];
    let end = scan_of(body, &stops, 0);
    assert(stops@ =~= seq!['e', 'E']);
    let m = slice_subrange(body, 0, end);
    assert(m@ =~= mantissa(body@));
    let point = position_of(m, '.', 0);
    let ahead = slice_subrange(m, 0, point);
    let behind = if point < m.len() {
        slice_subrange(m, point + 1, m.len())
    } else {
        slice_subrange(m, m.len(), m.len())
    };
    assert(ahead@ =~= whole(m@));
    assert(behind@ =~= fraction(m@));
    if !are_digits(ahead) || !are_digits(behind) || (ahead.len() == 0 && behind.len() == 0) {
        return None;
    }
    let mut ten: i128 = 0;
    if end < body.len() {
        let tail = slice_subrange(body, end + 1, body.len());
        assert(tail@ =~= exponent(body@));
        let figures = drop_sign(tail);
        if figures.len() == 0 || !are_digits(figures) {
            return None;
        }
        let size = read_natural(figures);
        ten = if tail.len() > 0 && tail[0] == '-' {
            -(size as i128)
        } else {
            size as i128
        };
    }
    let mut digits: Vec<char> = Vec::new();
    crate::text::append(&mut digits, ahead);
    crate::text::append(&mut digits, behind);
    assert(digits@ =~= ahead@ + behind@);
    assert(all_digits(digits@));
    let at: i128 = ahead.len() as i128 + ten;
    Some(read_count(digits.as_slice(), at, places, below, Ghost(point_in(body@))))
}

/// `count_at(digits, exact, places, below)`. The point may be given at `point`
/// when both it and the exact place lie far outside the digits on the same
/// side.
fn read_count(
    digits: &[char],
    point: i128,
    places: u8,
    below: bool,
    Ghost(exact_point): Ghost<int>,
) -> (res: i64)
    requires
        all_digits(digits@),
        digits@.len() <= usize::MAX,
        -0x18_0000_0000_0000_0000_0000_0000 < point < 0x18_0000_0000_0000_0000_0000_0000,
        point != exact_point ==> (point <= -256 && exact_point <= -256) || (point
            >= 0x2_0000_0000_0000_0000_0000 && exact_point >= 0x2_0000_0000_0000_0000_0000),
    ensures
        res == count_at(digits@, exact_point, places as int, below),
{
    if is_too_large(digits, point, Ghost(exact_point)) {
        return if below {
            BELOW
        } else {
            ABOVE
        };
    }
    let shown: i128 = point + places as i128;
    let ghost exact = exact_point + places;
    let size = read_pointed(digits, shown, Ghost(exact));
    if !below {
        return hold(size as i128);
    }
    if has_more(digits, shown, Ghost(exact)) {
        hold(-(size as i128) - 1)
    } else {
        hold(-(size as i128))
    }
}

fn write_overflow() -> (res: Vec<char>)
    ensures
        res@ == overflow_digits(),
{
    let groups: [u64; 18] = [
        179_769_313_486_231_580,
        79_372_897_140_530_341,
        507_993_413_271_003_782,
        693_617_377_898_044_496,
        829_276_475_094_664_901,
        797_758_720_709_633_028,
        641_669_288_791_094_655,
        554_785_194_040_263_065,
        748_867_150_582_068_190,
        890_200_070_838_367_627,
        385_484_581_771_153_176,
        447_573_027_006_985_557,
        136_695_962_284_291_481,
        986_083_493_647_529_271,
        907_416_844_436_551_070,
        434_271_155_969_950_809,
        304_288_017_790_417_449,
        7_792,
    ];
    assert(groups@ =~= overflow_groups());
    let mut res: Vec<char> = Vec::new();
    assert(res@ =~= run(groups@.take(0)));
    for i in 0..groups.len()
        invariant
            res@ == run(groups@.take(i as int)),
    {
        let digits = write_digits(groups[i]);
        crate::text::append(&mut res, digits.as_slice());
        assert(groups@.take(i + 1).drop_last() =~= groups@.take(i as int));
    }
    assert(groups@.take(groups@.len() as int) =~= groups@);
    res
}

/// The first `n` digits of a number whose digits go on with zeros.
spec fn front(digits: Seq<char>, n: int) -> Seq<char> {
    Seq::new(
        n as nat,
        |i: int|
            if i < digits.len() {
                digits[i]
            } else {
                '0'
            },
    )
}

proof fn lemma_front(digits: Seq<char>, n: int)
    requires
        n > 0,
    ensures
        pointed(digits, n) == natural(front(digits, n)),
    decreases n,
{
    if n <= digits.len() {
        assert(front(digits, n) =~= digits.take(n));
    } else {
        let shorter = front(digits, n - 1);
        assert(front(digits, n).drop_last() =~= shorter);
        assert(front(digits, n).last() == '0');
        if n - 1 == digits.len() {
            assert(shorter =~= digits);
            assert(ten_to(1) == 10) by {
                reveal_with_fuel(ten_to, 2);
            }
        } else {
            lemma_front(digits, n - 1);
            let k = n - digits.len();
            assert(natural(digits) * ten_to(k) == natural(digits) * ten_to(k - 1) * 10)
                by (nonlinear_arith)
                requires
                    ten_to(k) == 10 * ten_to(k - 1),
            ;
        }
    }
}

proof fn lemma_leading_zeros(s: Seq<char>, z: int)
    requires
        0 <= z <= s.len(),
        forall|i: int| 0 <= i < z ==> s[i] == '0',
    ensures
        natural(s) == natural(s.skip(z)),
    decreases s.len(),
{
    if s.len() == z {
        if z > 0 {
            lemma_leading_zeros(s.drop_last(), z - 1);
            assert(s.drop_last().skip(z - 1) =~= Seq::<char>::empty());
            assert(s[z - 1] == '0');
        }
        assert(s.skip(z) =~= Seq::<char>::empty());
    } else {
        lemma_leading_zeros(s.drop_last(), z);
        assert(s.skip(z).drop_last() =~= s.drop_last().skip(z));
        assert(s.skip(z).last() == s.last());
    }
}

/// A number lies between the powers of ten that its digits tell.
proof fn lemma_natural_bounds(s: Seq<char>)
    requires
        all_digits(s),
    ensures
        0 <= natural(s) < ten_to(s.len() as int),
        s.len() > 0 && s[0] != '0' ==> natural(s) >= ten_to(s.len() - 1),
    decreases s.len(),
{
    if s.len() > 0 {
        let shorter = s.drop_last();
        assert forall|i: int| 0 <= i < shorter.len() implies digit(#[trigger] shorter[i]) by {
            assert(shorter[i] == s[i]);
        }
        lemma_natural_bounds(shorter);
        assert(digit(s[s.len() - 1]));
    }
}

proof fn lemma_ten_to_grows(j: int, k: int)
    requires
        j <= k,
    ensures
        ten_to(j) <= ten_to(k),
    decreases k - j,
{
    if j < k {
        lemma_ten_to_grows(j, k - 1);
        lemma_ten_to_positive(k - 1);
    }
}

proof fn lemma_run(groups: Seq<u64>)
    requires
        forall|i: int| 0 <= i < groups.len() ==> #[trigger] groups[i] > 0,
    ensures
        all_digits(run(groups)),
        groups.len() > 0 ==> {
            &&& run(groups)[0] != '0'
            &&& run(groups).len() >= digits_of(groups[0] as int).len() + groups.len() - 1
        },
    decreases groups.len(),
{
    if groups.len() > 0 {
        let shorter = groups.drop_last();
        let last = groups[groups.len() - 1] as int;
        assert forall|i: int| 0 <= i < shorter.len() implies #[trigger] shorter[i] > 0 by {
            assert(shorter[i] == groups[i]);
        }
        lemma_run(shorter);
        lemma_digits_of(last);
        lemma_first_figure(last);
        lemma_both_digits(run(shorter), digits_of(last));
        if shorter.len() > 0 {
            assert(shorter[0] == groups[0]);
            assert(run(groups)[0] == run(shorter)[0]);
        } else {
            assert(run(groups)[0] == digits_of(last)[0]);
        }
    }
}

proof fn lemma_first_figure(n: int)
    requires
        n > 0,
    ensures
        digits_of(n).len() > 0,
        digits_of(n)[0] != '0',
    decreases n,
{
    if n >= 10 {
        lemma_first_figure(n / 10);
        assert(digits_of(n)[0] == digits_of(n / 10)[0]);
    }
}

pub proof fn lemma_both_digits(a: Seq<char>, b: Seq<char>)
    requires
        all_digits(a),
        all_digits(b),
    ensures
        all_digits(a + b),
{
    assert forall|i: int| 0 <= i < (a + b).len() implies digit(#[trigger] (a + b)[i]) by {
        if i < a.len() {
            assert((a + b)[i] == a[i]);
        } else {
            assert((a + b)[i] == b[i - a.len()]);
        }
    }
}

proof fn lemma_overflow_digits()
    ensures
        all_digits(overflow_digits()),
        overflow_digits().len() >= 35,
        overflow_digits()[0] != '0',
{
    let groups = overflow_groups();
    assert forall|i: int| 0 <= i < groups.len() implies #[trigger] groups[i] > 0 by {}
    lemma_run(groups);
    reveal_with_fuel(ten_to, 18);
    lemma_digits_count(groups[0] as int, 17);
}

proof fn lemma_digits_count(n: int, k: int)
    requires
        k >= 0,
        n >= ten_to(k),
    ensures
        digits_of(n).len() > k,
    decreases k,
{
    lemma_ten_to_positive(k);
    if k > 0 {
        lemma_ten_to_positive(k - 1);
        lemma_digits_count(n / 10, k - 1);
    } else {
        lemma_digits_of(n);
    }
}

/// What double precision cannot hold is huge.
pub proof fn lemma_overflow_is_huge()
    ensures
        natural(overflow_digits()) > 1_000_000_000_000_000_000_000_000_000_000,
{
    lemma_overflow_digits();
    lemma_natural_bounds(overflow_digits());
    reveal_with_fuel(ten_to, 32);
    assert(ten_to(31) > 1_000_000_000_000_000_000_000_000_000_000);
    lemma_ten_to_grows(31, overflow_digits().len() - 1);
}

/// Whether `pointed(digits, exact)` is too large for double precision; the
/// point may be given at `shown` as for `read_pointed`.
fn is_too_large(digits: &[char], shown: i128, Ghost(exact): Ghost<int>) -> (res: bool)
    requires
        all_digits(digits@),
        -0x20_0000_0000_0000_0000_0000_0000 < shown < 0x20_0000_0000_0000_0000_0000_0000,
        shown != exact ==> (shown <= 0 && exact <= 0) || (shown >= 0x1_0000_0000_0000_0000_0000
            && exact >= 0x1_0000_0000_0000_0000_0000),
    ensures
        res == (pointed(digits@, exact) >= natural(overflow_digits())),
{
    let limit = write_overflow();
    proof {
        lemma_overflow_digits();
        lemma_natural_bounds(limit@);
        lemma_ten_to_positive(limit@.len() - 1);
    }
    let mut z: usize = 0;
    while z < digits.len() && digits[z] == '0'
        invariant
            z <= digits@.len(),
            forall|i: int| 0 <= i < z ==> digits@[i] == '0',
        decreases digits@.len() - z,
    {
        z = z + 1;
    }
    let ghost whole_part = front(digits@, exact);
    proof {
        if exact > 0 {
            lemma_front(digits@, exact);
            assert forall|i: int| 0 <= i < whole_part.len() implies digit(
                #[trigger] whole_part[i],
            ) by {
                if i < digits@.len() {
                    assert(digit(digits@[i]));
                }
            }
        }
    }
    if z == digits.len() {
        proof {
            if exact > 0 {
                assert forall|i: int| 0 <= i < whole_part.len() implies whole_part[i] == '0' by {}
                lemma_leading_zeros(whole_part, exact);
                assert(whole_part.skip(exact) =~= Seq::<char>::empty());
            }
        }
        return false;
    }
    let count: i128 = shown - z as i128;
    let many: i128 = limit.len() as i128;
    if count < many {
        proof {
            if exact > 0 {
                assert(exact == shown);
                lemma_small(whole_part, z as int, limit@);
            }
        }
        return false;
    }
    proof {
        assert(exact - z >= many);
        lemma_leading_zeros(whole_part, z as int);
        lemma_tail_digits(whole_part, z as int);
        lemma_natural_bounds(whole_part.skip(z as int));
        assert(whole_part.skip(z as int)[0] == digits@[z as int]);
    }
    if count > many {
        proof {
            lemma_ten_to_grows(many as int, exact - z - 1);
        }
        return true;
    }
    let mut top: Vec<char> = Vec::new();
    for k in 0..limit.len()
        invariant
            z < digits@.len(),
            top@ == front(digits@.skip(z as int), k as int),
    {
        let ghost before = top@;
        let c = if k < digits.len() - z {
            digits[z + k]
        } else {
            '0'
        };
        top.push(c);
        assert(top@ =~= front(digits@.skip(z as int), k + 1));
    }
    assert(top@ =~= whole_part.skip(z as int));
    is_at_least(top.as_slice(), limit.as_slice())
}

proof fn lemma_tail_digits(s: Seq<char>, z: int)
    requires
        all_digits(s),
        0 <= z <= s.len(),
    ensures
        all_digits(s.skip(z)),
{
    assert forall|i: int| 0 <= i < s.skip(z).len() implies digit(#[trigger] s.skip(z)[i]) by {
        assert(s.skip(z)[i] == s[i + z]);
    }
}

/// A number with fewer digits, without its leading zeros, is smaller.
proof fn lemma_small(s: Seq<char>, z: int, limit: Seq<char>)
    requires
        all_digits(s),
        all_digits(limit),
        z >= 0,
        forall|i: int| 0 <= i < z && i < s.len() ==> s[i] == '0',
        s.len() - z < limit.len(),
        limit.len() > 0,
        limit[0] != '0',
    ensures
        natural(s) < natural(limit),
{
    lemma_natural_bounds(limit);
    lemma_ten_to_positive(limit.len() - 1);
    if z >= s.len() {
        lemma_leading_zeros(s, s.len() as int);
        assert(s.skip(s.len() as int) =~= Seq::<char>::empty());
    } else {
        lemma_leading_zeros(s, z);
        lemma_tail_digits(s, z);
        lemma_natural_bounds(s.skip(z));
        lemma_ten_to_grows(s.len() - z, limit.len() - 1);
    }
}

/// The finite count nearest to `value`.
pub fn hold(value: i128) -> (res: i64)
    ensures
        res == clamped(value as int),
{
    if value >= ABOVE as i128 {
        ABOVE - 1
    } else if value <= BELOW as i128 {
        BELOW + 1
    } else {
        value as i64
    }
}

/// `goes_on(digits, exact)`; the place may be given at `shown` as for
/// `read_pointed`.
fn has_more(digits: &[char], shown: i128, Ghost(exact): Ghost<int>) -> (res: bool)
    requires
        shown != exact ==> (shown <= 0 && exact <= 0) || (shown >= digits@.len() && exact
            >= digits@.len()),
    ensures
        res == goes_on(digits@, exact),
{
    for i in 0..digits.len()
        invariant
            shown != exact ==> (shown <= 0 && exact <= 0) || (shown >= digits@.len() && exact
                >= digits@.len()),
            forall|j: int| 0 <= j < i && exact <= j ==> #[trigger] digits@[j] == '0',
    {
        if i as i128 >= shown && digits[i] != '0' {
            assert(digits@[i as int] != '0');
            return true;
        }
    }
    false
}

/// Whether `a` writes at least the number that `b` does, where both have as
/// many digits.
fn is_at_least(a: &[char], b: &[char]) -> (res: bool)
    requires
        a@.len() == b@.len(),
        all_digits(a@),
        all_digits(b@),
    ensures
        res == (natural(a@) >= natural(b@)),
{
    for i in 0..a.len()
        invariant
            a@.len() == b@.len(),
            all_digits(a@),
            all_digits(b@),
            a@.take(i as int) == b@.take(i as int),
    {
        assert(digit(a@[i as int]) && digit(b@[i as int]));
        if a[i] != b[i] {
            proof {
                if a@[i as int] > b@[i as int] {
                    lemma_first_difference(a@, b@, i as int, a@.len() as int);
                } else {
                    lemma_first_difference(b@, a@, i as int, a@.len() as int);
                }
                assert(a@.take(a@.len() as int) =~= a@);
                assert(b@.take(b@.len() as int) =~= b@);
            }
            return a[i] > b[i];
        }
        assert(a@.take(i + 1) =~= a@.take(i as int).push(a@[i as int]));
        assert(b@.take(i + 1) =~= b@.take(i as int).push(b@[i as int]));
    }
    assert(a@.take(a@.len() as int) =~= a@);
    assert(b@.take(b@.len() as int) =~= b@);
    true
}

proof fn lemma_first_difference(a: Seq<char>, b: Seq<char>, i: int, k: int)
    requires
        a.len() == b.len(),
        0 <= i < k <= a.len(),
        all_digits(a),
        all_digits(b),
        a.take(i) == b.take(i),
        a[i] > b[i],
    ensures
        natural(a.take(k)) > natural(b.take(k)),
    decreases k,
{
    assert(a.take(k).drop_last() =~= a.take(k - 1));
    assert(b.take(k).drop_last() =~= b.take(k - 1));
    assert(digit(a[k - 1]) && digit(b[k - 1]));
    if k > i + 1 {
        lemma_first_difference(a, b, i, k - 1);
    }
}

/// `pointed(digits, exact)`, followed up to `LIMIT`. The point may be given
/// at `shown` when both it and the exact place lie far outside the digits on
/// the same side.
fn read_pointed(digits: &[char], shown: i128, Ghost(exact): Ghost<int>) -> (res: u128)
    requires
        all_digits(digits@),
        shown != exact ==> (shown <= 0 && exact <= 0) || (shown >= digits@.len() + 31 && exact
            >= digits@.len() + 31),
    ensures
        res == capped(pointed(digits@, exact)),
        pointed(digits@, exact) >= 0,
{
    if shown <= 0 {
        return 0;
    }
    if shown <= digits.len() as i128 {
        let front = slice_subrange(digits, 0, shown as usize);
        assert(front@ =~= digits@.take(exact));
        assert(all_digits(front@));
        return read_natural(front);
    }
    let size = read_natural(digits);
    let ghost value = natural(digits@);
    proof {
        let zeros = exact - digits@.len();
        if zeros >= 31 {
            lemma_ten_to_large(zeros);
            if value > 0 {
                assert(value * ten_to(zeros) > LIMIT) by (nonlinear_arith)
                    requires
                        value >= 1,
                        ten_to(zeros) > LIMIT,
                ;
                let other = shown - digits@.len();
                lemma_ten_to_large(other);
                assert(value * ten_to(other) > LIMIT) by (nonlinear_arith)
                    requires
                        value >= 1,
                        ten_to(other) > LIMIT,
                ;
            } else {
                assert(value * ten_to(zeros) == 0) by (nonlinear_arith)
                    requires
                        value == 0,
                ;
                assert(value * ten_to(shown - digits@.len()) == 0) by (nonlinear_arith)
                    requires
                        value == 0,
                ;
            }
        } else {
            assert(shown == exact);
            lemma_ten_to_positive(zeros);
            assert(value * ten_to(zeros) >= 0) by (nonlinear_arith)
                requires
                    value >= 0,
                    ten_to(zeros) > 0,
            ;
        }
    }
    shift(size, Ghost(value), shown - digits.len() as i128)
}

proof fn lemma_ten_to_positive(k: int)
    ensures
        ten_to(k) > 0,
    decreases k,
{
    if k > 0 {
        lemma_ten_to_positive(k - 1);
    }
}

/// The figure that writes `d` in base ten or sixteen, in small letters.
pub open spec fn figure(d: int) -> char {
    seq!['0', '1', '2', '3', '4', '5', '6', '7', '8', '9', 'a', 'b', 'c', 'd', 'e', 'f'][d]
}

/// A natural number written in base ten.
pub open spec fn digits_of(n: int) -> Seq<char>
    decreases n,
{
    if n < 10 {
        seq![figure(n)]
    } else {
        digits_of(n / 10).push(figure(n % 10))
    }
}

/// An integer written in base ten.
pub open spec fn decimal(n: int) -> Seq<char> {
    if n < 0 {
        seq!['-'] + digits_of(-n)
    } else {
        digits_of(n)
    }
}

/// The `count` lowest base-sixteen figures of a natural number.
pub open spec fn hexadecimal(n: int, count: int) -> Seq<char>
    decreases count,
{
    if count <= 0 {
        Seq::empty()
    } else {
        hexadecimal(n / 16, count - 1).push(figure(n % 16))
    }
}

pub fn write_figure(d: u64) -> (res: char)
    requires
        d < 16,
    ensures
        res == figure(d as int),
{
    let figures: [char; 16] = [
        '0', '1', '2', '3', '4', '5', '6', '7', '8', '9', 'a', 'b', 'c', 'd', 'e', 'f',
    ];
    figures[d as usize]
}

fn write_digits(n: u64) -> (res: Vec<char>)
    ensures
        res@ == digits_of(n as int),
    decreases n,
{
    if n < 10 {
        let mut res: Vec<char> = Vec::new();
        res.push(write_figure(n));
        assert(res@ =~= digits_of(n as int));
        res
    } else {
        let mut res = write_digits(n / 10);
        res.push(write_figure(n % 10));
        res
    }
}

/// Writes an integer in base ten.
pub fn write_decimal(n: i64) -> (res: Vec<char>)
    ensures
        res@ == decimal(n as int),
{
    let mut res: Vec<char> = Vec::new();
    if n < 0 {
        res.push('-');
        let size: u64 = (-(n as i128)) as u64;
        let digits = write_digits(size);
        crate::text::append(&mut res, digits.as_slice());
        assert(res@ =~= decimal(n as int));
        res
    } else {
        write_digits(n as u64)
    }
}

/// Writes the `count` lowest base-sixteen figures of `n`.
pub fn write_hexadecimal(n: u64, count: usize) -> (res: Vec<char>)
    ensures
        res@ == hexadecimal(n as int, count as int),
    decreases count,
{
    if count == 0 {
        Vec::new()
    } else {
        let mut res = write_hexadecimal(n / 16, count - 1);
        res.push(write_figure(n % 16));
        res
    }
}

/// What `digits_of` writes are digits, and they write the number.
pub proof fn lemma_digits_of(n: int)
    requires
        n >= 0,
    ensures
        all_digits(digits_of(n)),
        digits_of(n).len() > 0,
        natural(digits_of(n)) == n,
    decreases n,
{
    reveal_with_fuel(natural, 2);
    if n < 10 {
        let digits = digits_of(n);
        assert(digits.drop_last() =~= Seq::<char>::empty());
        assert(digits.last() as int == '0' as int + n);
    } else {
        let front = digits_of(n / 10);
        lemma_digits_of(n / 10);
        assert(digits_of(n).drop_last() =~= front);
        assert(figure(n % 10) as int == '0' as int + n % 10);
        assert forall|i: int| 0 <= i < digits_of(n).len() implies digit(
            #[trigger] digits_of(n)[i],
        ) by {
            if i < front.len() {
                assert(digits_of(n)[i] == front[i]);
            }
        }
    }
}

proof fn lemma_no_exponent(s: Seq<char>, from: int)
    requires
        forall|i: int| 0 <= i < s.len() ==> digit(#[trigger] s[i]) || s[i] == '.',
        0 <= from <= s.len(),
    ensures
        scan(s, seq!['e', 'E'], from) == s.len(),
    decreases s.len() - from,
{
    if from < s.len() {
        assert(digit(s[from]) || s[from] == '.');
        lemma_no_exponent(s, from + 1);
    }
}

proof fn lemma_digits_are_decimal(s: Seq<char>)
    requires
        all_digits(s),
        s.len() > 0,
    ensures
        !signed(s),
        !is_infinity(s) && !is_nan_word(s),
        mantissa(s) == s,
        !has_exponent(s),
        whole(s) == s,
        fraction(s).len() == 0,
{
    assert(digit(s[0]));
    lemma_no_exponent(s, 0);
    assert(mantissa(s) =~= s);
    crate::text::lemma_position(s, '.', 0);
    let at = position(s, '.', 0);
    if at < s.len() {
        assert(digit(s[at]));
    }
    assert(whole(s) =~= s);
}

/// Digits alone are read as the number that they write.
pub proof fn lemma_digits_are_read(s: Seq<char>, places: int)
    requires
        all_digits(s),
        s.len() > 0,
        places >= 0,
        natural(s) < natural(overflow_digits()),
    ensures
        number(s, places) == Some(clamped(natural(s) * ten_to(places))),
        number(seq!['-'] + s, places) == Some(clamped(-(natural(s) * ten_to(places)))),
{
    lemma_digits_are_decimal(s);
    assert(is_decimal(s));
    assert(digits_in(s) =~= s);
    assert(s.take(s.len() as int) =~= s);
    assert(pointed(s, s.len() as int) == natural(s));
    assert(pointed(s, s.len() + places) == natural(s) * ten_to(places));
    assert(!goes_on(s, s.len() + places));
    let minus = seq!['-'] + s;
    assert(minus.drop_first() =~= s);
    assert(minus[0] == '-');
    assert(unsigned(s) == s);
    assert(unsigned(minus) == s);
    assert(s[0] != '-');
}

proof fn lemma_pointed_shape(a: Seq<char>, b: Seq<char>)
    requires
        all_digits(a),
        all_digits(b),
    ensures
        ({
            let s = a + seq!['.'] + b;
            &&& !signed(s)
            &&& !is_infinity(s) && !is_nan_word(s)
            &&& mantissa(s) == s
            &&& !has_exponent(s)
            &&& whole(s) == a
            &&& fraction(s) == b
        }),
{
    let s = a + seq!['.'] + b;
    let point = a.len() as int;
    assert forall|i: int| 0 <= i < s.len() implies digit(#[trigger] s[i]) || s[i] == '.' by {
        if i < point {
            assert(s[i] == a[i]);
        } else if i > point {
            assert(s[i] == b[i - point - 1]);
        }
    }
    lemma_no_exponent(s, 0);
    assert(mantissa(s) =~= s);
    crate::text::lemma_position(s, '.', 0);
    assert(s[point] == '.');
    let at = position(s, '.', 0);
    if at < point {
        assert(s[at] == a[at]);
        assert(digit(a[at]));
    }
    assert(at == point);
    assert(whole(s) =~= a);
    assert(fraction(s) =~= b);
    assert(digit(s[0]) || s[0] == '.');
}

/// Digits with a point among or beside them are read as the number that they
/// write.
pub proof fn lemma_pointed_is_read(a: Seq<char>, b: Seq<char>, places: int)
    requires
        all_digits(a),
        all_digits(b),
        a.len() + b.len() > 0,
        b.len() <= places,
        natural(a) < natural(overflow_digits()),
    ensures
        number(a + seq!['.'] + b, places) == Some(
            clamped(natural(a + b) * ten_to(places - b.len())),
        ),
{
    let s = a + seq!['.'] + b;
    lemma_pointed_shape(a, b);
    assert((a + b).take((a + b).len() as int) =~= a + b);
    assert(is_decimal(s));
    assert(digits_in(s) =~= a + b);
    assert((a + b).take(a.len() as int) =~= a);
    lemma_overflow_is_huge();
    assert(pointed(a + b, a.len() as int) < natural(overflow_digits()));
    assert(pointed(a + b, a.len() + places) == natural(a + b) * ten_to(places - b.len()));
    assert(unsigned(s) == s);
}

/// An integer that is written in base ten, and that double precision can hold,
/// is read again, as a count of `10^-places`.
pub proof fn law_integers_are_read_again(n: int, places: int)
    requires
        places >= 0,
        -natural(overflow_digits()) < n < natural(overflow_digits()),
    ensures
        number(decimal(n), places) == Some(clamped(n * ten_to(places))),
{
    if n >= 0 {
        lemma_digits_of(n);
        lemma_digits_are_read(digits_of(n), places);
    } else {
        lemma_digits_of(-n);
        lemma_digits_are_read(digits_of(-n), places);
        assert(n * ten_to(places) == -((-n) * ten_to(places))) by (nonlinear_arith);
    }
}

/// No two integers are written alike.
pub proof fn law_integers_are_written_differently(a: int, b: int)
    requires
        decimal(a) == decimal(b),
    ensures
        a == b,
{
    if a >= 0 {
        lemma_digits_of(a);
        assert(digit(digits_of(a)[0]));
    } else {
        lemma_digits_of(-a);
        assert(decimal(a).drop_first() =~= digits_of(-a));
    }
    if b >= 0 {
        lemma_digits_of(b);
        assert(digit(digits_of(b)[0]));
    } else {
        lemma_digits_of(-b);
        assert(decimal(b).drop_first() =~= digits_of(-b));
    }
}

/// A plus sign changes nothing about digits with a point among or beside them.
pub proof fn law_plus_changes_nothing(a: Seq<char>, b: Seq<char>, places: int)
    requires
        all_digits(a),
        all_digits(b),
        a.len() + b.len() > 0,
    ensures
        number(seq!['+'] + (a + seq!['.'] + b), places) == number(a + seq!['.'] + b, places),
{
    let s = a + seq!['.'] + b;
    lemma_pointed_shape(a, b);
    let signed_text = seq!['+'] + s;
    assert(signed_text.drop_first() =~= s);
    assert(signed_text[0] == '+');
}

/// Digits that are finer than the count is are cut off: the number is rounded
/// down, and so towards zero where it is not negative.
pub proof fn law_fine_digits_are_cut_off(a: Seq<char>, b: Seq<char>, c: Seq<char>, places: int)
    requires
        all_digits(a),
        all_digits(b),
        all_digits(c),
        places == b.len(),
        a.len() + b.len() > 0,
        natural(a) < natural(overflow_digits()),
    ensures
        number(a + seq!['.'] + (b + c), places) == Some(clamped(natural(a + b))),
{
    lemma_both_digits(b, c);
    lemma_pointed_shape(a, b + c);
    let s = a + seq!['.'] + (b + c);
    let all = a + (b + c);
    assert(digits_in(s) == all);
    assert(point_in(s) == a.len());
    assert(all.take(a.len() as int) =~= a);
    assert(all.take((a.len() + places) as int) =~= a + b);
    if a.len() == 0 {
        assert(natural(a) == 0);
        assert(pointed(all, 0) == 0);
    }
    if a.len() + places == 0 {
        assert(a + b =~= Seq::<char>::empty());
    }
}

/// A text with a character that numbers do not have, or with nothing in it, is
/// no number.
pub proof fn law_other_characters_make_no_number(s: Seq<char>, i: int, places: int)
    requires
        0 <= i < s.len(),
        s[i] == ':' || s[i] == ',' || s[i] == ' ' || s[i] == '(' || s[i] == '[',
    ensures
        number(s, places) is None,
        number(Seq::empty(), places) is None,
{
    let none = Seq::<char>::empty();
    assert(unsigned(none) == none);
    assert(!is_decimal(none)) by {
        assert(whole(mantissa(none)).len() == 0);
        assert(fraction(mantissa(none)).len() == 0);
    }
    let body = unsigned(s);
    let k = if signed(s) {
        i - 1
    } else {
        i
    };
    assert(body[k] == s[i]);
    let word = seq!['i', 'n', 'f'];
    let long = seq!['i', 'n', 'f', 'i', 'n', 'i', 't', 'y'];
    let nan = seq!['n', 'a', 'n'];
    assert(!spells(body, word)) by {
        if spells(body, word) {
            assert(word[k] == 'i' || word[k] == 'n' || word[k] == 'f');
        }
    }
    assert(!spells(body, long)) by {
        if spells(body, long) {
            assert(long[k] == 'i' || long[k] == 'n' || long[k] == 'f' || long[k] == 't' || long[k]
                == 'y');
        }
    }
    assert(!spells(body, nan)) by {
        if spells(body, nan) {
            assert(nan[k] == 'n' || nan[k] == 'a');
        }
    }
    if is_decimal(body) {
        let cut = scan(body, seq!['e', 'E'], 0);
        law_scan_is_first(body, seq!['e', 'E'], 0);
        if k < cut {
            let m = mantissa(body);
            assert(m[k] == body[k]);
            lemma_position(m, '.', 0);
            let dot = position(m, '.', 0);
            if k < dot {
                assert(whole(m)[k] == body[k]);
            } else if k > dot {
                assert(fraction(m)[k - dot - 1] == body[k]);
            }
            assert(false);
        } else if k > cut {
            let e = exponent(body);
            assert(e[k - cut - 1] == body[k]);
            let u = unsigned(e);
            let j = if signed(e) {
                k - cut - 2
            } else {
                k - cut - 1
            };
            assert(u[j] == body[k]);
            assert(digit(u[j]));
            assert(false);
        } else {
            let stops = seq!['e', 'E'];
            assert(stops.contains(body[cut]));
            let t = choose|t: int| 0 <= t < stops.len() && stops[t] == body[cut];
            assert(t == 0 || t == 1);
            assert(false);
        }
    }
}

/// An exponent moves the point: so many zeros more for digits with one behind
/// them.
pub proof fn law_exponents_move_the_point(s: Seq<char>, k: int, places: int)
    requires
        all_digits(s),
        s.len() > 0,
        k >= 0,
        places >= 0,
        natural(s) * ten_to(k) < natural(overflow_digits()),
    ensures
        number(s + seq!['e'] + digits_of(k), places) == Some(
            clamped(natural(s) * ten_to(k + places)),
        ),
{
    let e = digits_of(k);
    let all = s + seq!['e'] + e;
    let stops = seq!['e', 'E'];
    lemma_digits_of(k);
    assert(digit(s[0]));
    assert(all[0] == s[0]);
    assert(unsigned(all) == all);
    let at = s.len() as int;
    law_scan_is_first(all, stops, 0);
    assert(all[at] == 'e');
    assert(stops[0] == 'e' && stops[1] == 'E');
    assert(stops.contains('e'));
    let cut = scan(all, stops, 0);
    if cut < at {
        assert(all[cut] == s[cut]);
        assert(digit(s[cut]));
        let t = choose|t: int| 0 <= t < stops.len() && stops[t] == all[cut];
        assert(t == 0 || t == 1);
        assert(false);
    }
    assert(cut == at);
    assert(mantissa(all) =~= s);
    assert(exponent(all) =~= e);
    assert(digit(e[0]));
    assert(unsigned(e) == e);
    assert(power(all) == k);
    lemma_position(s, '.', 0);
    let dot = position(s, '.', 0);
    if dot < s.len() {
        assert(digit(s[dot]));
    }
    assert(whole(s) =~= s);
    assert(fraction(s) =~= Seq::<char>::empty());
    assert(digits_in(all) =~= s);
    assert(is_decimal(all));
    assert(!is_infinity(all) && !is_nan_word(all)) by {
        assert(!spells(all, seq!['i', 'n', 'f'])) by {
            let word = seq!['i', 'n', 'f'];
            if spells(all, word) {
                assert(all[0] == word[0] || all[0] as u32 + 32 == word[0] as u32);
            }
        }
        assert(!spells(all, seq!['i', 'n', 'f', 'i', 'n', 'i', 't', 'y'])) by {
            let word = seq!['i', 'n', 'f', 'i', 'n', 'i', 't', 'y'];
            if spells(all, word) {
                assert(all[0] == word[0] || all[0] as u32 + 32 == word[0] as u32);
            }
        }
        assert(!spells(all, seq!['n', 'a', 'n'])) by {
            let word = seq!['n', 'a', 'n'];
            if spells(all, word) {
                assert(all[0] == word[0] || all[0] as u32 + 32 == word[0] as u32);
            }
        }
    }
    assert(s.take(s.len() as int) =~= s);
    assert(natural(s) * 1 == natural(s));
}

/// A count is held as it is while it stands for a finite number, and brought to
/// the nearest that does otherwise.
pub proof fn law_counts_are_held(value: int)
    ensures
        i64::MIN + 1 < value < i64::MAX - 1 ==> clamped(value) == value,
        value >= i64::MAX - 1 ==> clamped(value) == i64::MAX - 2,
        value <= i64::MIN + 1 ==> clamped(value) == i64::MIN + 2,
        finite(value) <==> i64::MIN + 1 < value < i64::MAX - 1,
        is_nan(value) <==> value == i64::MAX || value == i64::MIN,
{
}

/// Numbers with the same figures in base sixteen end alike, and have the same
/// figures without their ends.
pub proof fn law_base_sixteen_can_be_read(a: int, b: int, count: int)
    requires
        count >= 0,
        a >= 0,
        b >= 0,
        hexadecimal(a, count) == hexadecimal(b, count),
    ensures
        count > 0 ==> a % 16 == b % 16,
        count > 0 ==> hexadecimal(a / 16, count - 1) == hexadecimal(b / 16, count - 1),
        hexadecimal(a, count).len() == count,
    decreases count,
{
    if count > 0 {
        let x = hexadecimal(a / 16, count - 1).push(figure(a % 16));
        let y = hexadecimal(b / 16, count - 1).push(figure(b % 16));
        assert(x.last() == y.last());
        assert(x.drop_last() =~= hexadecimal(a / 16, count - 1));
        assert(y.drop_last() =~= hexadecimal(b / 16, count - 1));
        lemma_figures_differ(a % 16, b % 16);
        law_base_sixteen_can_be_read(a / 16, b / 16, count - 1);
    }
}

proof fn lemma_figures_differ(a: int, b: int)
    requires
        0 <= a < 16,
        0 <= b < 16,
        figure(a) == figure(b),
    ensures
        a == b,
{
}

} // verus!
