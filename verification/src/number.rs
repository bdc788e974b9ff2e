//! The two number syntaxes of a fixed offset: a signed whole number of
//! minutes, and a signed decimal number of hours.
//!
//! Both are read from ASCII bytes, starting at a given index and running to
//! the end of the text, and both yield an offset in seconds.

use vstd::prelude::*;
use vstd::arithmetic::div_mod::lemma_div_denominator;
use vstd::arithmetic::div_mod::lemma_hoist_over_denominator;
use vstd::arithmetic::div_mod::lemma_breakdown;
use vstd::arithmetic::div_mod::lemma_mod_multiples_vanish;

verus! {

/// What a number text stands for, as an offset.
#[derive(Clone, Copy, Debug, PartialEq, Eq, Structural)]
pub enum OffsetText {
    /// The text is not a number of the expected syntax.
    Malformed,
    /// The text is a number, but the offset is beyond twelve hours or not
    /// finite.
    TooLarge,
    /// The offset in seconds, between -43200 and 43200.
    Seconds(i32),
}

pub open spec fn is_digit(b: u8) -> bool {
    48 <= b && b <= 57
}

/// The value of one digit; 0 for a byte that is no digit.
pub open spec fn digit_of(b: u8) -> nat {
    if is_digit(b) {
        (b - 48) as nat
    } else {
        0
    }
}

pub open spec fn all_digits(s: Seq<u8>) -> bool {
    forall|i: int| 0 <= i < s.len() ==> is_digit(#[trigger] s[i])
}

/// The number that a sequence of decimal digits writes, most significant
/// digit first.
pub open spec fn digits_value(s: Seq<u8>) -> nat
    decreases s.len(),
{
    if s.len() == 0 {
        0
    } else {
        digits_value(s.drop_last()) * 10 + digit_of(s.last())
    }
}

pub open spec fn pow10(n: nat) -> nat
    decreases n,
{
    if n == 0 {
        1
    } else {
        10 * pow10((n - 1) as nat)
    }
}

/// 1 where the text has a `+` or `-` at `from`, else 0.
pub open spec fn sign_len(s: Seq<u8>, from: int) -> int {
    if 0 <= from < s.len() && (s[from] == 43 || s[from] == 45) {
        1
    } else {
        0
    }
}

pub open spec fn is_negative(s: Seq<u8>, from: int) -> bool {
    0 <= from < s.len() && s[from] == 45
}

pub open spec fn with_sign(negative: bool, magnitude: nat) -> int {
    if negative {
        -(magnitude as int)
    } else {
        magnitude as int
    }
}

/// The index at which the run of digits that starts at `from` ends.
pub open spec fn digit_run(s: Seq<u8>, from: int) -> int
    decreases s.len() - from,
{
    if 0 <= from < s.len() && is_digit(s[from]) {
        digit_run(s, from + 1)
    } else {
        from
    }
}

/// The value of a whole number written from `from` to the end of the text:
/// an optional sign and at least one digit, the value within the range of a
/// 32-bit signed integer. `None` for any other text.
pub open spec fn integer_text_value(s: Seq<u8>, from: int) -> Option<int> {
    let first = from + sign_len(s, from);
    let body = s.subrange(first, s.len() as int);
    let value = with_sign(is_negative(s, from), digits_value(body));
    if first < s.len() && all_digits(body) && -2147483648 <= value <= 2147483647 {
        Some(value)
    } else {
        None
    }
}

/// The offset in seconds that a whole number of minutes stands for.
pub open spec fn minutes_text_seconds(s: Seq<u8>, from: int) -> Option<int> {
    match integer_text_value(s, from) {
        Some(minutes) => Some(60 * minutes),
        None => None,
    }
}

/// The whole seconds in a fraction of an hour, given by the digits behind
/// the decimal point; what is less than a second is dropped.
pub open spec fn fraction_seconds(digits: Seq<u8>) -> nat {
    (3600 * digits_value(digits)) / pow10(digits.len())
}

/// A run of `n` zero digits.
pub open spec fn zeros(n: nat) -> Seq<u8> {
    Seq::new(n, |i: int| 48u8)
}

/// The digits in front of the decimal point, where the point stands behind
/// the first `point` of the digits: zeros are filled in where the point lies
/// beyond the last digit.
pub open spec fn whole_part(digits: Seq<u8>, point: int) -> Seq<u8> {
    if point <= 0 {
        Seq::<u8>::empty()
    } else if point <= digits.len() {
        digits.subrange(0, point)
    } else {
        digits + zeros((point - digits.len()) as nat)
    }
}

/// The digits behind the decimal point: zeros are filled in where the point
/// lies before the first digit.
pub open spec fn fraction_part(digits: Seq<u8>, point: int) -> Seq<u8> {
    if point >= digits.len() {
        Seq::<u8>::empty()
    } else if point >= 0 {
        digits.subrange(point, digits.len() as int)
    } else {
        zeros((-point) as nat) + digits
    }
}

/// The whole seconds in a number of hours, given by its digits and the
/// place of its decimal point; what is less than a second is dropped.
pub open spec fn scaled_seconds(digits: Seq<u8>, point: int) -> nat {
    3600 * digits_value(whole_part(digits, point)) + fraction_seconds(fraction_part(digits, point))
}

/// What is left of a fraction of an hour beyond its whole seconds, in units
/// of its last digit: 0 exactly where the fraction is a whole number of
/// seconds.
pub open spec fn fraction_left(digits: Seq<u8>) -> nat {
    (3600 * digits_value(digits)) % pow10(digits.len())
}

/// Whether a number of hours is twelve hours at most. The exact number is
/// tested, before anything is cut: with 43200 whole seconds nothing may be
/// left beyond them.
pub open spec fn within_twelve_hours(digits: Seq<u8>, point: int) -> bool {
    scaled_seconds(digits, point) < 43200 || (scaled_seconds(digits, point) == 43200
        && fraction_left(fraction_part(digits, point)) == 0)
}

/// The exponent written from `at` to the end of the text. No text at all
/// stands for 0; else the letter `e` in either case, an optional sign and at
/// least one digit. `None` for any other text.
pub open spec fn exponent_value(s: Seq<u8>, at: int) -> Option<int> {
    if at == s.len() {
        Some(0)
    } else if 0 <= at < s.len() && (s[at] == 101 || s[at] == 69) {
        let first = at + 1 + sign_len(s, at + 1);
        let digits = s.subrange(first, s.len() as int);
        if first < s.len() && all_digits(digits) {
            Some(with_sign(is_negative(s, at + 1), digits_value(digits)))
        } else {
            None
        }
    } else {
        None
    }
}

/// An ASCII letter in lower case; any other byte unchanged.
pub open spec fn ascii_lower(b: u8) -> u8 {
    if 65 <= b && b <= 90 {
        (b + 32) as u8
    } else {
        b
    }
}

/// Whether the text from `from` to its end is, in either case, the given
/// word in lower case.
pub open spec fn is_word(s: Seq<u8>, from: int, word: Seq<u8>) -> bool {
    s.len() - from == word.len() && forall|i: int|
        0 <= i < word.len() ==> ascii_lower(#[trigger] s[from + i]) == word[i]
}

/// Whether the text from `from` to its end writes no finite number but one
/// of `inf`, `infinity` and `nan`, in either case and with an optional sign.
pub open spec fn is_unbounded_text(s: Seq<u8>, from: int) -> bool {
    let first = from + sign_len(s, from);
    is_word(s, first, seq![105u8, 110u8, 102u8]) || is_word(
        s,
        first,
        seq![105u8, 110u8, 102u8, 105u8, 110u8, 105u8, 116u8, 121u8],
    ) || is_word(s, first, seq![110u8, 97u8, 110u8])
}

/// Where the decimal point of a number stands, if it has one: the index
/// behind it, else the index `point` itself.
pub open spec fn fraction_start(s: Seq<u8>, point: int) -> int {
    if 0 <= point < s.len() && s[point] == 46 {
        point + 1
    } else {
        point
    }
}

/// The digits of the number that begins at `first`, without its decimal
/// point.
pub open spec fn mantissa(s: Seq<u8>, first: int) -> Seq<u8> {
    let point = digit_run(s, first);
    let fraction = fraction_start(s, point);
    s.subrange(first, point) + s.subrange(fraction, digit_run(s, fraction))
}

/// The offset in seconds that a decimal number of hours stands for, written
/// from `from` to the end of the text: an optional sign, digits with at most
/// one decimal point among, before or behind them, and optionally an
/// exponent of ten. The offset is taken exactly and cut to whole seconds
/// towards zero; whether it is within the bound is told by
/// `hours_text_within`. `None` for any other text.
pub open spec fn hours_text_seconds(s: Seq<u8>, from: int) -> Option<int> {
    let first = from + sign_len(s, from);
    let point = digit_run(s, first);
    let end = digit_run(s, fraction_start(s, point));
    let digits = mantissa(s, first);
    if digits.len() == 0 {
        None
    } else {
        match exponent_value(s, end) {
            None => None,
            Some(exponent) => Some(
                with_sign(is_negative(s, from), scaled_seconds(digits, point - first + exponent)),
            ),
        }
    }
}

/// Whether the finite number of hours written from `from` to the end of the
/// text is twelve hours at most, either way. The exact number is tested, so
/// that 12.0001 hours are beyond the bound though they have 43200 whole
/// seconds.
pub open spec fn hours_text_within(s: Seq<u8>, from: int) -> bool {
    let first = from + sign_len(s, from);
    let point = digit_run(s, first);
    let end = digit_run(s, fraction_start(s, point));
    match exponent_value(s, end) {
        None => false,
        Some(exponent) => within_twelve_hours(mantissa(s, first), point - first + exponent),
    }
}

/// What a finite number of hours stands for as an offset: its seconds where
/// it is within twelve hours.
pub open spec fn finite_hours_offset(s: Seq<u8>, from: int) -> OffsetText {
    match hours_text_seconds(s, from) {
        None => OffsetText::Malformed,
        Some(seconds) => if hours_text_within(s, from) {
            OffsetText::Seconds(seconds as i32)
        } else {
            OffsetText::TooLarge
        },
    }
}

/// What a number of hours stands for as an offset: a finite number by its
/// seconds, and one that is not finite as an offset beyond every bound.
pub open spec fn hours_text_offset(s: Seq<u8>, from: int) -> OffsetText {
    if is_unbounded_text(s, from) {
        OffsetText::TooLarge
    } else {
        finite_hours_offset(s, from)
    }
}

/// How an exact offset in seconds is reported.
pub open spec fn offset_text_of(seconds: Option<int>) -> OffsetText {
    match seconds {
        None => OffsetText::Malformed,
        Some(v) => if -43200 <= v <= 43200 {
            OffsetText::Seconds(v as i32)
        } else {
            OffsetText::TooLarge
        },
    }
}

pub proof fn lemma_pow10_positive(n: nat)
    ensures
        pow10(n) > 0,
    decreases n,
{
    if n > 0 {
        lemma_pow10_positive((n - 1) as nat);
    }
}

/// The value of a digit sequence, read from its first digit.
pub proof fn lemma_digits_value_front(s: Seq<u8>)
    requires
        s.len() > 0,
    ensures
        digits_value(s) == digit_of(s[0]) * pow10((s.len() - 1) as nat) + digits_value(
            s.drop_first(),
        ),
    decreases s.len(),
{
    if s.len() == 1 {
        assert(s.drop_last().len() == 0);
        assert(s.drop_first().len() == 0);
        assert(digits_value(s.drop_last()) == 0);
        assert(digits_value(s.drop_first()) == 0);
        assert(s.last() == s[0]);
        assert(pow10(0) == 1);
        assert(digits_value(s) == digit_of(s[0]));
        assert(digit_of(s[0]) * pow10(0) == digit_of(s[0])) by (nonlinear_arith)
            requires
                pow10(0) == 1,
        ;
    } else {
        let init = s.drop_last();
        lemma_digits_value_front(init);
        assert(init.drop_first() =~= s.drop_first().drop_last());
        let tail = s.drop_first();
        assert(tail.last() == s.last());
        assert(init[0] == s[0]);
        assert(digits_value(s) == digits_value(init) * 10 + digit_of(s.last()));
        assert(digits_value(tail) == digits_value(tail.drop_last()) * 10 + digit_of(s.last()));
        let d = digit_of(s[0]) as int;
        let p = pow10((s.len() - 2) as nat) as int;
        let rest = digits_value(init.drop_first()) as int;
        assert(pow10((s.len() - 1) as nat) == 10 * pow10((s.len() - 2) as nat));
        assert((d * p + rest) * 10 == d * (10 * p) + rest * 10) by (nonlinear_arith);
        assert(digits_value(init) == d * p + rest);
        assert(digits_value(tail) == rest * 10 + digit_of(s.last()));
        assert(digits_value(s) == d * (10 * p) + digits_value(tail));
    }
}

/// One more digit in front of a fraction: the whole seconds follow from the
/// digit and from the whole seconds of the shorter fraction.
pub proof fn lemma_fraction_step(s: Seq<u8>)
    requires
        s.len() > 0,
    ensures
        fraction_seconds(s) == (3600 * digit_of(s[0]) + fraction_seconds(s.drop_first())) / 10,
{
    let m = (s.len() - 1) as nat;
    let p = pow10(m) as int;
    let d = digit_of(s[0]) as int;
    let rest = digits_value(s.drop_first()) as int;
    let x = 3600 * rest;
    let y = 3600 * (digits_value(s) as int);
    lemma_pow10_positive(m);
    lemma_digits_value_front(s);
    assert(pow10(s.len()) == 10 * pow10(m));
    assert(y == x + (3600 * d) * p) by (nonlinear_arith)
        requires
            y == 3600 * (d * p + rest),
            x == 3600 * rest,
    ;
    lemma_hoist_over_denominator(x, 3600 * d, p as nat);
    assert(y / p == x / p + 3600 * d);
    lemma_div_denominator(y, p, 10);
    assert(p * 10 == pow10(s.len()));
    assert((3600 * digits_value(s)) as int == y);
    assert((3600 * digits_value(s.drop_first())) as int == x);
}

/// Whether the text has a digit at `at`.
pub fn digit_at(text: &[u8], at: usize) -> (yes: bool)
    ensures
        yes == (at < text@.len() && is_digit(text@[at as int])),
{
    at < text.len() && text[at] >= 48 && text[at] <= 57
}

/// Reads a whole number from `from` to the end of the text.
pub fn parse_integer(text: &[u8], from: usize) -> (value: Option<i32>)
    requires
        from <= text@.len(),
    ensures
        value.is_some() == integer_text_value(text@, from as int).is_some(),
        value.is_some() ==> integer_text_value(text@, from as int) == Some(value.unwrap() as int),
{
    let n = text.len();
    let signed = from < n && (text[from] == 43 || text[from] == 45);
    let negative = from < n && text[from] == 45;
    let first: usize = if signed { from + 1 } else { from };
    if first >= n {
        return None;
    }
    let ghost body = text@.subrange(first as int, n as int);
    let mut total: u64 = 0;
    let mut i: usize = first;
    while i < n
        invariant
            first <= i <= n,
            n == text@.len(),
            first == from + sign_len(text@, from as int),
            body == text@.subrange(first as int, n as int),
            all_digits(text@.subrange(first as int, i as int)),
            total <= 4_000_000_000,
            total as int == if digits_value(text@.subrange(first as int, i as int))
                < 4_000_000_000 {
                digits_value(text@.subrange(first as int, i as int)) as int
            } else {
                4_000_000_000
            },
        decreases n - i,
    {
        let b = text[i];
        if b < 48 || b > 57 {
            proof {
                assert(body[i - first] == b);
                assert(!is_digit(body[i - first]));
                assert(!all_digits(body));
            }
            return None;
        }
        proof {
            let longer = text@.subrange(first as int, i + 1);
            assert(longer.drop_last() =~= text@.subrange(first as int, i as int));
            assert(longer.last() == b);
        }
        let next: u64 = total * 10 + (b - 48) as u64;
        total = if next > 4_000_000_000 { 4_000_000_000 } else { next };
        i += 1;
    }
    proof {
        assert(text@.subrange(first as int, i as int) == body);
    }
    if negative {
        if total <= 2147483648 {
            let wide: i64 = 0 - (total as i64);
            Some(wide as i32)
        } else {
            None
        }
    } else {
        if total <= 2147483647 {
            Some(total as i32)
        } else {
            None
        }
    }
}

/// Reads a whole number of minutes from `from` to the end of the text, as an
/// offset in seconds.
pub fn parse_minutes(text: &[u8], from: usize) -> (offset: OffsetText)
    requires
        from <= text@.len(),
    ensures
        offset == offset_text_of(minutes_text_seconds(text@, from as int)),
{
    match parse_integer(text, from) {
        None => OffsetText::Malformed,
        Some(minutes) => {
            if -720 <= minutes && minutes <= 720 {
                OffsetText::Seconds(minutes * 60)
            } else {
                OffsetText::TooLarge
            }
        },
    }
}

/// One more digit in front of a fraction: nothing is left beyond the whole
/// seconds exactly where nothing was left before and the division by ten
/// leaves nothing.
pub proof fn lemma_fraction_left_step(s: Seq<u8>)
    requires
        s.len() > 0,
    ensures
        (fraction_left(s) == 0) == (fraction_left(s.drop_first()) == 0 && (3600 * digit_of(s[0])
            + fraction_seconds(s.drop_first())) % 10 == 0),
{
    let m = (s.len() - 1) as nat;
    let p = pow10(m) as int;
    let d = digit_of(s[0]) as int;
    let rest = digits_value(s.drop_first()) as int;
    let x = 3600 * rest;
    let y = 3600 * (digits_value(s) as int);
    lemma_pow10_positive(m);
    lemma_digits_value_front(s);
    assert(pow10(s.len()) == 10 * pow10(m));
    assert(y == p * (3600 * d) + x) by (nonlinear_arith)
        requires
            y == 3600 * (d * p + rest),
            x == 3600 * rest,
    ;
    lemma_mod_multiples_vanish(3600 * d, x, p);
    lemma_hoist_over_denominator(x, 3600 * d, p as nat);
    assert(y / p == x / p + 3600 * d);
    lemma_breakdown(y, p, 10);
    let k = (y / p) % 10;
    let r = y % p;
    assert(y % (p * 10) == p * k + r);
    assert((p * k + r == 0) == (k == 0 && r == 0)) by (nonlinear_arith)
        requires
            p > 0,
            0 <= k,
            0 <= r,
    ;
    assert(p * 10 == pow10(s.len()));
    assert((3600 * digits_value(s)) as int == y);
    assert((3600 * digits_value(s.drop_first())) as int == x);
}

/// A fraction has fewer than 3600 whole seconds.
pub proof fn lemma_fraction_bound(s: Seq<u8>)
    ensures
        fraction_seconds(s) < 3600,
    decreases s.len(),
{
    if s.len() == 0 {
        assert(digits_value(s) == 0);
        assert(pow10(0) == 1);
    } else {
        lemma_fraction_bound(s.drop_first());
        lemma_fraction_step(s);
    }
}

/// Zeros in front of a fraction: each divides its whole seconds by ten, and
/// with four of them none is left.
pub proof fn lemma_leading_zeros(s: Seq<u8>, n: nat)
    ensures
        fraction_seconds(zeros(n) + s) < 3600,
        n >= 1 ==> fraction_seconds(zeros(n) + s) < 360,
        n >= 2 ==> fraction_seconds(zeros(n) + s) < 36,
        n >= 3 ==> fraction_seconds(zeros(n) + s) < 4,
        n >= 4 ==> fraction_seconds(zeros(n) + s) == 0,
    decreases n,
{
    if n == 0 {
        assert(zeros(0) + s =~= s);
        lemma_fraction_bound(s);
    } else {
        let longer = zeros(n) + s;
        lemma_leading_zeros(s, (n - 1) as nat);
        assert(longer.drop_first() =~= zeros((n - 1) as nat) + s);
        assert(longer[0] == 48);
        lemma_fraction_step(longer);
    }
}

/// Zeros behind a number: each multiplies it by ten.
pub proof fn lemma_trailing_zeros(s: Seq<u8>, n: nat)
    ensures
        digits_value(s) == 0 ==> digits_value(s + zeros(n)) == 0,
        digits_value(s + zeros(n)) >= digits_value(s),
        n >= 1 ==> digits_value(s + zeros(n)) >= 10 * digits_value(s),
        n >= 2 ==> digits_value(s + zeros(n)) >= 100 * digits_value(s),
    decreases n,
{
    if n == 0 {
        assert(s + zeros(0) =~= s);
    } else {
        let longer = s + zeros(n);
        lemma_trailing_zeros(s, (n - 1) as nat);
        assert(longer.drop_last() =~= s + zeros((n - 1) as nat));
        assert(longer.last() == 48);
    }
}

/// An ASCII letter in lower case; any other byte unchanged.
pub fn lower(b: u8) -> (l: u8)
    ensures
        l == ascii_lower(b),
{
    if 65 <= b && b <= 90 {
        b + 32
    } else {
        b
    }
}

/// Whether the text from `from` to its end is the given word, in either
/// case.
pub fn word_at(text: &[u8], from: usize, word: &[u8]) -> (yes: bool)
    requires
        from <= text@.len(),
    ensures
        yes == is_word(text@, from as int, word@),
{
    let n = text.len();
    if n - from != word.len() {
        return false;
    }
    let mut i: usize = 0;
    while i < word.len()
        invariant
            i <= word@.len(),
            n == text@.len(),
            from <= text@.len(),
            text@.len() - from == word@.len(),
            forall|k: int| 0 <= k < i ==> ascii_lower(#[trigger] text@[from + k]) == word@[k],
        decreases word@.len() - i,
    {
        if lower(text[from + i]) != word[i] {
            return false;
        }
        i += 1;
    }
    true
}

/// The number that the digits from `from` to `to` write, but no more
/// than 100.
pub fn bounded_value(digits: &[u8], from: usize, to: usize) -> (value: u64)
    requires
        from <= to <= digits@.len(),
        all_digits(digits@.subrange(from as int, to as int)),
    ensures
        value <= 100,
        value as int == if digits_value(digits@.subrange(from as int, to as int)) < 100 {
            digits_value(digits@.subrange(from as int, to as int)) as int
        } else {
            100
        },
{
    let mut value: u64 = 0;
    let mut i: usize = from;
    while i < to
        invariant
            from <= i <= to <= digits@.len(),
            all_digits(digits@.subrange(from as int, to as int)),
            value <= 100,
            value as int == if digits_value(digits@.subrange(from as int, i as int)) < 100 {
                digits_value(digits@.subrange(from as int, i as int)) as int
            } else {
                100
            },
        decreases to - i,
    {
        proof {
            let longer = digits@.subrange(from as int, i + 1);
            assert(longer.drop_last() =~= digits@.subrange(from as int, i as int));
            assert(longer.last() == digits@[i as int]);
            assert(digits@.subrange(from as int, to as int)[i - from] == digits@[i as int]);
        }
        let next: u64 = value * 10 + (digits[i] - 48) as u64;
        value = if next > 100 { 100 } else { next };
        i += 1;
    }
    value
}

/// The whole seconds in the fraction of an hour that the digits from `from`
/// to `to` write behind the decimal point, and whether nothing is left
/// beyond them.
pub fn fraction_value(digits: &[u8], from: usize, to: usize) -> (parts: (u64, bool))
    requires
        from <= to <= digits@.len(),
        all_digits(digits@.subrange(from as int, to as int)),
    ensures
        parts.0 < 3600,
        parts.0 == fraction_seconds(digits@.subrange(from as int, to as int)),
        parts.1 == (fraction_left(digits@.subrange(from as int, to as int)) == 0),
{
    let mut carry: u64 = 0;
    let mut whole: bool = true;
    let mut i: usize = to;
    proof {
        assert(digits_value(digits@.subrange(to as int, to as int)) == 0);
        assert(pow10(0) == 1);
    }
    while i > from
        invariant
            from <= i <= to <= digits@.len(),
            all_digits(digits@.subrange(from as int, to as int)),
            carry < 3600,
            carry == fraction_seconds(digits@.subrange(i as int, to as int)),
            whole == (fraction_left(digits@.subrange(i as int, to as int)) == 0),
        decreases i,
    {
        i -= 1;
        proof {
            let longer = digits@.subrange(i as int, to as int);
            assert(longer.drop_first() =~= digits@.subrange(i + 1, to as int));
            assert(longer[0] == digits@[i as int]);
            assert(digits@.subrange(from as int, to as int)[i - from] == digits@[i as int]);
            lemma_fraction_step(longer);
            lemma_fraction_left_step(longer);
        }
        let sum: u64 = 3600 * ((digits[i] - 48) as u64) + carry;
        whole = whole && sum % 10 == 0;
        carry = sum / 10;
    }
    (carry, whole)
}

/// How far an exponent is followed exactly: beyond this it only matters
/// that it is large.
pub open spec fn exponent_limit() -> int {
    0x40_0000_0000_0000_0000
}

/// An exponent held within the limit on either side.
pub open spec fn limited(exponent: int) -> int {
    if exponent > exponent_limit() {
        exponent_limit()
    } else if exponent < -exponent_limit() {
        -exponent_limit()
    } else {
        exponent
    }
}

/// Reads an exponent from `at` to the end of the text, held within the
/// limit.
pub fn parse_exponent(text: &[u8], at: usize) -> (exponent: Option<i128>)
    requires
        at <= text@.len(),
    ensures
        exponent.is_some() == exponent_value(text@, at as int).is_some(),
        exponent.is_some() ==> exponent.unwrap() as int == limited(
            exponent_value(text@, at as int).unwrap(),
        ),
{
    let n = text.len();
    if at == n {
        return Some(0);
    }
    if text[at] != 101 && text[at] != 69 {
        return None;
    }
    let sign: usize = at + 1;
    let signed = sign < n && (text[sign] == 43 || text[sign] == 45);
    let negative = sign < n && text[sign] == 45;
    let first: usize = if signed { sign + 1 } else { sign };
    if first >= n {
        return None;
    }
    let ghost body = text@.subrange(first as int, n as int);
    let mut total: u128 = 0;
    let mut i: usize = first;
    while i < n
        invariant
            first <= i <= n,
            n == text@.len(),
            body == text@.subrange(first as int, n as int),
            all_digits(text@.subrange(first as int, i as int)),
            at < n,
            text@[at as int] == 101 || text@[at as int] == 69,
            first == at + 1 + sign_len(text@, at + 1),
            total <= 0x40_0000_0000_0000_0000,
            total as int == if digits_value(text@.subrange(first as int, i as int))
                < 0x40_0000_0000_0000_0000 {
                digits_value(text@.subrange(first as int, i as int)) as int
            } else {
                0x40_0000_0000_0000_0000
            },
        decreases n - i,
    {
        let b = text[i];
        if b < 48 || b > 57 {
            proof {
                assert(body[i - first] == b);
                assert(!is_digit(body[i - first]));
                assert(!all_digits(body));
            }
            return None;
        }
        proof {
            let longer = text@.subrange(first as int, i + 1);
            assert(longer.drop_last() =~= text@.subrange(first as int, i as int));
            assert(longer.last() == b);
        }
        let next: u128 = total * 10 + (b - 48) as u128;
        total = if next > 0x40_0000_0000_0000_0000 { 0x40_0000_0000_0000_0000 } else { next };
        i += 1;
    }
    proof {
        assert(text@.subrange(first as int, i as int) == body);
    }
    if negative {
        Some(0 - (total as i128))
    } else {
        Some(total as i128)
    }
}

/// Appends the bytes of the text from `from` to `to`.
fn copy_range(text: &[u8], from: usize, to: usize, out: &mut Vec<u8>)
    requires
        from <= to <= text@.len(),
    ensures
        final(out)@ == old(out)@ + text@.subrange(from as int, to as int),
{
    let mut i: usize = from;
    while i < to
        invariant
            from <= i <= to <= text@.len(),
            out@ == old(out)@ + text@.subrange(from as int, i as int),
        decreases to - i,
    {
        out.push(text[i]);
        proof {
            assert(out@ =~= old(out)@ + text@.subrange(from as int, i + 1));
        }
        i += 1;
    }
    proof {
        assert(text@.subrange(from as int, from as int) =~= Seq::<u8>::empty());
    }
}

/// Appends `n` zero digits.
fn push_zeros(out: &mut Vec<u8>, n: usize)
    ensures
        final(out)@ == old(out)@ + zeros(n as nat),
{
    let mut i: usize = 0;
    while i < n
        invariant
            i <= n,
            out@ == old(out)@ + zeros(i as nat),
        decreases n - i,
    {
        out.push(48);
        proof {
            assert(out@ =~= old(out)@ + zeros((i + 1) as nat));
        }
        i += 1;
    }
}

/// The index at which the run of digits that starts at `from` ends.
pub fn scan_digits(text: &[u8], from: usize) -> (end: usize)
    requires
        from <= text@.len(),
    ensures
        from <= end <= text@.len(),
        end == digit_run(text@, from as int),
        all_digits(text@.subrange(from as int, end as int)),
{
    let n = text.len();
    let mut end: usize = from;
    while digit_at(text, end)
        invariant
            n == text@.len(),
            from <= end <= text@.len(),
            digit_run(text@, from as int) == digit_run(text@, end as int),
            forall|j: int| from <= j < end ==> is_digit(#[trigger] text@[j]),
        decreases text@.len() - end,
    {
        end += 1;
    }
    end
}

/// The value of two digit sequences, one behind the other.
pub proof fn lemma_digits_value_concat(front: Seq<u8>, back: Seq<u8>)
    ensures
        digits_value(front + back) == digits_value(front) * pow10(back.len()) + digits_value(back),
    decreases back.len(),
{
    if back.len() == 0 {
        assert(front + back =~= front);
        assert(pow10(0) == 1);
        assert(digits_value(front) * 1 == digits_value(front)) by (nonlinear_arith);
    } else {
        let all = front + back;
        let shorter = back.drop_last();
        lemma_digits_value_concat(front, shorter);
        assert(all.drop_last() =~= front + shorter);
        assert(all.last() == back.last());
        let f = digits_value(front) as int;
        let p = pow10(shorter.len()) as int;
        let b = digits_value(shorter) as int;
        assert(pow10(back.len()) == 10 * pow10(shorter.len()));
        assert((f * p + b) * 10 == f * (10 * p) + b * 10) by (nonlinear_arith);
    }
}

/// A run of zeros writes the number 0.
pub proof fn lemma_zeros_value(n: nat)
    ensures
        digits_value(zeros(n)) == 0,
    decreases n,
{
    if n > 0 {
        lemma_zeros_value((n - 1) as nat);
        assert(zeros(n).drop_last() =~= zeros((n - 1) as nat));
    }
}

/// The seconds of a number of hours are 3600 times the number, cut to a
/// whole number: with the decimal point behind the last digit or beyond, the
/// digits' value times a power of ten; with it further to the front, that
/// value divided by a power of ten.
pub proof fn law_seconds_are_cut_hours(digits: Seq<u8>, point: int)
    ensures
        point >= digits.len() ==> scaled_seconds(digits, point) == 3600 * (digits_value(digits)
            * pow10((point - digits.len()) as nat)),
        point < digits.len() ==> scaled_seconds(digits, point) == (3600 * digits_value(digits))
            / pow10((digits.len() - point) as nat),
{
    let n = digits.len() as int;
    let value = digits_value(digits) as int;
    assert(digits_value(Seq::<u8>::empty()) == 0);
    assert(pow10(0) == 1);
    if point >= n {
        assert(fraction_seconds(Seq::<u8>::empty()) == 0);
        let z = (point - n) as nat;
        lemma_digits_value_concat(digits, zeros(z));
        lemma_zeros_value(z);
        if point == n {
            assert(digits.subrange(0, n) =~= digits);
            assert(value * 1 == value) by (nonlinear_arith);
        }
        if n == 0 {
            assert(digits + zeros(z) =~= zeros(z));
            assert(0 * (pow10(z) as int) == 0) by (nonlinear_arith);
        }
    } else if point >= 0 {
        let front = digits.subrange(0, point);
        let back = digits.subrange(point, n);
        let p = pow10(back.len()) as int;
        let f = digits_value(front) as int;
        let b = digits_value(back) as int;
        assert(front + back =~= digits);
        lemma_digits_value_concat(front, back);
        lemma_pow10_positive(back.len());
        if point == 0 {
            assert(front =~= Seq::<u8>::empty());
        }
        assert(3600 * value == 3600 * b + (3600 * f) * p) by (nonlinear_arith)
            requires
                value == f * p + b,
        ;
        lemma_hoist_over_denominator(3600 * b, 3600 * f, p as nat);
    } else {
        let z = (-point) as nat;
        lemma_digits_value_concat(zeros(z), digits);
        lemma_zeros_value(z);
        assert(0 * (pow10(digits.len()) as int) == 0) by (nonlinear_arith);
    }
}

/// Where the decimal point lies far outside the digits, it does not matter
/// how far: the number is 0, or is more than twelve hours, either way.
pub proof fn lemma_far_points(digits: Seq<u8>, near: int, far: int)
    requires
        near == far || (near > digits.len() + 1 && far >= near) || (near < -3 && far <= near),
    ensures
        within_twelve_hours(digits, near) == within_twelve_hours(digits, far),
        within_twelve_hours(digits, near) ==> scaled_seconds(digits, near) == scaled_seconds(
            digits,
            far,
        ),
{
    if near != far {
        assert(digits_value(Seq::<u8>::empty()) == 0);
        assert(pow10(0) == 1);
        assert(fraction_seconds(Seq::<u8>::empty()) == 0);
        if near > digits.len() + 1 {
            lemma_trailing_zeros(digits, (near - digits.len()) as nat);
            lemma_trailing_zeros(digits, (far - digits.len()) as nat);
        } else {
            lemma_leading_zeros(digits, (-near) as nat);
            lemma_leading_zeros(digits, (-far) as nat);
        }
    }
}

/// The whole seconds in a number of hours, or `None` where the number is
/// more than twelve hours.
pub fn seconds_within_bound(digits: &Vec<u8>, point: i128) -> (seconds: Option<u64>)
    requires
        all_digits(digits@),
    ensures
        seconds.is_some() == within_twelve_hours(digits@, point as int),
        seconds.is_some() ==> seconds.unwrap() == scaled_seconds(digits@, point as int),
{
    let count = digits.len();
    proof {
        assert(digits@.subrange(0, count as int) =~= digits@);
    }
    if point > count as i128 + 1 {
        let value = bounded_value(digits.as_slice(), 0, count);
        proof {
            lemma_trailing_zeros(digits@, (point - count) as nat);
            assert(fraction_seconds(Seq::<u8>::empty()) == 0) by {
                lemma_fraction_bound(Seq::<u8>::empty());
                assert(digits_value(Seq::<u8>::empty()) == 0);
                assert(pow10(0) == 1);
            }
        }
        if value == 0 {
            Some(0)
        } else {
            None
        }
    } else if point < -3 {
        proof {
            lemma_leading_zeros(digits@, (-point) as nat);
            assert(digits_value(Seq::<u8>::empty()) == 0);
        }
        Some(0)
    } else {
        let lead: usize = if point < 0 { (0 - point) as usize } else { 0 };
        let trail: usize = if point > count as i128 { 1 } else { 0 };
        let mut padded: Vec<u8> = Vec::new();
        push_zeros(&mut padded, lead);
        copy_range(digits.as_slice(), 0, count, &mut padded);
        push_zeros(&mut padded, trail);
        let length = padded.len();
        proof {
            assert(padded@ =~= zeros(lead as nat) + digits@ + zeros(trail as nat));
            assert(length == lead + count + trail);
        }
        let split: usize = if point < 0 { 0 } else { point as usize };
        proof {
            assert(padded@.subrange(0, split as int) =~= whole_part(digits@, point as int));
            assert(padded@.subrange(split as int, padded@.len() as int) =~= fraction_part(
                digits@,
                point as int,
            ));
        }
        let whole = bounded_value(padded.as_slice(), 0, split);
        let (fraction, exact) = fraction_value(padded.as_slice(), split, length);
        if whole > 12 {
            None
        } else {
            let seconds: u64 = 3600 * whole + fraction;
            if seconds > 43200 || (seconds == 43200 && !exact) {
                None
            } else {
                Some(seconds)
            }
        }
    }
}

/// Whether the text from `first` to its end is one of `inf`, `infinity`
/// and `nan`, in either case.
fn unbounded_at(text: &[u8], first: usize) -> (yes: bool)
    requires
        first <= text@.len(),
    ensures
        yes == (is_word(text@, first as int, seq![105u8, 110u8, 102u8]) || is_word(
            text@,
            first as int,
            seq![105u8, 110u8, 102u8, 105u8, 110u8, 105u8, 116u8, 121u8],
        ) || is_word(text@, first as int, seq![110u8, 97u8, 110u8])),
{
    let inf: [u8; 3] = [105, 110, 102];
    let infinity: [u8; 8] = [105, 110, 102, 105, 110, 105, 116, 121];
    let nan: [u8; 3] = [110, 97, 110];
    proof {
        assert(inf@ =~= seq![105u8, 110u8, 102u8]);
        assert(infinity@ =~= seq![105u8, 110u8, 102u8, 105u8, 110u8, 105u8, 116u8, 121u8]);
        assert(nan@ =~= seq![110u8, 97u8, 110u8]);
    }
    word_at(text, first, &inf) || word_at(text, first, &infinity) || word_at(text, first, &nan)
}

/// Reads the digits of the number that begins at `first`. Returns them
/// with the count of those before the decimal point and the index behind
/// the last.
pub fn read_mantissa(text: &[u8], first: usize) -> (parts: (Vec<u8>, usize, usize))
    requires
        first <= text@.len(),
    ensures
        parts.0@ == mantissa(text@, first as int),
        all_digits(parts.0@),
        parts.1 == digit_run(text@, first as int) - first,
        parts.2 == digit_run(text@, fraction_start(text@, digit_run(text@, first as int))),
        parts.2 <= text@.len(),
{
    let n = text.len();
    let point = scan_digits(text, first);
    let fraction: usize = if point < n && text[point] == 46 { point + 1 } else { point };
    let end = scan_digits(text, fraction);
    let mut digits: Vec<u8> = Vec::new();
    copy_range(text, first, point, &mut digits);
    copy_range(text, fraction, end, &mut digits);
    proof {
        let before = text@.subrange(first as int, point as int);
        let behind = text@.subrange(fraction as int, end as int);
        assert(digits@ =~= before + behind);
        assert forall|i: int| 0 <= i < digits@.len() implies is_digit(#[trigger] digits@[i]) by {
            if i < before.len() {
                assert(digits@[i] == before[i]);
            } else {
                assert(digits@[i] == behind[i - before.len()]);
            }
        }
    }
    (digits, point - first, end)
}

/// Reads a finite decimal number of hours from `from` to the end of the
/// text, as an offset in seconds.
pub fn parse_finite_hours(text: &[u8], from: usize) -> (offset: OffsetText)
    requires
        from <= text@.len(),
    ensures
        offset == finite_hours_offset(text@, from as int),
{
    let n = text.len();
    let signed = from < n && (text[from] == 43 || text[from] == 45);
    let negative = from < n && text[from] == 45;
    let first: usize = if signed { from + 1 } else { from };
    let (digits, before, end) = read_mantissa(text, first);
    if digits.len() == 0 {
        return OffsetText::Malformed;
    }
    let exponent = match parse_exponent(text, end) {
        None => { return OffsetText::Malformed; },
        Some(exponent) => exponent,
    };
    let shift: i128 = before as i128 + exponent;
    proof {
        let exact = before + exponent_value(text@, end as int).unwrap();
        assert(digits@.len() <= usize::MAX);
        lemma_far_points(digits@, shift as int, exact);
    }
    match seconds_within_bound(&digits, shift) {
        None => OffsetText::TooLarge,
        Some(seconds) => if negative {
            OffsetText::Seconds(0 - (seconds as i32))
        } else {
            OffsetText::Seconds(seconds as i32)
        },
    }
}

/// Reads a decimal number of hours from `from` to the end of the text, as an
/// offset in seconds.
pub fn parse_hours(text: &[u8], from: usize) -> (offset: OffsetText)
    requires
        from <= text@.len(),
    ensures
        offset == hours_text_offset(text@, from as int),
{
    let n = text.len();
    let signed = from < n && (text[from] == 43 || text[from] == 45);
    let first: usize = if signed { from + 1 } else { from };
    if unbounded_at(text, first) {
        OffsetText::TooLarge
    } else {
        parse_finite_hours(text, from)
    }
}

} // verus!
