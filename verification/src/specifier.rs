//! Timezone specifiers: a zone name, or a three-letter prefix and a number.

use vstd::prelude::*;
use vstd::string::*;
use vstd::utf8::{encode_scalar, encode_utf8};
use crate::number::{
    ascii_lower, digit_of, digit_run, digits_value, exponent_value, fraction_left, fraction_part,
    fraction_start, hours_text_offset, hours_text_seconds, hours_text_within, is_digit,
    is_negative, is_unbounded_text, is_word, within_twelve_hours,
    law_seconds_are_cut_hours, lower, mantissa, minutes_text_seconds, offset_text_of, parse_hours,
    parse_minutes, pow10, scaled_seconds, sign_len, OffsetText,
};
use crate::zone::{zone_exists, zone_known};

verus! {

/// The unit in which a fixed offset is written.
#[derive(Clone, Copy, Debug, PartialEq, Eq, Structural)]
pub enum OffsetKind {
    /// Hours, after the prefix `utc` or `gmt`.
    Hours,
    /// Minutes, after the prefix `fof`.
    Minutes,
}

/// A parsed specifier.
#[derive(Clone, Copy, Debug, PartialEq, Eq, Structural)]
pub enum TimezoneSpecifier {
    /// The text is the name of a zone that the database knows.
    Named,
    /// A fixed offset in seconds, between -43200 and 43200, and the unit it
    /// was written in.
    FixedOffset(i32, OffsetKind),
    /// A well-formed fixed offset of more than twelve hours, or one that is
    /// not finite.
    OutOfRange,
    /// Neither a known zone nor a well-formed fixed offset.
    Invalid,
}

/// Whether the text has at least four bytes and begins, in either case, with
/// the three given lower-case letters.
pub open spec fn has_prefix(s: Seq<u8>, first: u8, second: u8, third: u8) -> bool {
    s.len() >= 4 && ascii_lower(s[0]) == first && ascii_lower(s[1]) == second && ascii_lower(s[2])
        == third
}

/// The prefixes `utc` and `gmt`: a number of hours follows.
pub open spec fn has_hours_prefix(s: Seq<u8>) -> bool {
    has_prefix(s, 117, 116, 99) || has_prefix(s, 103, 109, 116)
}

/// The prefix `fof`: a number of minutes follows.
pub open spec fn has_minutes_prefix(s: Seq<u8>) -> bool {
    has_prefix(s, 102, 111, 102)
}

/// The unit that the prefix of a text announces; `None` where the text has
/// none of the three prefixes.
pub open spec fn prefix_kind(s: Seq<u8>) -> Option<OffsetKind> {
    if has_hours_prefix(s) {
        Some(OffsetKind::Hours)
    } else if has_minutes_prefix(s) {
        Some(OffsetKind::Minutes)
    } else {
        None
    }
}

/// Whether the text is a fixed offset in hours that is not finite.
pub open spec fn is_unbounded_offset(s: Seq<u8>) -> bool {
    has_hours_prefix(s) && is_unbounded_text(s, 3)
}

/// The exact offset in seconds that a finite fixed-offset text stands for,
/// however large; `None` where the text is no finite fixed offset.
pub open spec fn fixed_offset_seconds(s: Seq<u8>) -> Option<int> {
    if is_unbounded_offset(s) {
        None
    } else if has_hours_prefix(s) {
        hours_text_seconds(s, 3)
    } else if has_minutes_prefix(s) {
        minutes_text_seconds(s, 3)
    } else {
        None
    }
}

/// Whether a finite fixed offset is twelve hours at most, either way. A
/// number of hours is tested exactly, before it is cut to whole seconds.
pub open spec fn fixed_offset_within(s: Seq<u8>) -> bool {
    if has_hours_prefix(s) {
        !is_unbounded_text(s, 3) && hours_text_within(s, 3)
    } else {
        match fixed_offset_seconds(s) {
            Some(seconds) => -43200 <= seconds <= 43200,
            None => false,
        }
    }
}

/// What a fixed-offset text stands for: its seconds within twelve hours,
/// or that it is too large, as any offset that is not finite is.
pub open spec fn fixed_offset_text(s: Seq<u8>) -> OffsetText {
    if has_hours_prefix(s) {
        hours_text_offset(s, 3)
    } else if has_minutes_prefix(s) {
        offset_text_of(minutes_text_seconds(s, 3))
    } else {
        OffsetText::Malformed
    }
}

/// What a specifier text is: a known zone name first, a fixed offset second.
pub open spec fn specifier_of(spec: &str) -> TimezoneSpecifier {
    if zone_known(spec@) {
        TimezoneSpecifier::Named
    } else {
        match fixed_offset_text(spec.spec_bytes()) {
            OffsetText::Malformed => TimezoneSpecifier::Invalid,
            OffsetText::TooLarge => TimezoneSpecifier::OutOfRange,
            OffsetText::Seconds(seconds) => TimezoneSpecifier::FixedOffset(
                seconds,
                prefix_kind(spec.spec_bytes()).unwrap(),
            ),
        }
    }
}

/// Whether a text is a specifier in form: a known zone name, or a
/// well-formed fixed offset of any size.
pub open spec fn is_valid_specifier(spec: &str) -> bool {
    zone_known(spec@) || fixed_offset_text(spec.spec_bytes()) != OffsetText::Malformed
}

/// Reads the prefix of a fixed offset.
pub fn read_prefix(text: &[u8]) -> (kind: Option<OffsetKind>)
    ensures
        kind == prefix_kind(text@),
{
    if text.len() < 4 {
        return None;
    }
    let first = lower(text[0]);
    let second = lower(text[1]);
    let third = lower(text[2]);
    if (first == 117 && second == 116 && third == 99) || (first == 103 && second == 109 && third
        == 116) {
        Some(OffsetKind::Hours)
    } else if first == 102 && second == 111 && third == 102 {
        Some(OffsetKind::Minutes)
    } else {
        None
    }
}

/// Reads a fixed offset: the prefix decides how the number behind it is read.
pub fn parse_fixed_offset(text: &[u8]) -> (offset: OffsetText)
    ensures
        offset == fixed_offset_text(text@),
{
    match read_prefix(text) {
        Some(OffsetKind::Hours) => parse_hours(text, 3),
        Some(OffsetKind::Minutes) => parse_minutes(text, 3),
        None => OffsetText::Malformed,
    }
}

/// Parses a specifier. A text that the zone database knows is a zone name,
/// whatever else it looks like.
pub fn parse_specifier(spec: &str) -> (parsed: TimezoneSpecifier)
    ensures
        parsed == specifier_of(spec),
        (parsed != TimezoneSpecifier::Invalid) == is_valid_specifier(spec),
{
    if zone_exists(spec) {
        TimezoneSpecifier::Named
    } else {
        let text = spec.as_bytes();
        match parse_fixed_offset(text) {
            OffsetText::Malformed => TimezoneSpecifier::Invalid,
            OffsetText::TooLarge => TimezoneSpecifier::OutOfRange,
            OffsetText::Seconds(seconds) => match read_prefix(text) {
                Some(kind) => TimezoneSpecifier::FixedOffset(seconds, kind),
                None => TimezoneSpecifier::Invalid,
            },
        }
    }
}

/// The fixed offset that writes a whole number of hours with its sign:
/// `utc`, then `+` or `-`, then the hours in decimal, as in `utc-5`, `utc+0`
/// and `utc+25`. It is meant for fewer than a hundred hours either way.
pub open spec fn whole_hours_text(hours: int) -> Seq<u8> {
    let sign: u8 = if hours < 0 {
        45
    } else {
        43
    };
    let size = if hours < 0 {
        -hours
    } else {
        hours
    };
    if size < 10 {
        seq![117u8, 116u8, 99u8, sign, (48 + size) as u8]
    } else {
        seq![117u8, 116u8, 99u8, sign, (48 + size / 10) as u8, (48 + size % 10) as u8]
    }
}

/// The fixed offset that writes a whole number of hours stands for 3600
/// seconds for each of them.
pub proof fn lemma_whole_hours_text(hours: int)
    requires
        -99 <= hours <= 99,
    ensures
        fixed_offset_seconds(whole_hours_text(hours)) == Some(3600 * hours),
        fixed_offset_within(whole_hours_text(hours)) == (-12 <= hours <= 12),
{
    let s = whole_hours_text(hours);
    let size = if hours < 0 {
        -hours
    } else {
        hours
    };
    let n = s.len() as int;
    assert(has_prefix(s, 117, 116, 99));
    assert(sign_len(s, 3) == 1);
    assert(is_negative(s, 3) == (hours < 0));
    assert(!is_word(s, 4, seq![105u8, 110u8, 102u8]));
    assert(!is_word(s, 4, seq![105u8, 110u8, 102u8, 105u8, 110u8, 105u8, 116u8, 121u8]));
    assert(!is_word(s, 4, seq![110u8, 97u8, 110u8]));
    reveal_with_fuel(digit_run, 4);
    assert(is_digit(s[4]));
    if size >= 10 {
        assert(is_digit(s[5]));
    }
    assert(digit_run(s, 4) == n);
    assert(digit_run(s, n) == n);
    assert(fraction_start(s, n) == n);
    let digits = mantissa(s, 4);
    assert(digits =~= s.subrange(4, n));
    assert(digits_value(digits) == size) by {
        reveal_with_fuel(digits_value, 4);
        if size < 10 {
            assert(digits.drop_last() =~= Seq::<u8>::empty());
            assert(digit_of(digits.last()) == size);
        } else {
            assert(digits.drop_last().drop_last() =~= Seq::<u8>::empty());
            assert(digits.drop_last().last() == s[4]);
            assert(digit_of(s[4]) == size / 10);
            assert(digit_of(digits.last()) == size % 10);
        }
    }
    assert(exponent_value(s, n) == Some(0int));
    law_seconds_are_cut_hours(digits, digits.len() as int);
    assert(pow10(0) == 1);
    assert(scaled_seconds(digits, digits.len() as int) == 3600 * size) by (nonlinear_arith)
        requires
            scaled_seconds(digits, digits.len() as int) == 3600 * (digits_value(digits) * pow10(
                0,
            )),
            digits_value(digits) == size,
            pow10(0) == 1,
    ;
    assert(hours_text_seconds(s, 3) == Some(3600 * hours));
    assert(fraction_part(digits, digits.len() as int) =~= Seq::<u8>::empty());
    assert(digits_value(Seq::<u8>::empty()) == 0);
    assert(fraction_left(Seq::<u8>::empty()) == 0);
    assert(within_twelve_hours(digits, digits.len() as int) == (size <= 12));
}

/// Every zone name that the database knows is a valid specifier.
pub proof fn law_known_zone_is_valid(spec: &str)
    requires
        zone_known(spec@),
    ensures
        is_valid_specifier(spec),
        specifier_of(spec) == TimezoneSpecifier::Named,
{
}

/// A text of fewer than four bytes is a valid specifier only as the name of
/// a known zone.
pub proof fn law_few_bytes_are_invalid(spec: &str)
    requires
        spec.spec_bytes().len() < 4,
        !zone_known(spec@),
    ensures
        !is_valid_specifier(spec),
        specifier_of(spec) == TimezoneSpecifier::Invalid,
{
}

/// The first byte of a character that takes more than one byte is no ASCII
/// byte.
proof fn lemma_wide_leading_byte(scalar: u32)
    ensures
        (0xC0u8 | ((scalar >> 6) & 0x1F) as u8) >= 128,
        (0xE0u8 | ((scalar >> 12) & 0x0F) as u8) >= 128,
        (0xF0u8 | ((scalar >> 18) & 0x7) as u8) >= 128,
{
    assert((0xC0u8 | ((scalar >> 6) & 0x1F) as u8) >= 128) by (bit_vector);
    assert((0xE0u8 | ((scalar >> 12) & 0x0F) as u8) >= 128) by (bit_vector);
    assert((0xF0u8 | ((scalar >> 18) & 0x7) as u8) >= 128) by (bit_vector);
}

/// Where a text in UTF-8 begins with an ASCII byte, that byte is its first
/// character, and the rest of the bytes are the rest of the characters.
proof fn lemma_ascii_head(chars: Seq<char>)
    requires
        encode_utf8(chars).len() > 0,
        encode_utf8(chars)[0] < 128,
    ensures
        chars.len() > 0,
        encode_utf8(chars).drop_first() == encode_utf8(chars.drop_first()),
{
    let scalar = chars[0] as u32;
    lemma_wide_leading_byte(scalar);
    assert(encode_utf8(chars) == encode_scalar(scalar) + encode_utf8(chars.drop_first()));
    assert(encode_scalar(scalar).len() == 1);
    assert(encode_utf8(chars).drop_first() =~= encode_utf8(chars.drop_first()));
}

/// A text of fewer than four characters is a valid specifier only as the
/// name of a known zone.
pub proof fn law_short_text_is_invalid(spec: &str)
    requires
        spec@.len() < 4,
        !zone_known(spec@),
    ensures
        !is_valid_specifier(spec),
        specifier_of(spec) == TimezoneSpecifier::Invalid,
{
    let bytes = spec.spec_bytes();
    if has_hours_prefix(bytes) || has_minutes_prefix(bytes) {
        let first = spec@;
        lemma_ascii_head(first);
        let second = first.drop_first();
        assert(encode_utf8(second)[0] == bytes[1]);
        lemma_ascii_head(second);
        let third = second.drop_first();
        assert(encode_utf8(third)[0] == bytes[2]);
        lemma_ascii_head(third);
        let fourth = third.drop_first();
        assert(encode_utf8(fourth).len() == bytes.len() - 3);
        assert(fourth.len() > 0);
        assert(false);
    }
}

/// A finite fixed offset is accepted up to twelve hours either way, bounds
/// included, and no further: 43200 seconds are in range, 43201 are not. A
/// number of hours with 43200 whole seconds is in range only where it is
/// twelve hours exactly.
pub proof fn law_offset_bound(spec: &str, seconds: int)
    requires
        !zone_known(spec@),
        fixed_offset_seconds(spec.spec_bytes()) == Some(seconds),
    ensures
        is_valid_specifier(spec),
        fixed_offset_within(spec.spec_bytes()) ==> specifier_of(spec)
            == TimezoneSpecifier::FixedOffset(
            seconds as i32,
            prefix_kind(spec.spec_bytes()).unwrap(),
        ),
        !fixed_offset_within(spec.spec_bytes()) ==> specifier_of(spec)
            == TimezoneSpecifier::OutOfRange,
        -43200 < seconds < 43200 ==> fixed_offset_within(spec.spec_bytes()),
        !(-43200 <= seconds <= 43200) ==> !fixed_offset_within(spec.spec_bytes()),
        has_minutes_prefix(spec.spec_bytes()) && (seconds == 43200 || seconds == -43200)
            ==> fixed_offset_within(spec.spec_bytes()),
{
}

} // verus!
