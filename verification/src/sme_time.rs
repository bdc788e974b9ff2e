//! Validation of timezone specifiers, conversion of a UTC instant to a
//! short local label, and the full date text of an instant.

use vstd::prelude::*;
use vstd::string::*;
use vstd::utf8::{
    decode_utf8, encode_utf8, encode_utf8_decode_utf8, encode_utf8_valid_utf8, is_ascii_chars,
    is_ascii_chars_encode_utf8, is_ascii_chars_nat_bound, is_char_boundary,
    is_char_boundary_iff_not_is_continuation_byte, is_char_boundary_start_end_of_seq,
};
use crate::clock::{datetime_pattern, format_utc, parse_datetime, text_seconds, utc_text};
use crate::label::{
    integer_text, label_text, lemma_short_time_shape, local_label, push_integer, short_time,
};
use crate::number::OffsetText;
use crate::specifier::{
    fixed_offset_seconds, fixed_offset_within, is_valid_specifier, lemma_whole_hours_text, parse_fixed_offset,
    parse_specifier, specifier_of, whole_hours_text, TimezoneSpecifier,
};
use crate::zone::{chosen_offset, resolve_offset, zone_known, zone_local_time, zone_lookup};

verus! {

/// The outcome of a conversion. Where `valid` holds, `time_str` is the label
/// of the local time and `sorting_factor` the offset from UTC in seconds
/// that was used. Where it does not, the label is empty and the factor 0.
#[derive(Debug, PartialEq)]
pub struct SmeAsTzResult {
    pub time_str: String,
    pub sorting_factor: i32,
    pub valid: bool,
}

/// The offset that a specifier has at an instant: of a known zone, what
/// the database answers, the earlier of two candidates and nothing in a gap;
/// of a fixed offset, its seconds where they are within twelve hours.
pub open spec fn resolved_offset(time_ob: u32, tz_str: &str) -> Option<i32> {
    match specifier_of(tz_str) {
        TimezoneSpecifier::Named => chosen_offset(zone_local_time(tz_str@, time_ob as int)),
        TimezoneSpecifier::FixedOffset(seconds, _) => Some(seconds),
        TimezoneSpecifier::OutOfRange => None,
        TimezoneSpecifier::Invalid => None,
    }
}

/// The text of a conversion: the label, a comma, and the offset in decimal.
pub open spec fn result_text(label: Seq<char>, sorting_factor: int) -> Seq<char> {
    label + seq![','] + integer_text(sorting_factor)
}

/// The text that a conversion yields; `None` where the specifier has no
/// offset at the instant.
pub open spec fn converted_text(time_ob: u32, tz_str: &str) -> Option<Seq<char>> {
    match resolved_offset(time_ob, tz_str) {
        Some(offset) => Some(result_text(label_text(time_ob + offset), offset as int)),
        None => None,
    }
}

/// Whether a value is the outcome that `convert_to_timezone` owes.
pub open spec fn is_conversion_of(result: SmeAsTzResult, time_ob: u32, tz_str: &str) -> bool {
    match resolved_offset(time_ob, tz_str) {
        Some(offset) => result.valid && result.sorting_factor == offset && result.time_str@
            == label_text(time_ob + offset),
        None => !result.valid && result.sorting_factor == 0 && result.time_str@ == Seq::<
            char,
        >::empty(),
    }
}

/// The outcome for an offset that was found, or for none.
pub fn conversion_at(time_ob: u32, offset: Option<i32>) -> (result: SmeAsTzResult)
    ensures
        result.valid == offset.is_some(),
        offset matches Some(seconds) ==> result.sorting_factor == seconds && result.time_str@
            == label_text(time_ob + seconds),
        offset.is_none() ==> result.sorting_factor == 0 && result.time_str@ == Seq::<
            char,
        >::empty(),
{
    match offset {
        Some(seconds) => SmeAsTzResult {
            time_str: local_label(time_ob, seconds),
            sorting_factor: seconds,
            valid: true,
        },
        None => SmeAsTzResult { time_str: String::new(), sorting_factor: 0, valid: false },
    }
}

/// Whether the text is a timezone specifier in form. A fixed offset counts
/// whatever its size.
pub fn sme_time_is_valid_timezone_impl(tz_str: &str) -> (valid: bool)
    ensures
        valid == is_valid_specifier(tz_str),
{
    match parse_specifier(tz_str) {
        TimezoneSpecifier::Invalid => false,
        _ => true,
    }
}

/// The offset that a specifier has at an instant, if it has one. Whatever
/// the zone database answers, the offset is less than a day either way.
pub fn timezone_offset(time_ob: u32, tz_str: &str) -> (offset: Option<i32>)
    ensures
        offset == resolved_offset(time_ob, tz_str),
        offset.is_some() ==> -86400 < offset.unwrap() < 86400,
{
    match zone_lookup(tz_str, time_ob) {
        Some(answer) => resolve_offset(answer),
        None => match parse_fixed_offset(tz_str.as_bytes()) {
            OffsetText::Seconds(seconds) => Some(seconds),
            _ => None,
        },
    }
}

/// Converts a UTC instant to the local time of a specifier.
pub fn convert_to_timezone(time_ob: u32, tz_str: &str) -> (result: SmeAsTzResult)
    ensures
        is_conversion_of(result, time_ob, tz_str),
        -86400 < result.sorting_factor < 86400,
{
    conversion_at(time_ob, timezone_offset(time_ob, tz_str))
}

/// What `format_tz_result` makes of a short time and an offset: the short
/// time without its third byte, a comma, and the offset in decimal.
pub open spec fn formatted_result(time_str: Seq<char>, sorting_factor: int) -> Seq<char> {
    let bytes = encode_utf8(time_str);
    decode_utf8(bytes.subrange(0, 2)) + decode_utf8(bytes.subrange(3, bytes.len() as int))
        + seq![','] + integer_text(sorting_factor)
}

/// In a text of ASCII characters every index is the boundary of a
/// character, and there are as many bytes as characters.
pub proof fn lemma_ascii_boundary(chars: Seq<char>, index: int)
    requires
        is_ascii_chars(chars),
        0 <= index <= chars.len(),
    ensures
        encode_utf8(chars).len() == chars.len(),
        is_char_boundary(encode_utf8(chars), index),
{
    let bytes = encode_utf8(chars);
    is_ascii_chars_encode_utf8(chars);
    encode_utf8_valid_utf8(chars);
    if index < chars.len() {
        is_ascii_chars_nat_bound(chars);
        assert((chars[index] as nat) < 128);
        assert(bytes[index] == chars[index] as u8);
        is_char_boundary_iff_not_is_continuation_byte(bytes, index);
    } else {
        is_char_boundary_start_end_of_seq(bytes);
    }
}

/// In a text of ASCII characters a range of the bytes is the same range
/// of the characters.
pub proof fn lemma_ascii_part(chars: Seq<char>, from: int, to: int)
    requires
        is_ascii_chars(chars),
        0 <= from <= to <= chars.len(),
    ensures
        encode_utf8(chars).len() == chars.len(),
        decode_utf8(encode_utf8(chars).subrange(from, to)) == chars.subrange(from, to),
{
    let part = chars.subrange(from, to);
    assert(is_ascii_chars(part)) by {
        assert forall|i: int| 0 <= i < part.len() implies '\0' <= #[trigger] part[i]
            <= '\u{7f}' by {
            assert(part[i] == chars[from + i]);
        }
    }
    is_ascii_chars_encode_utf8(chars);
    is_ascii_chars_encode_utf8(part);
    assert(encode_utf8(part) =~= encode_utf8(chars).subrange(from, to)) by {
        assert forall|i: int| 0 <= i < part.len() implies encode_utf8(part)[i] == encode_utf8(
            chars,
        ).subrange(from, to)[i] by {
            assert(part[i] == chars[from + i]);
            assert(encode_utf8(part)[i] == part[i] as u8);
            assert(encode_utf8(chars)[from + i] == chars[from + i] as u8);
        }
    }
    encode_utf8_decode_utf8(part);
}

/// Joins a short time and an offset into one text: the short time without
/// its third byte, which leaves two letters of the weekday, then a comma and
/// the offset in decimal. The short time has at least three bytes, and its
/// third byte is a character by itself.
pub fn format_tz_result(time_str: &String, sorting_factor: i32) -> (text: String)
    requires
        encode_utf8(time_str@).len() >= 3,
        is_char_boundary(encode_utf8(time_str@), 2),
        is_char_boundary(encode_utf8(time_str@), 3),
    ensures
        text@ == formatted_result(time_str@, sorting_factor as int),
        is_ascii_chars(time_str@) ==> text@ == time_str@.subrange(0, 2) + time_str@.subrange(
            3,
            time_str@.len() as int,
        ) + seq![','] + integer_text(sorting_factor as int),
{
    let whole = time_str.as_str();
    let (head, _) = whole.split_at(2);
    let (_, tail) = whole.split_at(3);
    proof {
        reveal_strlit(",");
        let bytes = encode_utf8(time_str@);
        encode_utf8_decode_utf8(head@);
        encode_utf8_decode_utf8(tail@);
        assert(encode_utf8(head@) == bytes.subrange(0, 2));
        assert(encode_utf8(tail@) == bytes.subrange(3, bytes.len() as int));
        if is_ascii_chars(time_str@) {
            is_ascii_chars_encode_utf8(time_str@);
            lemma_ascii_part(time_str@, 0, 2);
            lemma_ascii_part(time_str@, 3, time_str@.len() as int);
        }
    }
    let mut text = String::from_str(head);
    text.append(tail);
    text.append(",");
    push_integer(&mut text, sorting_factor);
    assert(text@ =~= formatted_result(time_str@, sorting_factor as int));
    text
}

/// Converts a UTC instant to the text of its local time under a specifier;
/// `None` where the specifier has no offset at the instant. The offset in
/// the text is less than a day either way.
pub fn sme_time_convert_to_timezone_impl(time_ob: u32, tz_str: &str) -> (text: Option<String>)
    ensures
        text.is_some() == converted_text(time_ob, tz_str).is_some(),
        text.is_some() ==> Some(text.unwrap()@) == converted_text(time_ob, tz_str),
        text.is_some() ==> -86400 < resolved_offset(time_ob, tz_str).unwrap() < 86400,
{
    match timezone_offset(time_ob, tz_str) {
        Some(offset) => {
            let short = short_time(time_ob, offset);
            proof {
                let local = time_ob + offset;
                lemma_short_time_shape(local);
                lemma_ascii_boundary(short@, 2);
                lemma_ascii_boundary(short@, 3);
            }
            Some(format_tz_result(&short, offset))
        },
        None => None,
    }
}

/// As `sme_time_convert_to_timezone_impl`, with the empty text for `None`.
pub fn sme_time_convert_to_timezone(time_ob: u32, tz_str: &str) -> (text: String)
    ensures
        text@ == match converted_text(time_ob, tz_str) {
            Some(t) => t,
            None => Seq::<char>::empty(),
        },
        converted_text(time_ob, tz_str).is_some() ==> -86400 < resolved_offset(
            time_ob,
            tz_str,
        ).unwrap() < 86400,
{
    match sme_time_convert_to_timezone_impl(time_ob, tz_str) {
        Some(text) => text,
        None => String::new(),
    }
}

/// The full date and time of a UTC instant.
pub fn sme_time_as_string_impl(time_ob: u32) -> (text: String)
    ensures
        text@ == utc_text(time_ob as int, datetime_pattern()),
{
    format_utc(time_ob, "%Y-%m-%d %H:%M:%S")
}

/// The instant that the first 19 bytes of a text name, cut to 32 bits; 0
/// where the text is shorter, where it cannot be cut there, or where no date
/// and time is read from those bytes.
pub open spec fn instant_of_text(bytes: Seq<u8>) -> int {
    if bytes.len() >= 19 && is_char_boundary(bytes, 19) {
        match text_seconds(bytes.subrange(0, 19), datetime_pattern()) {
            Some(seconds) => seconds % 0x1_0000_0000,
            None => 0,
        }
    } else {
        0
    }
}

/// Reads a full date and time, as UTC, from the first 19 bytes of a text.
pub fn sme_time_from_string_impl(time_str: &str) -> (time_ob: u32)
    ensures
        time_ob as int == instant_of_text(time_str.spec_bytes()),
{
    if time_str.as_bytes().len() < 19 || !time_str.is_char_boundary(19) {
        return 0;
    }
    let (head, _) = time_str.split_at(19);
    match parse_datetime(head, "%Y-%m-%d %H:%M:%S") {
        Some(seconds) => {
            let low: i64 = seconds % 0x1_0000_0000;
            if low < 0 {
                (low + 0x1_0000_0000) as u32
            } else {
                low as u32
            }
        },
        None => 0,
    }
}

/// Two outcomes of one conversion are the same: the result depends on the
/// instant and the specifier alone.
pub proof fn law_conversion_repeats(
    first: SmeAsTzResult,
    second: SmeAsTzResult,
    time_ob: u32,
    tz_str: &str,
)
    requires
        is_conversion_of(first, time_ob, tz_str),
        is_conversion_of(second, time_ob, tz_str),
    ensures
        first.valid == second.valid,
        first.sorting_factor == second.sorting_factor,
        first.time_str@ == second.time_str@,
{
}

/// Two specifiers that have the same offset at an instant give the same
/// text there, whether they are zone names or fixed offsets.
pub proof fn law_same_offset_same_text(time_ob: u32, left: &str, right: &str)
    requires
        resolved_offset(time_ob, left) == resolved_offset(time_ob, right),
    ensures
        converted_text(time_ob, left) == converted_text(time_ob, right),
{
}

/// A finite fixed offset converts exactly where it is within twelve hours
/// either way, bounds included: 43200 seconds convert, 43201 do not. It is
/// a valid specifier in both cases.
pub proof fn law_bound_decides_conversion(time_ob: u32, tz_str: &str, seconds: int)
    requires
        !zone_known(tz_str@),
        fixed_offset_seconds(tz_str.spec_bytes()) == Some(seconds),
    ensures
        is_valid_specifier(tz_str),
        converted_text(time_ob, tz_str).is_some() == fixed_offset_within(tz_str.spec_bytes()),
        converted_text(time_ob, tz_str).is_some() ==> resolved_offset(time_ob, tz_str) == Some(
            seconds as i32,
        ),
        -43200 < seconds < 43200 ==> converted_text(time_ob, tz_str).is_some(),
        !(-43200 <= seconds <= 43200) ==> converted_text(time_ob, tz_str).is_none(),
{
}

/// A zone whose offset at an instant is a whole number of hours, twelve at
/// most either way, gives the same text there as the fixed offset that
/// writes those hours with their sign, such as `utc-5`. This holds of a
/// fixed offset that is not itself the name of a zone.
pub proof fn law_whole_hours_match_zone(time_ob: u32, zone: &str, fixed: &str, hours: int)
    requires
        -12 <= hours <= 12,
        zone_known(zone@),
        chosen_offset(zone_local_time(zone@, time_ob as int)) == Some((3600 * hours) as i32),
        fixed.spec_bytes() == whole_hours_text(hours),
        !zone_known(fixed@),
    ensures
        converted_text(time_ob, fixed) == converted_text(time_ob, zone),
        converted_text(time_ob, fixed) == Some(
            result_text(label_text(time_ob + 3600 * hours), 3600 * hours),
        ),
{
    lemma_whole_hours_text(hours);
}

/// A fixed offset of more than twelve whole hours, such as `utc+25`, is a
/// valid specifier and converts at no instant. This holds of a fixed offset
/// that is not itself the name of a zone.
pub proof fn law_large_hours_do_not_convert(time_ob: u32, tz_str: &str, hours: int)
    requires
        12 < hours <= 99 || -99 <= hours < -12,
        tz_str.spec_bytes() == whole_hours_text(hours),
        !zone_known(tz_str@),
    ensures
        is_valid_specifier(tz_str),
        converted_text(time_ob, tz_str).is_none(),
{
    lemma_whole_hours_text(hours);
}

/// A specifier that converts is valid; a valid one need not convert.
pub proof fn law_converted_is_valid(time_ob: u32, tz_str: &str)
    requires
        converted_text(time_ob, tz_str).is_some(),
    ensures
        is_valid_specifier(tz_str),
{
}

} // verus!
