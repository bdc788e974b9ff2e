//! The short label of a local time: two letters for the weekday, a space,
//! and the time of day as `HH:MM`; and the decimal text of an offset.

use vstd::prelude::*;
use vstd::string::*;
use vstd::utf8::is_ascii_chars;
use vstd::arithmetic::div_mod::lemma_hoist_over_denominator;
use vstd::arithmetic::div_mod::lemma_mod_multiples_vanish;

verus! {

pub open spec fn digit_char(d: int) -> char {
    if d == 0 {
        '0'
    } else if d == 1 {
        '1'
    } else if d == 2 {
        '2'
    } else if d == 3 {
        '3'
    } else if d == 4 {
        '4'
    } else if d == 5 {
        '5'
    } else if d == 6 {
        '6'
    } else if d == 7 {
        '7'
    } else if d == 8 {
        '8'
    } else {
        '9'
    }
}

/// The day of the week of a local time in seconds since the epoch, which
/// began on a Thursday: 0 for Monday up to 6 for Sunday.
pub open spec fn weekday_index(local: int) -> int {
    (local / 86400 + 3) % 7
}

pub open spec fn hour_of(local: int) -> int {
    (local % 86400) / 3600
}

pub open spec fn minute_of(local: int) -> int {
    (local % 3600) / 60
}

/// The first two letters of the weekday's English name.
pub open spec fn weekday_text(day: int) -> Seq<char> {
    if day == 0 {
        seq!['M', 'o']
    } else if day == 1 {
        seq!['T', 'u']
    } else if day == 2 {
        seq!['W', 'e']
    } else if day == 3 {
        seq!['T', 'h']
    } else if day == 4 {
        seq!['F', 'r']
    } else if day == 5 {
        seq!['S', 'a']
    } else {
        seq!['S', 'u']
    }
}

/// The first three letters of the weekday's English name.
pub open spec fn weekday_name(day: int) -> Seq<char> {
    if day == 0 {
        seq!['M', 'o', 'n']
    } else if day == 1 {
        seq!['T', 'u', 'e']
    } else if day == 2 {
        seq!['W', 'e', 'd']
    } else if day == 3 {
        seq!['T', 'h', 'u']
    } else if day == 4 {
        seq!['F', 'r', 'i']
    } else if day == 5 {
        seq!['S', 'a', 't']
    } else {
        seq!['S', 'u', 'n']
    }
}

pub open spec fn two_digits(v: int) -> Seq<char> {
    seq![digit_char(v / 10), digit_char(v % 10)]
}

/// The label of a local time given in seconds since the epoch.
pub open spec fn label_text(local: int) -> Seq<char> {
    weekday_text(weekday_index(local)) + seq![' '] + two_digits(hour_of(local)) + seq![':']
        + two_digits(minute_of(local))
}

/// The short time of a local time given in seconds since the epoch: the
/// weekday's three letters, a space, and the time of day as `HH:MM`.
pub open spec fn short_time_text(local: int) -> Seq<char> {
    weekday_name(weekday_index(local)) + seq![' '] + two_digits(hour_of(local)) + seq![':']
        + two_digits(minute_of(local))
}

/// A natural number in decimal, without leading zeros.
pub open spec fn natural_text(n: nat) -> Seq<char>
    decreases n,
{
    if n < 10 {
        seq![digit_char(n as int)]
    } else {
        natural_text(n / 10) + seq![digit_char((n % 10) as int)]
    }
}

/// An integer in decimal, with a minus sign where it is negative.
pub open spec fn integer_text(v: int) -> Seq<char> {
    if v < 0 {
        seq!['-'] + natural_text((-v) as nat)
    } else {
        natural_text(v as nat)
    }
}

fn digit_str(d: u64) -> (s: &'static str)
    requires
        d < 10,
    ensures
        s@ == seq![digit_char(d as int)],
{
    proof {
        reveal_strlit("0");
        reveal_strlit("1");
        reveal_strlit("2");
        reveal_strlit("3");
        reveal_strlit("4");
        reveal_strlit("5");
        reveal_strlit("6");
        reveal_strlit("7");
        reveal_strlit("8");
        reveal_strlit("9");
    }
    let s = if d == 0 {
        "0"
    } else if d == 1 {
        "1"
    } else if d == 2 {
        "2"
    } else if d == 3 {
        "3"
    } else if d == 4 {
        "4"
    } else if d == 5 {
        "5"
    } else if d == 6 {
        "6"
    } else if d == 7 {
        "7"
    } else if d == 8 {
        "8"
    } else {
        "9"
    };
    assert(s@ =~= seq![digit_char(d as int)]);
    s
}

fn weekday_str(day: u64) -> (s: &'static str)
    requires
        day < 7,
    ensures
        s@ == weekday_text(day as int),
{
    proof {
        reveal_strlit("Mo");
        reveal_strlit("Tu");
        reveal_strlit("We");
        reveal_strlit("Th");
        reveal_strlit("Fr");
        reveal_strlit("Sa");
        reveal_strlit("Su");
    }
    let s = if day == 0 {
        "Mo"
    } else if day == 1 {
        "Tu"
    } else if day == 2 {
        "We"
    } else if day == 3 {
        "Th"
    } else if day == 4 {
        "Fr"
    } else if day == 5 {
        "Sa"
    } else {
        "Su"
    };
    assert(s@ =~= weekday_text(day as int));
    s
}

fn weekday_name_str(day: u64) -> (s: &'static str)
    requires
        day < 7,
    ensures
        s@ == weekday_name(day as int),
{
    proof {
        reveal_strlit("Mon");
        reveal_strlit("Tue");
        reveal_strlit("Wed");
        reveal_strlit("Thu");
        reveal_strlit("Fri");
        reveal_strlit("Sat");
        reveal_strlit("Sun");
    }
    let s = if day == 0 {
        "Mon"
    } else if day == 1 {
        "Tue"
    } else if day == 2 {
        "Wed"
    } else if day == 3 {
        "Thu"
    } else if day == 4 {
        "Fri"
    } else if day == 5 {
        "Sat"
    } else {
        "Sun"
    };
    assert(s@ =~= weekday_name(day as int));
    s
}

fn push_two_digits(out: &mut String, v: u64)
    requires
        v < 100,
    ensures
        final(out)@ == old(out)@ + two_digits(v as int),
{
    out.append(digit_str(v / 10));
    out.append(digit_str(v % 10));
    assert(final(out)@ =~= old(out)@ + two_digits(v as int));
}

/// Appends a natural number in decimal.
pub fn push_natural(out: &mut String, n: u64)
    ensures
        final(out)@ == old(out)@ + natural_text(n as nat),
    decreases n,
{
    if n >= 10 {
        push_natural(out, n / 10);
    }
    out.append(digit_str(n % 10));
    assert(final(out)@ =~= old(out)@ + natural_text(n as nat));
}

/// Appends an integer in decimal.
pub fn push_integer(out: &mut String, v: i32)
    ensures
        final(out)@ == old(out)@ + integer_text(v as int),
{
    if v < 0 {
        proof {
            reveal_strlit("-");
        }
        out.append("-");
        let magnitude: i64 = 0 - (v as i64);
        push_natural(out, magnitude as u64);
        assert(final(out)@ =~= old(out)@ + integer_text(v as int));
    } else {
        push_natural(out, v as u64);
    }
}

/// Four thousand weeks more change neither the weekday nor the time of day.
proof fn lemma_weeks_shift(local: int)
    ensures
        weekday_index(local + 2_419_200_000) == weekday_index(local),
        hour_of(local + 2_419_200_000) == hour_of(local),
        minute_of(local + 2_419_200_000) == minute_of(local),
{
    lemma_hoist_over_denominator(local, 28000, 86400);
    assert((local + 2_419_200_000) / 86400 == local / 86400 + 28000);
    lemma_mod_multiples_vanish(4000, local / 86400 + 3, 7);
    lemma_mod_multiples_vanish(28000, local, 86400);
    lemma_mod_multiples_vanish(672000, local, 3600);
}

/// The weekday, hour and minute of the local time that lies `offset`
/// seconds east of the UTC instant `instant`. The sum is taken exactly.
fn clock_parts(instant: u32, offset: i32) -> (parts: (u64, u64, u64))
    ensures
        parts.0 == weekday_index(instant + offset),
        parts.1 == hour_of(instant + offset),
        parts.2 == minute_of(instant + offset),
        parts.0 < 7,
        parts.1 < 24,
        parts.2 < 60,
{
    // A whole number of weeks is added so that the local time is not
    // negative: neither the weekday nor the time of day changes by it.
    let shifted: u64 = (instant as i64 + offset as i64 + 2_419_200_000) as u64;
    let day: u64 = (shifted / 86400 + 3) % 7;
    let hour: u64 = (shifted % 86400) / 3600;
    let minute: u64 = (shifted % 3600) / 60;
    proof {
        let local: int = instant + offset;
        lemma_weeks_shift(local);
        assert(shifted == local + 2_419_200_000);
        assert(day == weekday_index(shifted as int));
        assert(hour == hour_of(shifted as int));
        assert(minute == minute_of(shifted as int));
    }
    (day, hour, minute)
}

/// The label of the local time that lies `offset` seconds east of the UTC
/// instant `instant`. The sum is taken exactly.
pub fn local_label(instant: u32, offset: i32) -> (label: String)
    ensures
        label@ == label_text(instant + offset),
{
    let (day, hour, minute) = clock_parts(instant, offset);
    proof {
        reveal_strlit(" ");
        reveal_strlit(":");
    }
    let mut label = String::from_str(weekday_str(day));
    label.append(" ");
    push_two_digits(&mut label, hour);
    label.append(":");
    push_two_digits(&mut label, minute);
    assert(label@ =~= label_text(instant + offset));
    label
}

/// The short time of the local time that lies `offset` seconds east of the
/// UTC instant `instant`: the weekday's three letters, a space, and the time
/// of day.
pub fn short_time(instant: u32, offset: i32) -> (text: String)
    ensures
        text@ == short_time_text(instant + offset),
{
    let (day, hour, minute) = clock_parts(instant, offset);
    proof {
        reveal_strlit(" ");
        reveal_strlit(":");
    }
    let mut text = String::from_str(weekday_name_str(day));
    text.append(" ");
    push_two_digits(&mut text, hour);
    text.append(":");
    push_two_digits(&mut text, minute);
    assert(text@ =~= short_time_text(instant + offset));
    text
}

/// A short time has nine ASCII characters, and without the third of them
/// it is the label.
pub proof fn lemma_short_time_shape(local: int)
    ensures
        short_time_text(local).len() == 9,
        is_ascii_chars(short_time_text(local)),
        short_time_text(local).subrange(0, 2) + short_time_text(local).subrange(3, 9)
            == label_text(local),
{
    let day = weekday_index(local);
    let hour = hour_of(local);
    let minute = minute_of(local);
    let text = short_time_text(local);
    assert(0 <= day < 7);
    assert(0 <= hour < 24);
    assert(0 <= minute < 60);
    assert(weekday_name(day).len() == 3);
    assert(weekday_name(day).subrange(0, 2) =~= weekday_text(day));
    assert(text.len() == 9);
    assert(text.subrange(0, 2) + text.subrange(3, 9) =~= label_text(local));
    assert forall|i: int| 0 <= i < text.len() implies '\0' <= #[trigger] text[i] <= '\u{7f}' by {
        if i < 3 {
            assert(text[i] == weekday_name(day)[i]);
        } else if i == 3 {
            assert(text[i] == ' ');
        } else if i == 4 {
            assert(text[i] == digit_char(hour / 10));
        } else if i == 5 {
            assert(text[i] == digit_char(hour % 10));
        } else if i == 6 {
            assert(text[i] == ':');
        } else if i == 7 {
            assert(text[i] == digit_char(minute / 10));
        } else {
            assert(text[i] == digit_char(minute % 10));
        }
    }
}

} // verus!
