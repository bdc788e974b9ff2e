use statisticalme::label::{local_label, push_integer, push_natural, short_time};
use statisticalme::number::{
    fraction_value, parse_exponent, parse_finite_hours, parse_hours, parse_integer, parse_minutes,
    seconds_within_bound, OffsetText,
};
use statisticalme::sme_time::{
    conversion_at, convert_to_timezone, format_tz_result, sme_time_as_string_impl, timezone_offset,
    sme_time_convert_to_timezone, sme_time_convert_to_timezone_impl, sme_time_from_string_impl,
    sme_time_is_valid_timezone_impl,
};
use statisticalme::specifier::{
    parse_fixed_offset, parse_specifier, read_prefix, OffsetKind, TimezoneSpecifier,
};
use statisticalme::zone::{resolve_offset, LocalOffset};

const INSTANT: u32 = 1608594507;

fn text(instant: u32, spec: &str) -> String {
    sme_time_convert_to_timezone(instant, spec)
}

#[test]
fn known_zones_are_valid() {
    for name in ["Europe/Berlin", "Asia/Kolkata", "UTC", "Etc/GMT+5", "Australia/Lord_Howe"] {
        assert!(sme_time_is_valid_timezone_impl(name), "{}", name);
        assert_eq!(parse_specifier(name), TimezoneSpecifier::Named);
    }
}

#[test]
fn short_texts_are_invalid() {
    for spec in ["", "u", "ut", "utc", "gmt", "fof", "+5", "-12", "x/y"] {
        assert!(!sme_time_is_valid_timezone_impl(spec), "{:?}", spec);
        assert_eq!(parse_specifier(spec), TimezoneSpecifier::Invalid);
        assert_eq!(text(INSTANT, spec), "");
    }
}

#[test]
fn fixed_offsets_are_valid_whatever_their_size() {
    assert!(sme_time_is_valid_timezone_impl("utc-5"));
    assert!(sme_time_is_valid_timezone_impl("utc+25"));
    assert!(sme_time_is_valid_timezone_impl("UTC+25"));
    assert!(sme_time_is_valid_timezone_impl("Gmt-5.5"));
    assert!(sme_time_is_valid_timezone_impl("gmt.5"));
    assert!(sme_time_is_valid_timezone_impl("gmt5."));
    assert!(sme_time_is_valid_timezone_impl("fof-90"));
    assert!(sme_time_is_valid_timezone_impl("FOF+100000"));
    assert!(sme_time_is_valid_timezone_impl("fof2147483647"));
    assert!(sme_time_is_valid_timezone_impl("fof-2147483648"));
}

#[test]
fn out_of_range_offset_is_valid_but_does_not_convert() {
    assert!(sme_time_is_valid_timezone_impl("utc+25"));
    assert_eq!(parse_specifier("utc+25"), TimezoneSpecifier::OutOfRange);
    assert_eq!(sme_time_convert_to_timezone_impl(INSTANT, "utc+25"), None);
    assert_eq!(text(INSTANT, "utc+25"), "");
    assert_eq!(text(0, "utc+25"), "");
    assert_eq!(text(u32::MAX, "utc+25"), "");
}

#[test]
fn malformed_specifiers_are_invalid() {
    for spec in [
        "utc+", "utc-", "utc.", "utc+.", "utc5x", "utc 5", "utc5 ", "utc++5", "utc5.5.5",
        "utc1e", "utc1e+", "utc1e-", "utce5", "utc.e5", "utc1e5.5", "utc1e 5", "utc1ee5", "utc1f5",
        "utcin", "utcinfinit", "utcinfinityy", "utcna", "utcnan0", "utc+-inf", "fofinf", "fofnan",
        "fof1e1", "fof", "fof+", "fof5.5", "fof 5", "fof2147483648",
        "fof-2147483649", "fof99999999999999999999", "abc+5", "ut+5", "xutc5", "est-5",
        "MiddleEarth/Hobbiton", "america/new_york",
    ] {
        assert!(!sme_time_is_valid_timezone_impl(spec), "{:?}", spec);
        assert_eq!(sme_time_convert_to_timezone_impl(INSTANT, spec), None, "{:?}", spec);
    }
}

#[test]
fn texts_with_other_than_ascii_are_invalid() {
    for spec in ["é", "ééé", "útc5", "utc٥", "ut\u{e9}5", "日本語のゾーン", "utc5\u{a0}", "\u{212a}tc5"] {
        assert!(!sme_time_is_valid_timezone_impl(spec), "{:?}", spec);
        assert_eq!(text(INSTANT, spec), "", "{:?}", spec);
    }
}

#[test]
fn unknown_zone_gives_empty_text() {
    assert_eq!(text(INSTANT, "MiddleEarth/Hobbiton"), "");
    let result = convert_to_timezone(INSTANT, "MiddleEarth/Hobbiton");
    assert!(!result.valid);
    assert_eq!(result.time_str, "");
    assert_eq!(result.sorting_factor, 0);
}

#[test]
fn named_zone_and_fixed_offset_agree() {
    assert_eq!(text(INSTANT, "America/New_York"), "Mo 18:48,-18000");
    assert_eq!(text(INSTANT, "utc-5"), "Mo 18:48,-18000");
    assert_eq!(text(INSTANT, "America/New_York"), text(INSTANT, "utc-5"));
    assert_eq!(text(INSTANT, "Asia/Kolkata"), "Tu 05:18,19800");
    assert_eq!(text(INSTANT, "Asia/Kolkata"), text(INSTANT, "utc5.5"));
    assert_eq!(text(INSTANT, "Asia/Kolkata"), text(INSTANT, "fof330"));
    assert_eq!(text(INSTANT, "UTC"), "Mo 23:48,0");
    assert_eq!(text(INSTANT, "UTC"), text(INSTANT, "gmt0"));
}

#[test]
fn named_zone_follows_daylight_saving() {
    // 2020-07-01 12:00:00 UTC
    assert_eq!(text(1593604800, "America/New_York"), "We 08:00,-14400");
    assert_eq!(text(1593604800, "Europe/Berlin"), "We 14:00,7200");
    assert_eq!(text(INSTANT, "Europe/Berlin"), "Tu 00:48,3600");
}

#[test]
fn conversion_repeats() {
    for spec in ["America/New_York", "utc-5", "fof45", "utc+25", "nowhere"] {
        let first = sme_time_convert_to_timezone_impl(INSTANT, spec);
        let second = sme_time_convert_to_timezone_impl(INSTANT, spec);
        assert_eq!(first, second);
    }
}

#[test]
fn offset_bound_is_twelve_hours_inclusive() {
    assert_eq!(text(INSTANT, "utc12"), "Tu 11:48,43200");
    assert_eq!(text(INSTANT, "utc-12"), "Mo 11:48,-43200");
    assert_eq!(text(INSTANT, "fof720"), "Tu 11:48,43200");
    assert_eq!(text(INSTANT, "fof-720"), "Mo 11:48,-43200");
    assert_eq!(text(INSTANT, "fof721"), "");
    assert_eq!(text(INSTANT, "fof-721"), "");
    assert_eq!(text(INSTANT, "utc13"), "");
    assert_eq!(text(INSTANT, "utc-13"), "");
    // the exact number is tested: 12.0002 h are 43200.72 s, beyond the bound
    assert_eq!(parse_hours(b"12.0000", 0), OffsetText::Seconds(43200));
    assert_eq!(parse_hours(b"-12.", 0), OffsetText::Seconds(-43200));
    assert_eq!(parse_hours(b"12.0002", 0), OffsetText::TooLarge);
    assert_eq!(parse_hours(b"-12.0002", 0), OffsetText::TooLarge);
    assert_eq!(parse_hours(b"12.0003", 0), OffsetText::TooLarge);
    assert_eq!(parse_hours(b"-12.0003", 0), OffsetText::TooLarge);
    assert_eq!(parse_hours(b"12.000000000000000000000000000001", 0), OffsetText::TooLarge);
    assert_eq!(parse_hours(b"11.9999", 0), OffsetText::Seconds(43199));
    assert_eq!(parse_hours(b"-11.999999999999999999999999999999", 0), OffsetText::Seconds(-43199));
    assert_eq!(text(INSTANT, "utc12.0000"), "Tu 11:48,43200");
    assert_eq!(text(INSTANT, "utc12.0002"), "");
    assert_eq!(text(INSTANT, "utc12.0003"), "");
    assert!(sme_time_is_valid_timezone_impl("utc12.0002"));
}

#[test]
fn hours_are_cut_to_whole_seconds() {
    assert_eq!(parse_hours(b"5.5", 0), OffsetText::Seconds(19800));
    assert_eq!(parse_hours(b"-5.5", 0), OffsetText::Seconds(-19800));
    assert_eq!(parse_hours(b"+5.75", 0), OffsetText::Seconds(20700));
    assert_eq!(parse_hours(b".5", 0), OffsetText::Seconds(1800));
    assert_eq!(parse_hours(b"5.", 0), OffsetText::Seconds(18000));
    assert_eq!(parse_hours(b"0.0001", 0), OffsetText::Seconds(0));
    assert_eq!(parse_hours(b"-0.0001", 0), OffsetText::Seconds(0));
    assert_eq!(parse_hours(b"0.0003", 0), OffsetText::Seconds(1));
    assert_eq!(parse_hours(b"0.4999999999999999999999999999999999", 0), OffsetText::Seconds(1799));
    assert_eq!(parse_hours(b"0.5000000000000000000000000000000000", 0), OffsetText::Seconds(1800));
    assert_eq!(parse_hours(b"0.999999999999999999999999999999", 0), OffsetText::Seconds(3599));
    assert_eq!(parse_hours(b"000000000000000000000000000001.25", 0), OffsetText::Seconds(4500));
    assert_eq!(parse_hours(b"utc3.25", 3), OffsetText::Seconds(11700));
    assert_eq!(parse_hours(b"99999999999999999999999999999999", 0), OffsetText::TooLarge);
    assert_eq!(parse_hours(b"", 0), OffsetText::Malformed);
    assert_eq!(parse_hours(b"-", 0), OffsetText::Malformed);
    assert_eq!(parse_hours(b".", 0), OffsetText::Malformed);
    assert_eq!(parse_hours(b"1.2.3", 0), OffsetText::Malformed);
    assert_eq!(parse_hours(b"1,5", 0), OffsetText::Malformed);
    assert_eq!(parse_hours(b"abc", 3), OffsetText::Malformed);
}

#[test]
fn hours_may_have_an_exponent() {
    assert_eq!(parse_hours(b"1e1", 0), OffsetText::Seconds(36000));
    assert_eq!(parse_hours(b"-1E1", 0), OffsetText::Seconds(-36000));
    assert_eq!(parse_hours(b"120e-1", 0), OffsetText::Seconds(43200));
    assert_eq!(parse_hours(b"0.5e+1", 0), OffsetText::Seconds(18000));
    assert_eq!(parse_hours(b"5E-1", 0), OffsetText::Seconds(1800));
    assert_eq!(parse_hours(b".000125e3", 0), OffsetText::Seconds(450));
    assert_eq!(parse_hours(b"5.e0", 0), OffsetText::Seconds(18000));
    assert_eq!(parse_hours(b"1.2e1", 0), OffsetText::Seconds(43200));
    assert_eq!(parse_hours(b"1.20003e1", 0), OffsetText::TooLarge);
    assert_eq!(parse_hours(b"1.3e1", 0), OffsetText::TooLarge);
    assert_eq!(parse_hours(b"1e2", 0), OffsetText::TooLarge);
    assert_eq!(parse_hours(b"2e-4", 0), OffsetText::Seconds(0));
    assert_eq!(parse_hours(b"3e-4", 0), OffsetText::Seconds(1));
    assert_eq!(parse_hours(b"9e-5", 0), OffsetText::Seconds(0));
    assert_eq!(parse_hours(b"0.0000000000000000000000000012e28", 0), OffsetText::Seconds(43200));
    assert_eq!(parse_hours(b"12000000000000000000000000e-24", 0), OffsetText::Seconds(43200));
    assert_eq!(parse_hours(b"12000000000000000000000001e-24", 0), OffsetText::TooLarge);
    assert_eq!(parse_hours(b"11999999999999999999999999e-24", 0), OffsetText::Seconds(43199));
    assert_eq!(parse_hours(b"12000300000000000000000000e-24", 0), OffsetText::TooLarge);
    assert_eq!(parse_hours(b"0e99999999999999999999999999999999", 0), OffsetText::Seconds(0));
    assert_eq!(parse_hours(b"0.000e99999999999999999999999999999999", 0), OffsetText::Seconds(0));
    assert_eq!(parse_hours(b"1e99999999999999999999999999999999", 0), OffsetText::TooLarge);
    assert_eq!(parse_hours(b"0.001e99999999999999999999999999999999", 0), OffsetText::TooLarge);
    assert_eq!(parse_hours(b"9e-99999999999999999999999999999999", 0), OffsetText::Seconds(0));
    assert_eq!(parse_hours(b"-9e-99999999999999999999999999999999", 0), OffsetText::Seconds(0));
    assert_eq!(parse_hours(b"1e0000000000000000000000000000000001", 0), OffsetText::Seconds(36000));
    assert_eq!(parse_hours(b"1e", 0), OffsetText::Malformed);
    assert_eq!(parse_hours(b"1e+", 0), OffsetText::Malformed);
    assert_eq!(parse_hours(b"e1", 0), OffsetText::Malformed);
    assert_eq!(parse_hours(b".e1", 0), OffsetText::Malformed);
    assert_eq!(parse_hours(b"1e1.0", 0), OffsetText::Malformed);
    assert_eq!(parse_exponent(b"", 0), Some(0));
    assert_eq!(parse_exponent(b"5e-3", 1), Some(-3));
    assert_eq!(parse_exponent(b"5E+12", 1), Some(12));
    assert_eq!(parse_exponent(b"5x12", 1), None);
    assert_eq!(seconds_within_bound(&b"125".to_vec(), 1), Some(4500));
    assert_eq!(seconds_within_bound(&b"125".to_vec(), 0), Some(450));
    assert_eq!(seconds_within_bound(&b"125".to_vec(), -1), Some(45));
    assert_eq!(seconds_within_bound(&b"125".to_vec(), -2), Some(4));
    assert_eq!(seconds_within_bound(&b"125".to_vec(), -3), Some(0));
    assert_eq!(seconds_within_bound(&b"125".to_vec(), -40), Some(0));
    assert_eq!(seconds_within_bound(&b"125".to_vec(), 2), None);
    assert_eq!(seconds_within_bound(&b"012".to_vec(), 3), Some(43200));
    assert_eq!(seconds_within_bound(&b"012".to_vec(), 4), None);
    assert_eq!(seconds_within_bound(&b"0120000".to_vec(), 3), Some(43200));
    assert_eq!(seconds_within_bound(&b"0120001".to_vec(), 3), None);
    assert_eq!(seconds_within_bound(&b"119999".to_vec(), 2), Some(43199));
    assert_eq!(fraction_value(b"5", 0, 1), (1800, true));
    assert_eq!(fraction_value(b"0001", 0, 4), (0, false));
    assert_eq!(fraction_value(b"0625", 0, 4), (225, true));
    assert_eq!(fraction_value(b"", 0, 0), (0, true));
    assert_eq!(seconds_within_bound(&b"001".to_vec(), 4), Some(36000));
    assert_eq!(seconds_within_bound(&b"001".to_vec(), 5), None);
    assert_eq!(seconds_within_bound(&b"000".to_vec(), 500), Some(0));
}

#[test]
fn hours_that_are_not_finite_are_valid_and_do_not_convert() {
    for number in ["inf", "INF", "+inf", "-Inf", "infinity", "-INFINITY", "+Infinity", "nan", "NaN", "-nan", "+NAN"] {
        assert_eq!(parse_hours(number.as_bytes(), 0), OffsetText::TooLarge, "{}", number);
        let spec = format!("utc{}", number);
        assert!(sme_time_is_valid_timezone_impl(&spec), "{}", spec);
        assert_eq!(parse_specifier(&spec), TimezoneSpecifier::OutOfRange);
        assert_eq!(text(INSTANT, &spec), "");
    }
    assert_eq!(parse_finite_hours(b"inf", 0), OffsetText::Malformed);
    assert_eq!(parse_finite_hours(b"5.5", 0), OffsetText::Seconds(19800));
}

#[test]
fn minutes_are_whole_numbers_of_32_bits() {
    assert_eq!(parse_minutes(b"90", 0), OffsetText::Seconds(5400));
    assert_eq!(parse_minutes(b"-90", 0), OffsetText::Seconds(-5400));
    assert_eq!(parse_minutes(b"+0", 0), OffsetText::Seconds(0));
    assert_eq!(parse_minutes(b"-0", 0), OffsetText::Seconds(0));
    assert_eq!(parse_minutes(b"0000000000000000000000720", 0), OffsetText::Seconds(43200));
    assert_eq!(parse_minutes(b"721", 0), OffsetText::TooLarge);
    assert_eq!(parse_minutes(b"2147483647", 0), OffsetText::TooLarge);
    assert_eq!(parse_minutes(b"2147483648", 0), OffsetText::Malformed);
    assert_eq!(parse_minutes(b"1.5", 0), OffsetText::Malformed);
    assert_eq!(parse_minutes(b"", 0), OffsetText::Malformed);
    assert_eq!(parse_integer(b"2147483647", 0), Some(2147483647));
    assert_eq!(parse_integer(b"-2147483648", 0), Some(-2147483648));
    assert_eq!(parse_integer(b"2147483648", 0), None);
    assert_eq!(parse_integer(b"-2147483649", 0), None);
    assert_eq!(parse_integer(b"fof-15", 3), Some(-15));
    assert_eq!(parse_integer(b"+", 0), None);
    assert_eq!(parse_integer(b"12a", 0), None);
}

#[test]
fn prefix_decides_the_unit() {
    assert_eq!(parse_fixed_offset(b"utc2"), OffsetText::Seconds(7200));
    assert_eq!(parse_fixed_offset(b"GMT2"), OffsetText::Seconds(7200));
    assert_eq!(parse_fixed_offset(b"gMt-2"), OffsetText::Seconds(-7200));
    assert_eq!(parse_fixed_offset(b"fof2"), OffsetText::Seconds(120));
    assert_eq!(parse_fixed_offset(b"FoF-2"), OffsetText::Seconds(-120));
    assert_eq!(parse_fixed_offset(b"fof2.5"), OffsetText::Malformed);
    assert_eq!(parse_fixed_offset(b"utc"), OffsetText::Malformed);
    assert_eq!(parse_fixed_offset(b"utd2"), OffsetText::Malformed);
    assert_eq!(parse_fixed_offset(b"utc+25"), OffsetText::TooLarge);
    assert_eq!(parse_specifier("fof2"), TimezoneSpecifier::FixedOffset(120, OffsetKind::Minutes));
    assert_eq!(read_prefix(b"Utc1"), Some(OffsetKind::Hours));
    assert_eq!(read_prefix(b"gmT1"), Some(OffsetKind::Hours));
    assert_eq!(read_prefix(b"FOF1"), Some(OffsetKind::Minutes));
    assert_eq!(read_prefix(b"fof"), None);
    assert_eq!(read_prefix(b"utx1"), None);
    assert_eq!(read_prefix(b""), None);
    assert_eq!(
        parse_specifier("utc-5"),
        TimezoneSpecifier::FixedOffset(-18000, OffsetKind::Hours)
    );
}

#[test]
fn fixed_offset_conversions() {
    assert_eq!(text(INSTANT, "utc+5.5"), "Tu 05:18,19800");
    assert_eq!(text(INSTANT, "utc1e1"), "Tu 09:48,36000");
    assert_eq!(text(INSTANT, "gmt-55E-1"), "Mo 18:18,-19800");
    assert_eq!(text(INSTANT, "fof-90"), "Mo 22:18,-5400");
    assert_eq!(text(INSTANT, "utc0.999999999999999999999999999999"), "Tu 00:48,3599");
    // before the epoch: 1969-12-31 19:00, a Wednesday
    assert_eq!(text(0, "utc-5"), "We 19:00,-18000");
    assert_eq!(text(0, "utc0"), "Th 00:00,0");
    // 2106-02-07 06:28:15, a Sunday
    assert_eq!(text(u32::MAX, "utc0"), "Su 06:28,0");
    assert_eq!(text(u32::MAX, "utc12"), "Su 18:28,43200");
}

#[test]
fn labels_of_each_weekday() {
    let monday: u32 = 1608508800; // 2020-12-21 00:00:00 UTC
    let names = ["Mo", "Tu", "We", "Th", "Fr", "Sa", "Su"];
    for (i, name) in names.iter().enumerate() {
        let at = monday + 86400 * (i as u32) + 3600 * 7 + 60 * 5 + 59;
        assert_eq!(local_label(at, 0), format!("{} 07:05", name));
    }
    assert_eq!(local_label(0, -1), "We 23:59");
    assert_eq!(local_label(0, i32::MIN), "Fr 20:45");
    assert_eq!(local_label(u32::MAX, i32::MAX), "Fr 09:42");
}

#[test]
fn integers_in_decimal() {
    let mut out = String::from("x");
    push_natural(&mut out, 0);
    push_natural(&mut out, 7);
    push_natural(&mut out, 1203);
    assert_eq!(out, "x071203");
    let mut out = String::new();
    push_integer(&mut out, -18000);
    push_integer(&mut out, 0);
    push_integer(&mut out, i32::MAX);
    push_integer(&mut out, i32::MIN);
    assert_eq!(out, "-1800002147483647-2147483648");
}

#[test]
fn format_drops_the_third_byte_of_the_short_time() {
    assert_eq!(format_tz_result(&"Mon 18:48".to_string(), -18000), "Mo 18:48,-18000");
    assert_eq!(format_tz_result(&"Sun 00:00".to_string(), 43200), "Su 00:00,43200");
    assert_eq!(format_tz_result(&"abc".to_string(), 0), "ab,0");
    assert_eq!(format_tz_result(&"abcd".to_string(), -1), "abd,-1");
    // two bytes for the first letter: the third byte is the second letter
    assert_eq!(format_tz_result(&"\u{e9}X rest".to_string(), 5), "\u{e9} rest,5");
}

#[test]
fn short_time_has_three_letters_of_the_weekday() {
    assert_eq!(short_time(INSTANT, -18000), "Mon 18:48");
    assert_eq!(short_time(INSTANT, 19800), "Tue 05:18");
    assert_eq!(short_time(0, 0), "Thu 00:00");
    assert_eq!(short_time(0, -1), "Wed 23:59");
    assert_eq!(short_time(u32::MAX, 0), "Sun 06:28");
    let monday: u32 = 1608508800;
    let names = ["Mon", "Tue", "Wed", "Thu", "Fri", "Sat", "Sun"];
    for (i, name) in names.iter().enumerate() {
        assert_eq!(short_time(monday + 86400 * (i as u32), 0), format!("{} 00:00", name));
    }
}

#[test]
fn offsets_are_found_and_are_less_than_a_day() {
    assert_eq!(timezone_offset(INSTANT, "America/New_York"), Some(-18000));
    assert_eq!(timezone_offset(INSTANT, "Pacific/Kiritimati"), Some(50400));
    assert_eq!(timezone_offset(INSTANT, "Etc/GMT+12"), Some(-43200));
    assert_eq!(timezone_offset(INSTANT, "utc-5"), Some(-18000));
    assert_eq!(timezone_offset(INSTANT, "utc+25"), None);
    assert_eq!(timezone_offset(INSTANT, "nowhere"), None);
    assert_eq!(text(INSTANT, "Pacific/Kiritimati"), "Tu 13:48,50400");
    for zone in ["Pacific/Kiritimati", "Pacific/Pago_Pago", "Asia/Manila", "America/Juneau"] {
        for instant in [0, INSTANT, u32::MAX] {
            let offset = timezone_offset(instant, zone).unwrap();
            assert!(-86400 < offset && offset < 86400);
        }
    }
}

#[test]
fn outcomes_compare_by_their_fields() {
    assert_eq!(convert_to_timezone(INSTANT, "utc-5"), convert_to_timezone(INSTANT, "America/New_York"));
    assert_ne!(convert_to_timezone(INSTANT, "utc-5"), convert_to_timezone(INSTANT, "utc-6"));
    assert_eq!(conversion_at(INSTANT, None), convert_to_timezone(INSTANT, "utc+25"));
}

#[test]
fn earlier_candidate_wins_and_gap_has_no_offset() {
    assert_eq!(resolve_offset(LocalOffset::Unambiguous(3600)), Some(3600));
    assert_eq!(resolve_offset(LocalOffset::Ambiguous(7200, 3600)), Some(7200));
    assert_eq!(resolve_offset(LocalOffset::Ambiguous(-14400, -18000)), Some(-14400));
    assert_eq!(resolve_offset(LocalOffset::Gap), None);
    let found = conversion_at(INSTANT, resolve_offset(LocalOffset::Ambiguous(-14400, -18000)));
    assert!(found.valid);
    assert_eq!(found.time_str, "Mo 19:48");
    assert_eq!(found.sorting_factor, -14400);
    let gap = conversion_at(INSTANT, resolve_offset(LocalOffset::Gap));
    assert!(!gap.valid);
    assert_eq!(gap.time_str, "");
    assert_eq!(gap.sorting_factor, 0);
}

#[test]
fn zone_name_wins_over_prefix() {
    // "GMT+0" and "GMT0" are zone names of the database
    assert_eq!(parse_specifier("GMT+0"), TimezoneSpecifier::Named);
    assert_eq!(parse_specifier("GMT0"), TimezoneSpecifier::Named);
    assert_eq!(parse_specifier("GMT+1"), TimezoneSpecifier::FixedOffset(3600, OffsetKind::Hours));
    assert_eq!(text(INSTANT, "GMT+0"), "Mo 23:48,0");
}

#[test]
fn full_date_text() {
    assert_eq!(sme_time_as_string_impl(0), "1970-01-01 00:00:00");
    assert_eq!(sme_time_as_string_impl(u32::MAX), "2106-02-07 06:28:15");
    assert_eq!(sme_time_from_string_impl("1970-01-01 00:00:00"), 0);
    assert_eq!(sme_time_from_string_impl("2106-02-07 06:28:15"), u32::MAX);
    assert_eq!(sme_time_from_string_impl("2020-12-21 23:48:26 and more"), 1608594506);
    assert_eq!(sme_time_from_string_impl(&sme_time_as_string_impl(INSTANT)), INSTANT);
}

#[test]
fn unreadable_date_text_gives_zero() {
    assert_eq!(sme_time_from_string_impl(""), 0);
    assert_eq!(sme_time_from_string_impl("2020-12-21 23:48"), 0);
    assert_eq!(sme_time_from_string_impl("2020-12-21T23:48:26"), 0);
    assert_eq!(sme_time_from_string_impl("2020-13-21 23:48:26"), 0);
    assert_eq!(sme_time_from_string_impl("not a date, not a time"), 0);
    assert_eq!(sme_time_from_string_impl("2020-12-21 23:48:2\u{e9}"), 0);
}

#[test]
fn date_text_outside_32_bits_wraps() {
    assert_eq!(sme_time_from_string_impl("1969-12-31 23:59:59"), u32::MAX);
    assert_eq!(sme_time_from_string_impl("2106-02-07 06:28:16"), 0);
}
