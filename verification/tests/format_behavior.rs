use time::Duration;
use time::ParseError;
use time::Timespec;
use time::Tm;
use time::at_offset;
use time::at_utc;
use time::empty_tm;
use time::now_utc;
use time::strftime;
use time::strptime;

#[test]
fn iso_week_rolls_into_next_year() {
    // 2018-12-31 was a Monday and belongs to ISO week 1 of 2019.
    let tm = at_utc(Timespec::new(1546257600, 0));
    assert_eq!(tm.tm_mday, 31);
    assert_eq!(tm.tm_mon, 11);
    assert_eq!(strftime("%V", &tm).unwrap(), "01");
    assert_eq!(strftime("%G", &tm).unwrap(), "2019");
    assert_eq!(strftime("%g", &tm).unwrap(), "19");
}

#[test]
fn iso_week_rolls_into_previous_year() {
    // 2016-01-01 was a Friday and belongs to ISO week 53 of 2015.
    let tm = at_utc(Timespec::new(1451649600, 0));
    assert_eq!(tm.tm_mday, 1);
    assert_eq!(tm.tm_mon, 0);
    assert_eq!(strftime("%V", &tm).unwrap(), "53");
    assert_eq!(strftime("%G", &tm).unwrap(), "2015");
    assert_eq!(strftime("%g", &tm).unwrap(), "15");
}

#[test]
fn iso_week_plain_midyear() {
    // 2009-02-13 sits in ISO week 7 of 2009.
    let tm = at_utc(Timespec::new(1234567890, 0));
    assert_eq!(strftime("%V", &tm).unwrap(), "07");
    assert_eq!(strftime("%G", &tm).unwrap(), "2009");
}

#[test]
fn validation_rejects_fields_out_of_range() {
    let mut tm = empty_tm();
    tm.tm_mday = 1;
    tm.tm_wday = 7;
    assert_eq!(tm.strftime("%Y").unwrap_err(), ParseError::InvalidDayOfWeek);
    tm.tm_wday = 0;
    tm.tm_mon = 12;
    assert_eq!(tm.strftime("%Y").unwrap_err(), ParseError::InvalidMonth);
    tm.tm_wday = -1;
    assert_eq!(tm.strftime("%Y").unwrap_err(), ParseError::InvalidDay);
}

#[test]
fn parsing_length_mismatch_is_invalid_time() {
    assert_eq!(strptime("x", ""), Err(ParseError::InvalidTime));
    assert_eq!(strptime("", "%d"), Err(ParseError::InvalidTime));
    assert_eq!(strptime("123", "%Y"), Err(ParseError::InvalidYear));
    assert_eq!(strptime("2009 tail", "%Y"), Err(ParseError::InvalidTime));
}

#[test]
fn parsing_literal_mismatch_names_both_characters() {
    assert_eq!(
        strptime("2019+01", "%Y-%m"),
        Err(ParseError::UnexpectedCharacter('-', '+'))
    );
}

#[test]
fn rfc3339_literal_scenario() {
    let ts = Timespec::new(1234567890, 54321);
    let utc = at_utc(ts);
    assert_eq!(utc.rfc3339().to_string(), "2009-02-13T23:31:30Z");
    let pacific = at_offset(ts, -28800);
    assert_eq!(pacific.tm_hour, 15);
    assert_eq!(pacific.rfc3339().to_string(), "2009-02-13T15:31:30-08:00");
}

#[test]
fn strptime_fractional_literal_scenario() {
    let tm = strptime("Fri Feb 13 15:31:30.01234 2009", "%a %b %e %T.%f %Y").unwrap();
    assert_eq!(tm.tm_sec, 30);
    assert_eq!(tm.tm_nsec, 12340000);
    assert_eq!(tm.tm_wday, 5);
    assert_eq!(tm.tm_mon, 1);
    assert_eq!(tm.tm_year, 109);
}

#[test]
fn zone_offsets_parse_by_sign_and_digits() {
    assert_eq!(strptime("-0000", "%z").unwrap().tm_utcoff, 0);
    assert_eq!(strptime("-0800", "%z").unwrap().tm_utcoff, -28800);
    assert_eq!(strptime("+0130", "%z").unwrap().tm_utcoff, 5400);
    assert_eq!(strptime("0800", "%z"), Err(ParseError::InvalidZoneOffset));
    assert_eq!(strptime("+08x0", "%z"), Err(ParseError::InvalidZoneOffset));
}

#[test]
fn zone_names_parse_leniently() {
    assert_eq!(strptime("UTC", "%Z").unwrap().tm_utcoff, 0);
    assert_eq!(strptime("GMT", "%Z").unwrap().tm_utcoff, 0);
    // Any other word up to a space is consumed without touching the offset.
    let tm = strptime("PST 13", "%Z%d").unwrap();
    assert_eq!(tm.tm_utcoff, 0);
    assert_eq!(tm.tm_mday, 13);
}

#[test]
fn each_parse_error_has_an_input() {
    assert_eq!(strptime("71", "%S"), Err(ParseError::InvalidSecond));
    assert_eq!(strptime("60", "%M"), Err(ParseError::InvalidMinute));
    assert_eq!(strptime("24", "%H"), Err(ParseError::InvalidHour));
    assert_eq!(strptime("Xyz", "%a"), Err(ParseError::InvalidDay));
    assert_eq!(strptime("Xyz", "%b"), Err(ParseError::InvalidMonth));
    assert_eq!(strptime("12a3", "%Y"), Err(ParseError::InvalidYear));
    assert_eq!(strptime("8", "%u"), Err(ParseError::InvalidDayOfWeek));
    assert_eq!(strptime("32", "%d"), Err(ParseError::InvalidDayOfMonth));
    assert_eq!(strptime("367", "%j"), Err(ParseError::InvalidDayOfYear));
    assert_eq!(strptime("0800", "%z"), Err(ParseError::InvalidZoneOffset));
    assert_eq!(strptime("a", "b"), Err(ParseError::UnexpectedCharacter('b', 'a')));
    assert_eq!(strptime("x", "%Q"), Err(ParseError::InvalidFormatSpecifier('Q')));
}

#[test]
fn error_messages_match_the_variant() {
    assert_eq!(ParseError::InvalidSecond.to_string(), "Invalid second.");
    assert_eq!(ParseError::InvalidZoneOffset.to_string(), "Invalid zone offset.");
    assert_eq!(
        ParseError::MissingFormatConverter.to_string(),
        "Missing format converter after `%`"
    );
    assert_eq!(
        ParseError::InvalidFormatSpecifier('Q').to_string(),
        "Invalid format specifier: %Q"
    );
    assert_eq!(
        ParseError::UnexpectedCharacter('-', '+').to_string(),
        "Expected: -, found: +."
    );
}

#[test]
fn duration_nanosecond_overflow_boundary() {
    let d = Duration::seconds(9_223_372_036).add(&Duration::nanoseconds(854_775_807));
    assert_eq!(d.num_nanoseconds(), Some(i64::MAX));
    let e = d.add(&Duration::nanoseconds(1));
    assert_eq!(e.num_nanoseconds(), None);
    assert_eq!(Duration::nanoseconds(-1_500_000_000).num_seconds(), -1);
}

#[test]
fn month_overflow_carries_into_year() {
    let mut a = empty_tm();
    a.tm_year = 109;
    a.tm_mon = 0;
    a.tm_mday = 1;
    let mut b = empty_tm();
    b.tm_year = 108;
    b.tm_mon = 12;
    b.tm_mday = 1;
    assert_eq!(a.to_timespec(), b.to_timespec());
}

#[test]
fn leap_day_round_trip() {
    // 2020-02-29T12:00:00Z
    let ts = Timespec::new(1582977600, 0);
    let tm = at_utc(ts);
    assert_eq!(tm.tm_mon, 1);
    assert_eq!(tm.tm_mday, 29);
    assert_eq!(tm.tm_yday, 59);
    assert_eq!(tm.to_timespec(), ts);
    assert_eq!(strftime("%F", &tm).unwrap(), "2020-02-29");
}

#[test]
fn pre_epoch_decomposition() {
    // 1.2 seconds before the epoch.
    let ts = Timespec::new(-2, 800_000_000);
    let tm = at_utc(ts);
    assert_eq!(tm.tm_year, 69);
    assert_eq!(tm.tm_mon, 11);
    assert_eq!(tm.tm_mday, 31);
    assert_eq!(tm.tm_hour, 23);
    assert_eq!(tm.tm_min, 59);
    assert_eq!(tm.tm_sec, 58);
    assert_eq!(tm.tm_nsec, 800_000_000);
    assert_eq!(tm.to_timespec(), ts);
}

#[test]
fn far_out_of_range_instant_decomposes_to_empty() {
    let tm = at_utc(Timespec::new(i64::MAX, 0));
    assert_eq!(tm, empty_tm());
}

#[test]
fn now_utc_reports_utc() {
    let tm = now_utc();
    assert_eq!(tm.tm_utcoff, 0);
    assert!(tm.tm_nsec >= 0 && tm.tm_nsec < 1_000_000_000);
    assert!(tm.tm_year >= 120);
}

#[test]
fn timespec_add_then_sub_restores() {
    let t = Timespec::new(-5, 123_456_789);
    let d = Duration::seconds(-3).add(&Duration::nanoseconds(-999_999_999));
    let back = t.sub(&d).add(&d);
    assert_eq!(back, t);
}

#[test]
fn tm_add_crosses_a_year_boundary() {
    // 2008-12-31T23:59:30Z plus one minute lands in 2009.
    let tm = at_utc(Timespec::new(1230767970, 0));
    let later: Tm = tm.add(&Duration::seconds(60));
    assert_eq!(later.tm_year, 109);
    assert_eq!(later.tm_mon, 0);
    assert_eq!(later.tm_mday, 1);
    assert_eq!(later.tm_min, 0);
    assert_eq!(later.tm_sec, 30);
    let back = later.sub(&Duration::seconds(60));
    assert_eq!(back, tm);
}

#[test]
fn literal_text_passes_through_formatting() {
    let tm = at_utc(Timespec::new(1234567890, 0));
    assert_eq!(strftime("day %d!", &tm).unwrap(), "day 13!");
}

#[test]
fn ordering_goes_by_instant_but_equality_by_fields() {
    let ts = Timespec::new(1234567890, 54321);
    let utc = at_utc(ts);
    let pacific = at_offset(ts, -28800);
    // Same instant in two zones: equal by order, unequal field-by-field.
    assert_eq!(utc.partial_cmp(&pacific), Some(std::cmp::Ordering::Equal));
    assert!(utc != pacific);
    let later = at_utc(Timespec::new(1234567891, 0));
    assert!(utc < later);
    assert!(later > pacific);
}

#[test]
fn ctime_renders_in_the_value_own_zone() {
    // The asctime-style preset reads the fields as they stand; resolving
    // the process's ambient zone is left to the platform layer.
    let utc = at_utc(Timespec::new(1234567890, 54321));
    assert_eq!(utc.ctime().to_string(), "Fri Feb 13 23:31:30 2009");
    let pacific = at_offset(Timespec::new(1234567890, 54321), -28800);
    assert_eq!(pacific.ctime().to_string(), "Fri Feb 13 15:31:30 2009");
}

#[test]
fn wall_reading_normalizes_before_epoch() {
    // 1.2 seconds before the epoch becomes two steps back, one forward.
    assert_eq!(
        time::timespec_from_wall(true, 1, 200_000_000),
        Timespec::new(-2, 800_000_000)
    );
    assert_eq!(time::timespec_from_wall(true, 5, 0), Timespec::new(-5, 0));
    assert_eq!(time::timespec_from_wall(false, 5, 42), Timespec::new(5, 42));
    // Seconds beyond the signed range saturate.
    assert_eq!(time::timespec_from_wall(false, u64::MAX, 1).sec, i64::MAX);
}

#[test]
fn counter_wraps_at_64_bits() {
    assert_eq!(time::counter_of(2, 5), 2_000_000_005);
    assert_eq!(time::counter_of(u64::MAX, 7), 18446744072709551623);
}
