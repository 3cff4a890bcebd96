use kernel::time::DateTime;

fn date(year: u32, month: u8, day: u8, hours: u8, minutes: u8, seconds: u8) -> DateTime {
    DateTime { year, month, day, hours, minutes, seconds }
}

#[test]
fn leap_years() {
    assert!(date(2000, 1, 1, 0, 0, 0).is_leap_year());
    assert!(date(2016, 1, 1, 0, 0, 0).is_leap_year());
    assert!(!date(2017, 1, 1, 0, 0, 0).is_leap_year());
    assert!(!date(1900, 1, 1, 0, 0, 0).is_leap_year());
    assert!(!date(2100, 1, 1, 0, 0, 0).is_leap_year());
    assert!(date(2400, 1, 1, 0, 0, 0).is_leap_year());
}

#[test]
fn day_of_the_year() {
    assert_eq!(date(2017, 1, 1, 0, 0, 0).day_of_year(), 1);
    assert_eq!(date(2017, 3, 1, 0, 0, 0).day_of_year(), 60);
    assert_eq!(date(2016, 3, 1, 0, 0, 0).day_of_year(), 61);
    assert_eq!(date(2017, 12, 31, 0, 0, 0).day_of_year(), 365);
    assert_eq!(date(2016, 12, 31, 0, 0, 0).day_of_year(), 366);
    assert_eq!(date(2016, 2, 29, 0, 0, 0).day_of_year(), 60);
    // month 0 counts as the start of the year
    assert_eq!(date(2016, 0, 7, 0, 0, 0).day_of_year(), 7);
}

#[test]
fn seconds_since_the_epoch() {
    assert_eq!(date(1970, 1, 1, 0, 0, 0).seconds_since_epoch(), 0);
    assert_eq!(date(1970, 1, 1, 0, 0, 1).seconds_since_epoch(), 1);
    assert_eq!(date(1970, 1, 2, 0, 0, 0).seconds_since_epoch(), 86400);
    assert_eq!(date(1971, 1, 1, 0, 0, 0).seconds_since_epoch(), 31536000);
    assert_eq!(date(2000, 1, 1, 0, 0, 0).seconds_since_epoch(), 946684800);
    assert_eq!(date(2001, 9, 9, 1, 46, 40).seconds_since_epoch(), 1000000000);
    assert_eq!(date(2017, 6, 15, 12, 30, 45).seconds_since_epoch(), 1497529845);
    assert_eq!(date(2038, 1, 19, 3, 14, 7).seconds_since_epoch(), 2147483647);
    assert_eq!(date(2105, 12, 31, 23, 59, 59).seconds_since_epoch(), 4291747199);
}

#[test]
fn date_from_the_seconds() {
    // the day of the month counts from zero
    assert_eq!(DateTime::from_seconds_since_epoc(0), date(1970, 1, 0, 0, 0, 0));
    assert_eq!(DateTime::from_seconds_since_epoc(86399), date(1970, 1, 0, 23, 59, 59));
    assert_eq!(DateTime::from_seconds_since_epoc(86400), date(1970, 1, 1, 0, 0, 0));
    assert_eq!(DateTime::from_seconds_since_epoc(1000000000), date(2001, 9, 8, 1, 46, 40));
    assert_eq!(DateTime::from_seconds_since_epoc(1497529845), date(2017, 6, 14, 12, 30, 45));
    // the last day of February in a leap year
    assert_eq!(DateTime::from_seconds_since_epoc(951782400), date(2000, 2, 28, 0, 0, 0));
    assert_eq!(DateTime::from_seconds_since_epoc(951868800), date(2000, 3, 0, 0, 0, 0));
    // the last day of November
    assert_eq!(DateTime::from_seconds_since_epoc(1512000000), date(2017, 11, 29, 0, 0, 0));
}

#[test]
fn date_in_december_has_no_month() {
    assert_eq!(DateTime::from_seconds_since_epoc(1512086400), date(2017, 0, 0, 0, 0, 0));
    assert_eq!(DateTime::from_seconds_since_epoc(1514764799), date(2017, 0, 0, 23, 59, 59));
    assert_eq!(DateTime::from_seconds_since_epoc(1514764800), date(2018, 1, 0, 0, 0, 0));
}

#[test]
fn last_day_of_a_leap_cycle() {
    // the last day of 2000 is day 365 of the year, counted from zero
    assert_eq!(DateTime::from_seconds_since_epoc(978220800), date(2000, 0, 0, 0, 0, 0));
    assert_eq!(DateTime::from_seconds_since_epoc(978307200), date(2001, 1, 0, 0, 0, 0));
}

#[test]
fn month_zero_counts_as_january() {
    assert_eq!(date(1970, 0, 1, 0, 0, 0).seconds_since_epoch(), 0);
    assert_eq!(date(1970, 0, 2, 0, 0, 1).seconds_since_epoch(), 86401);
    // a day that is no day of a month, in a month after January
    assert_eq!(date(1970, 2, 0, 0, 0, 0).seconds_since_epoch(), 30 * 86400);
    assert_eq!(date(2106, 2, 7, 6, 28, 15).seconds_since_epoch(), 4294967295);
}

#[test]
fn date_of_a_second_names_that_second() {
    for seconds in [0u64, 1, 86399, 86400, 951782400, 1497529845, 2147483647, 4294967295] {
        let found = DateTime::from_seconds_since_epoc(seconds);
        assert_ne!(found.month, 0);
        let counted = date(found.year, found.month, found.day + 1, found.hours, found.minutes, found.seconds);
        assert_eq!(counted.seconds_since_epoch(), seconds);
    }
}

#[test]
fn date_as_text_on_a_clock_of_twelve_hours() {
    assert_eq!(date(2017, 6, 5, 0, 7, 9).to_string(), "6/5/2017 12:7:9 AM");
    assert_eq!(date(1999, 12, 31, 23, 59, 59).to_string(), "12/31/1999 11:59:59 PM");
    assert_eq!(date(2000, 1, 1, 12, 0, 0).to_string(), "1/1/2000 12:0:0 PM");
}
