use kernel::cmos;
use kernel::cmos::CMOSRegister;
use kernel::cmos::Clock;
use kernel::cmos::RTC;
use kernel::elf::strtab::Strtab;
use kernel::time::DateTime;

fn date(year: u32, month: u8, day: u8, hours: u8, minutes: u8, seconds: u8) -> DateTime {
    DateTime { year, month, day, hours, minutes, seconds }
}

#[test]
fn registers_are_selected_by_their_number() {
    assert_eq!(CMOSRegister::Seconds.index(), 0x00);
    assert_eq!(CMOSRegister::Minutes.index(), 0x02);
    assert_eq!(CMOSRegister::Hours.index(), 0x04);
    assert_eq!(CMOSRegister::Day.index(), 0x07);
    assert_eq!(CMOSRegister::Month.index(), 0x08);
    assert_eq!(CMOSRegister::Year.index(), 0x09);
    assert_eq!(CMOSRegister::StatusA.index(), 0x0A);
    assert_eq!(CMOSRegister::StatusB.index(), 0x0B);
    assert_eq!(cmos::read_register(0, CMOSRegister::Year), 0x09);
    assert_eq!(cmos::read_register(1, CMOSRegister::Year), 0x89);
    assert_eq!(cmos::read_register(1, CMOSRegister::Seconds), 0x80);
    assert!(!cmos::has_century());
    assert_eq!(cmos::read_century(0), None);
}

#[test]
fn update_in_progress_is_the_top_bit() {
    assert!(cmos::is_updating(0x80));
    assert!(cmos::is_updating(0xa6));
    assert!(!cmos::is_updating(0x26));
    assert!(!cmos::is_updating(0x7f));
}

#[test]
fn registers_with_decimal_digits() {
    // 15 June 17, 23:59:58, two digits to a register, 24 hours
    let rtc = RTC {
        seconds: 0x58,
        minutes: 0x59,
        hours: 0x23,
        day: 0x15,
        month: 0x06,
        year: 0x17,
        century: 0,
    };
    assert_eq!(rtc.to_datetime(0x02), date(2017, 6, 15, 23, 59, 58));
}

#[test]
fn registers_with_binary_numbers() {
    let rtc = RTC { seconds: 58, minutes: 59, hours: 23, day: 15, month: 6, year: 17, century: 0 };
    assert_eq!(rtc.to_datetime(0x06), date(2017, 6, 15, 23, 59, 58));
    // status bits other than 1 and 2 do not matter
    assert_eq!(rtc.to_datetime(0xfe), date(2017, 6, 15, 23, 59, 58));
}

#[test]
fn afternoon_on_a_clock_of_twelve_hours() {
    let mut rtc = RTC { seconds: 0, minutes: 0, hours: 0x81, day: 1, month: 1, year: 0x20, century: 0 };
    // 1 pm, in decimal digits and in binary
    assert_eq!(rtc.to_datetime(0x00).hours, 13);
    assert_eq!(rtc.to_datetime(0x04).hours, 13);
    rtc.hours = 0x91;
    assert_eq!(rtc.to_datetime(0x00).hours, 23);
    // 12 pm comes out as midnight
    rtc.hours = 0x92;
    assert_eq!(rtc.to_datetime(0x00).hours, 0);
    rtc.hours = 0x11;
    assert_eq!(rtc.to_datetime(0x00).hours, 11);
    // on a clock of 24 hours the top bit stays
    rtc.hours = 0x81;
    assert_eq!(rtc.to_datetime(0x06).hours, 0x81);
}

#[test]
fn year_before_the_current_one_lies_in_the_next_century() {
    let mut rtc = RTC { seconds: 0, minutes: 0, hours: 0, day: 1, month: 1, year: 0x16, century: 0x19 };
    assert_eq!(rtc.to_datetime(0x02).year, 2116);
    rtc.year = 0x17;
    assert_eq!(rtc.to_datetime(0x02).year, 2017);
    rtc.year = 0x99;
    assert_eq!(rtc.to_datetime(0x02).year, 2099);
    rtc.year = 0;
    assert_eq!(rtc.to_datetime(0x02).year, 2100);
    rtc.year = 255;
    assert_eq!(rtc.to_datetime(0x06).year, 2255);
}

#[test]
fn two_readings_that_agree_give_the_time() {
    let first = RTC { seconds: 0x58, minutes: 0x59, hours: 0x23, day: 0x15, month: 0x06, year: 0x17, century: 0 };
    let mut second = first;
    assert_eq!(cmos::current_datetime(&first, &second, 0x02), Some(date(2017, 6, 15, 23, 59, 58)));
    second.seconds = 0x59;
    assert_eq!(cmos::current_datetime(&first, &second, 0x02), None);
    second = first;
    second.century = 1;
    assert_eq!(cmos::current_datetime(&first, &second, 0x02), None);
}

#[test]
fn clock_needs_a_time() {
    assert!(Clock::new(0).is_none());
    assert_eq!(Clock::new(1497529845).map(|clock| clock.current_seconds()), Some(1497529845));
}

#[test]
fn date_as_text() {
    assert_eq!(date(2017, 6, 15, 12, 30, 45).to_string(), "6/15/2017 12:30:45 PM");
    assert_eq!(date(2017, 6, 15, 0, 5, 9).to_string(), "6/15/2017 12:5:9 AM");
    assert_eq!(date(1970, 1, 1, 13, 0, 0).to_string(), "1/1/1970 1:0:0 PM");
    assert_eq!(date(2000, 12, 31, 11, 59, 59).to_string(), "12/31/2000 11:59:59 AM");
    assert_eq!(date(2000, 12, 31, 23, 59, 59).to_string(), "12/31/2000 11:59:59 PM");
}

#[test]
fn names_of_a_string_table() {
    let table = Strtab::from_raw(b"\0.text\0.data\0.bss", 0);
    assert_eq!(table.get(0), Some(""));
    assert_eq!(table.get(1), Some(".text"));
    assert_eq!(table.get(3), Some("ext"));
    assert_eq!(table.get(6), Some(""));
    assert_eq!(table.get(7), Some(".data"));
    // the last name has no delimiter
    assert_eq!(table.get(13), Some(".bss"));
    assert_eq!(table.get(16), Some("s"));
    assert_eq!(table.get(17), Some(""));
    assert_eq!(table.get(1000), Some(""));
}

#[test]
fn names_with_another_delimiter() {
    let table = Strtab::from_raw(b"one,two,", b',');
    assert_eq!(table.get(0), Some("one"));
    assert_eq!(table.get(4), Some("two"));
    assert_eq!(table.get(7), Some(""));
    assert_eq!(Strtab::default().get(0), Some(""));
}

#[test]
fn name_that_is_no_text() {
    let table = Strtab::from_raw(b"ok\0\xff\xfe\0caf\xc3\xa9\0\xc3", 0);
    assert_eq!(table.get(0), Some("ok"));
    assert_eq!(table.get(3), None);
    assert_eq!(table.get(4), None);
    assert_eq!(table.get(6), Some("caf\u{e9}"));
    // a name that starts in the middle of a character
    assert_eq!(table.get(10), None);
    assert_eq!(table.get(12), None);
}
