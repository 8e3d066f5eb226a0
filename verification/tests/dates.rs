use katana::calendar::{date_from_days, leap_year, month_length, Date};
use katana::utils::Utils;

#[test]
fn epoch_in_rfc_1123() {
    assert_eq!(Utils::rfc_1123_at(0), "Thu, 01 Jan 1970 00:00:00 GMT");
}

#[test]
fn last_second_of_the_first_day() {
    assert_eq!(Utils::rfc_1123_at(86399), "Thu, 01 Jan 1970 23:59:59 GMT");
    assert_eq!(Utils::rfc_1123_at(86400), "Fri, 02 Jan 1970 00:00:00 GMT");
}

#[test]
fn leap_day_of_2000() {
    assert_eq!(Utils::rfc_1123_at(951782400), "Tue, 29 Feb 2000 00:00:00 GMT");
    assert_eq!(Utils::rfc_1123_at(951868800), "Wed, 01 Mar 2000 00:00:00 GMT");
}

#[test]
fn an_afternoon_in_2023() {
    assert_eq!(Utils::rfc_1123_at(1700000000), "Tue, 14 Nov 2023 22:13:20 GMT");
}

#[test]
fn every_weekday_has_its_name() {
    let names = ["Thu", "Fri", "Sat", "Sun", "Mon", "Tue", "Wed"];
    for (offset, name) in names.iter().enumerate() {
        let text = Utils::rfc_1123_at(offset as u64 * 86400);
        assert_eq!(&text[..3], *name);
    }
}

#[test]
fn every_month_has_its_name() {
    let firsts: [(u64, &str); 12] = [
        (0, "Jan"),
        (31, "Feb"),
        (59, "Mar"),
        (90, "Apr"),
        (120, "May"),
        (151, "Jun"),
        (181, "Jul"),
        (212, "Aug"),
        (243, "Sep"),
        (273, "Oct"),
        (304, "Nov"),
        (334, "Dec"),
    ];
    for (day, name) in firsts {
        let text = Utils::rfc_1123_at(day * 86400);
        assert_eq!(&text[8..11], name);
        assert_eq!(&text[5..7], "01");
    }
}

#[test]
fn years_beyond_four_digits_are_not_cut() {
    let text = Utils::rfc_1123_at(253402300800);
    assert_eq!(text, "Sat, 01 Jan 10000 00:00:00 GMT");
}

#[test]
fn epoch_in_iso_format() {
    assert_eq!(Utils::rfc_8601_at(0, "00:00"), "1970-01-01T00:00:00Z+00:00");
}

#[test]
fn iso_format_keeps_the_zone_as_given() {
    assert_eq!(
        Utils::rfc_8601_at(1700000000, "Europe/Paris"),
        "2023-11-14T22:13:20Z+Europe/Paris"
    );
}

#[test]
fn the_clock_gives_a_date_of_the_right_shape() {
    let text = Utils::datetime_rfc_1123();
    assert_eq!(text.len(), 29);
    assert!(text.ends_with(" GMT"));
    assert_eq!(&text[3..5], ", ");
    let zoned = Utils::datetime_rfc_8601("00:00");
    assert!(zoned.ends_with("Z+00:00"));
    assert_eq!(&zoned[4..5], "-");
    assert_eq!(&zoned[10..11], "T");
}

#[test]
fn the_time_stamp_is_a_number_of_our_days() {
    let text = Utils::unix_timestamp();
    let secs: u64 = text.parse().unwrap();
    assert!(secs > 1_700_000_000);
    assert_eq!(secs.to_string(), text);
}

#[test]
fn dates_of_chosen_days() {
    assert_eq!(date_from_days(0), Date { year: 1970, month: 1, day: 1 });
    assert_eq!(date_from_days(364), Date { year: 1970, month: 12, day: 31 });
    assert_eq!(date_from_days(365), Date { year: 1971, month: 1, day: 1 });
    assert_eq!(date_from_days(11016), Date { year: 2000, month: 2, day: 29 });
    assert_eq!(date_from_days(19722), Date { year: 2023, month: 12, day: 31 });
    assert_eq!(date_from_days(19723), Date { year: 2024, month: 1, day: 1 });
}

#[test]
fn leap_years_follow_the_gregorian_rule() {
    assert!(leap_year(2000));
    assert!(leap_year(2024));
    assert!(!leap_year(1900));
    assert!(!leap_year(2023));
    assert_eq!(month_length(2024, 2), 29);
    assert_eq!(month_length(2023, 2), 28);
    assert_eq!(month_length(2023, 4), 30);
    assert_eq!(month_length(2023, 12), 31);
}

#[test]
fn consecutive_days_have_consecutive_dates() {
    let mut day: u64 = 0;
    let mut previous = date_from_days(0);
    while day < 1500 {
        day += 1;
        let date = date_from_days(day);
        if date.day == 1 {
            assert_eq!(previous.day as u64, month_length(previous.year, previous.month));
            if date.month == 1 {
                assert_eq!((previous.year + 1, previous.month), (date.year, 12));
            } else {
                assert_eq!((previous.year, previous.month + 1), (date.year, date.month));
            }
        } else {
            assert_eq!(
                (previous.year, previous.month, previous.day + 1),
                (date.year, date.month, date.day)
            );
        }
        previous = date;
    }
}

/// Days from 1 January 1970 to the given date, by the closed formula for the Gregorian
/// calendar.
fn days_to(year: i64, month: i64, day: i64) -> i64 {
    let shifted = if month <= 2 { year - 1 } else { year };
    let era = shifted.div_euclid(400);
    let year_of_era = shifted - era * 400;
    let month_from_march = (month + 9) % 12;
    let day_of_year = (153 * month_from_march + 2) / 5 + day - 1;
    let day_of_era = year_of_era * 365 + year_of_era / 4 - year_of_era / 100 + day_of_year;
    era * 146097 + day_of_era - 719468
}

#[test]
fn dates_agree_with_the_closed_formula() {
    let mut day: u64 = 0;
    while day < 300_000 {
        let date = date_from_days(day);
        assert_eq!(days_to(date.year as i64, date.month as i64, date.day as i64), day as i64);
        assert!(1 <= date.month && date.month <= 12);
        assert!(1 <= date.day && date.day as u64 <= month_length(date.year, date.month));
        day += 7;
    }
}

#[test]
fn the_last_instant_has_a_date() {
    assert_eq!(Utils::rfc_1123_at(u64::MAX), "Thu, 09 Nov 584554051223 07:00:15 GMT");
    assert_eq!(Utils::rfc_8601_at(u64::MAX, ""), "584554051223-11-09T07:00:15Z+");
    assert_eq!(Utils::rfc_1123_at(4102444800), "Fri, 01 Jan 2100 00:00:00 GMT");
    assert_eq!(date_from_days(146096), Date { year: 2369, month: 12, day: 31 });
    assert_eq!(date_from_days(146097), Date { year: 2370, month: 1, day: 1 });
}

#[test]
fn a_reading_of_the_clock_is_written_or_left_empty() {
    assert_eq!(Utils::rfc_1123_of(Some(1700000000)), "Tue, 14 Nov 2023 22:13:20 GMT");
    assert_eq!(Utils::rfc_1123_of(Some(0)), "Thu, 01 Jan 1970 00:00:00 GMT");
    assert_eq!(Utils::rfc_1123_of(None), "");
    assert_eq!(Utils::rfc_8601_of(Some(1700000000), "00:00"), "2023-11-14T22:13:20Z+00:00");
    assert_eq!(Utils::rfc_8601_of(None, "00:00"), "");
    assert_eq!(Utils::timestamp_of(Some(1700000000)), "1700000000");
    assert_eq!(Utils::timestamp_of(Some(0)), "0");
    assert_eq!(Utils::timestamp_of(None), "");
}
