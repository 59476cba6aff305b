use chrono::NaiveDate;
use rating_period::instant::{
    convert_ymd_to_utc_ymd_hms, is_calendar_day, is_leap, require_single, utc_midnight,
    LocalResolution, UtcInstant,
};

#[test]
fn a_single_instant_is_accepted() {
    let at = UtcInstant { seconds: 1_700_000_000, nanos: 7 };
    assert_eq!(require_single(LocalResolution::Single(at)), Ok(at));
}

#[test]
fn an_ambiguous_local_time_is_refused() {
    let first = UtcInstant { seconds: 1_698_541_200, nanos: 0 };
    let second = UtcInstant { seconds: 1_698_544_800, nanos: 0 };
    assert_eq!(
        require_single(LocalResolution::Ambiguous(first, second)),
        Err(String::from("Given date was ambiguous"))
    );
}

#[test]
fn a_missing_local_time_is_refused() {
    assert_eq!(
        require_single(LocalResolution::Missing),
        Err(String::from("Given date was invalid"))
    );
}

#[test]
fn a_day_that_the_calendar_lacks_is_invalid() {
    let invalid = Err(String::from("Given date was invalid"));
    assert_eq!(convert_ymd_to_utc_ymd_hms(2023, 2, 30), invalid);
    assert_eq!(convert_ymd_to_utc_ymd_hms(2023, 2, 29), invalid);
    assert_eq!(convert_ymd_to_utc_ymd_hms(2100, 2, 29), invalid);
    assert_eq!(convert_ymd_to_utc_ymd_hms(2023, 4, 31), invalid);
    assert_eq!(convert_ymd_to_utc_ymd_hms(2023, 13, 1), invalid);
    assert_eq!(convert_ymd_to_utc_ymd_hms(2023, 0, 10), invalid);
    assert_eq!(convert_ymd_to_utc_ymd_hms(2023, 6, 0), invalid);
    assert_eq!(convert_ymd_to_utc_ymd_hms(2023, 6, 32), invalid);
    assert_eq!(convert_ymd_to_utc_ymd_hms(2023, u32::MAX, u32::MAX), invalid);
}

/// What holds of the conversion of a calendar day in every time zone.
fn check_conversion(year: i32, month: u32, day: u32) {
    let midnight = utc_midnight(year, month, day).unwrap();
    match convert_ymd_to_utc_ymd_hms(year, month, day) {
        Ok(at) => {
            assert!(at.seconds > midnight - 86_400, "{year}-{month}-{day}");
            assert!(at.seconds < midnight + 86_400, "{year}-{month}-{day}");
            assert_eq!(at.nanos, 0);
        }
        Err(message) => {
            assert!(message == "Given date was ambiguous" || message == "Given date was invalid");
        }
    }
}

#[test]
fn a_calendar_day_maps_to_an_instant_near_its_utc_midnight() {
    assert_eq!(utc_midnight(2024, 1, 15), Some(1_705_276_800));
    check_conversion(2024, 1, 15);
}

#[test]
fn a_leap_day_is_a_calendar_day() {
    assert_eq!(utc_midnight(2024, 2, 29), Some(1_709_164_800));
    check_conversion(2024, 2, 29);
}

#[test]
fn days_through_the_years_convert_near_their_utc_midnight() {
    for year in [1, 1582, 1900, 1969, 1970, 1999, 2000, 2023, 2024, 2038, 2100, 9999] {
        for (month, day) in [(1, 1), (3, 31), (6, 15), (10, 29), (11, 5), (12, 31)] {
            check_conversion(year, month, day);
        }
    }
}

#[test]
fn utc_midnight_counts_from_1970() {
    assert_eq!(utc_midnight(1970, 1, 1), Some(0));
    assert_eq!(utc_midnight(1970, 1, 2), Some(86_400));
    assert_eq!(utc_midnight(1969, 12, 31), Some(-86_400));
    assert_eq!(utc_midnight(1970, 2, 1), Some(31 * 86_400));
    assert_eq!(utc_midnight(1971, 1, 1), Some(365 * 86_400));
    assert_eq!(utc_midnight(1972, 3, 1), Some((365 + 365 + 31 + 29) * 86_400));
    assert_eq!(utc_midnight(2000, 3, 1), Some(951_868_800));
    assert_eq!(utc_midnight(2001, 9, 9), Some(999_993_600));
    assert_eq!(utc_midnight(1, 1, 1), Some(-62_135_596_800));
    assert_eq!(utc_midnight(0, 1, 1), Some(-62_167_219_200));
}

#[test]
fn utc_midnight_has_nothing_for_a_day_that_the_calendar_lacks() {
    assert_eq!(utc_midnight(2023, 2, 29), None);
    assert_eq!(utc_midnight(2023, 0, 1), None);
    assert_eq!(utc_midnight(2023, 13, 1), None);
    assert_eq!(utc_midnight(2023, 4, 31), None);
    assert_eq!(utc_midnight(2023, 4, 0), None);
}

#[test]
fn utc_midnight_reaches_the_ends_of_the_years() {
    let first = utc_midnight(i32::MIN, 1, 1).unwrap();
    let last = utc_midnight(i32::MAX, 12, 31).unwrap();
    assert!(first < -67_000_000_000_000_000);
    assert!(last > 67_000_000_000_000_000);
    assert_eq!(first % 86_400, 0);
    assert_eq!(last % 86_400, 0);
}

#[test]
fn utc_midnight_is_the_one_that_chrono_counts() {
    let years = [
        -262142, -100_000, -2001, -2000, -401, -400, -101, -100, -5, -4, -1, 0, 1, 4, 100, 400,
        1582, 1600, 1700, 1900, 1969, 1970, 1971, 1972, 1999, 2000, 2023, 2024, 2100, 2400,
        100_000, 262141,
    ];
    for year in years {
        for month in 0..=13 {
            for day in 0..=32 {
                let theirs = NaiveDate::from_ymd_opt(year, month, day)
                    .map(|date| date.and_hms_opt(0, 0, 0).unwrap().and_utc().timestamp());
                assert_eq!(utc_midnight(year, month, day), theirs, "{year}-{month}-{day}");
            }
        }
    }
}

#[test]
fn leap_years_follow_the_gregorian_rule() {
    for year in [-400, -4, 0, 4, 1600, 1996, 2000, 2024, 2400] {
        assert!(is_leap(year), "{year}");
    }
    for year in [-100, -1, 1, 1700, 1800, 1900, 2023, 2100, i32::MAX] {
        assert!(!is_leap(year), "{year}");
    }
    assert!(is_leap(i32::MIN));
}

#[test]
fn the_calendar_has_the_gregorian_months() {
    assert!(is_calendar_day(2023, 1, 31));
    assert!(is_calendar_day(2023, 2, 28));
    assert!(!is_calendar_day(2023, 2, 29));
    assert!(is_calendar_day(2024, 2, 29));
    assert!(!is_calendar_day(2024, 2, 30));
    assert!(is_calendar_day(2000, 2, 29));
    assert!(!is_calendar_day(1900, 2, 29));
    assert!(is_calendar_day(2023, 4, 30));
    assert!(!is_calendar_day(2023, 4, 31));
    assert!(is_calendar_day(2023, 12, 31));
    assert!(!is_calendar_day(2023, 12, 32));
    assert!(!is_calendar_day(2023, 0, 1));
    assert!(!is_calendar_day(2023, 13, 1));
    assert!(!is_calendar_day(2023, 1, 0));
    assert!(is_calendar_day(-4, 2, 29));
    assert!(!is_calendar_day(-1, 2, 29));
    assert!(is_calendar_day(0, 2, 29));
    assert!(is_calendar_day(i32::MIN, 2, 29));
    assert!(!is_calendar_day(i32::MAX, 2, 29));
}

#[test]
fn the_calendar_is_the_one_that_chrono_keeps() {
    let years = [
        -262142, -100_000, -2001, -2000, -401, -400, -101, -100, -5, -4, -1, 0, 1, 4, 100, 400,
        1582, 1600, 1700, 1900, 1970, 1999, 2000, 2023, 2024, 2100, 2400, 100_000, 262141,
    ];
    for year in years {
        for month in 0..=13 {
            for day in 0..=32 {
                assert_eq!(
                    is_calendar_day(year, month, day),
                    NaiveDate::from_ymd_opt(year, month, day).is_some(),
                    "{year}-{month}-{day}"
                );
            }
        }
    }
}
