//! The Julian day conversions against known calendar facts.

use covid19db::dateutil::day_to_ymd;
use covid19db::dateutil::format_date;
use covid19db::dateutil::leap_year;
use covid19db::dateutil::month_length;
use covid19db::dateutil::ymd_to_day;
use covid19db::dateutil::JULIAN_ANCHOR;

#[test]
fn known_julian_days() {
    assert_eq!(ymd_to_day(2015, 3, 14), 2457096);
    assert_eq!(ymd_to_day(1970, 1, 1), 2440588);
    assert_eq!(ymd_to_day(1000, 1, 1), JULIAN_ANCHOR);
    assert_eq!(ymd_to_day(2020, 7, 19), 2459050);
    assert_eq!(ymd_to_day(9999, 12, 31), 5373484);
}

#[test]
fn round_trip_both_ways() {
    assert_eq!(day_to_ymd(2457096), (2015, 3, 14));
    assert_eq!(day_to_ymd(2440588), (1970, 1, 1));
    let d = ymd_to_day(1999, 12, 31);
    assert_eq!(day_to_ymd(d), (1999, 12, 31));
    assert_eq!(day_to_ymd(d + 1), (2000, 1, 1));
}

#[test]
fn leap_day_boundary() {
    let feb29 = ymd_to_day(2020, 2, 29);
    assert_eq!(day_to_ymd(feb29 + 1), (2020, 3, 1));
    let feb28 = ymd_to_day(2021, 2, 28);
    assert_eq!(day_to_ymd(feb28 + 1), (2021, 3, 1));
}

#[test]
fn leap_year_rule() {
    assert!(leap_year(2020));
    assert!(!leap_year(2021));
    assert!(!leap_year(1900));
    assert!(leap_year(2000));
    assert_eq!(month_length(2020, 2), 29);
    assert_eq!(month_length(2021, 2), 28);
    assert_eq!(month_length(2021, 12), 31);
}

#[test]
fn date_formatting() {
    assert_eq!(format_date(2015, 3, 14), "2015-03-14");
    assert_eq!(format_date(2020, 12, 1), "2020-12-01");
    assert_eq!(format_date(1000, 1, 1), "1000-01-01");
}
