use xcount::time::{format_timestamp, is_leap, timestamp};

#[test]
fn epoch_is_first_of_january_1970() {
    assert_eq!(format_timestamp(0), "1970-01-01-00:00");
}

#[test]
fn last_minute_of_first_day() {
    assert_eq!(format_timestamp(86399), "1970-01-01-23:59");
}

#[test]
fn seconds_are_dropped() {
    assert_eq!(format_timestamp(59), "1970-01-01-00:00");
    assert_eq!(format_timestamp(60), "1970-01-01-00:01");
}

#[test]
fn first_of_march_1970() {
    assert_eq!(format_timestamp(86400 * 59), "1970-03-01-00:00");
}

#[test]
fn leap_day_2000() {
    assert_eq!(format_timestamp(951782400), "2000-02-29-00:00");
}

#[test]
fn mid_2024_afternoon() {
    assert_eq!(format_timestamp(1718378942), "2024-06-14-15:29");
}

#[test]
fn end_of_2099() {
    assert_eq!(format_timestamp(4102444740), "2099-12-31-23:59");
}

#[test]
fn end_of_9999() {
    assert_eq!(format_timestamp(253402300799), "9999-12-31-23:59");
}

#[test]
fn day_count_wraps_at_32_bits() {
    let wrap: u64 = (1u64 << 32) * 86400;
    assert_eq!(format_timestamp(wrap + 3600), "1970-01-01-01:00");
}

#[test]
fn leap_years() {
    assert!(is_leap(2000));
    assert!(is_leap(2024));
    assert!(!is_leap(1900));
    assert!(!is_leap(2023));
    assert!(is_leap(2400));
}

#[test]
fn current_stamp_has_the_shape() {
    let stamp = timestamp().expect("clock after 1970");
    let chars: Vec<char> = stamp.chars().collect();
    assert_eq!(chars.len(), 16);
    assert_eq!(chars[4], '-');
    assert_eq!(chars[7], '-');
    assert_eq!(chars[10], '-');
    assert_eq!(chars[13], ':');
}

/// Civil date from a day count since 1970-01-01 (proleptic Gregorian),
/// computed by era arithmetic rather than by walking years and months.
fn civil_from_days(z: i64) -> (i64, i64, i64) {
    let z = z + 719468;
    let era = z.div_euclid(146097);
    let doe = z - era * 146097;
    let yoe = (doe - doe / 1460 + doe / 36524 - doe / 146096) / 365;
    let y = yoe + era * 400;
    let doy = doe - (365 * yoe + yoe / 4 - yoe / 100);
    let mp = (5 * doy + 2) / 153;
    let d = doy - (153 * mp + 2) / 5 + 1;
    let m = if mp < 10 { mp + 3 } else { mp - 9 };
    (if m <= 2 { y + 1 } else { y }, m, d)
}

#[test]
fn every_stamp_names_its_calendar_day() {
    let mut day: i64 = 0;
    while day < 3_000_000 {
        let (y, m, d) = civil_from_days(day);
        let secs = (day as u64) * 86400 + 3 * 3600 + 7 * 60;
        assert_eq!(format_timestamp(secs), format!("{y}-{m:02}-{d:02}-03:07"), "day {day}");
        day += 997;
    }
}

#[test]
fn stamps_have_sixteen_characters_and_sort_as_times() {
    let mut previous = format_timestamp(0);
    let mut secs: u64 = 0;
    while secs < 253402300800 {
        let stamp = format_timestamp(secs);
        assert_eq!(stamp.chars().count(), 16, "{secs}");
        assert!(previous <= stamp, "{previous} > {stamp}");
        previous = stamp;
        secs += 9_876_543;
    }
    assert_eq!(format_timestamp(253402300799).chars().count(), 16);
}
