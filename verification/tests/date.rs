use xlsx2csv::date::{decode_date_time, DateTime, MAX_DAY_COUNT};
use xlsx2csv::serialize::format_date_time;

fn text_of(days: u32, secs: u32) -> String {
    format_date_time(&decode_date_time(days, secs))
}

#[test]
fn epoch_is_1899_12_30() {
    assert_eq!(text_of(0, 0), "1899-12-30T00:00:00");
}

#[test]
fn half_day_is_noon() {
    // The fractional day 1.5 splits into one whole day and 43200 seconds.
    assert_eq!(text_of(1, 43200), "1899-12-31T12:00:00");
    assert_eq!(text_of(0, 43200), "1899-12-30T12:00:00");
}

#[test]
fn forty_five_days_after_epoch() {
    let dt = decode_date_time(45, 0);
    assert_eq!(dt.year, 1900);
    assert_eq!(dt.month, 2);
    assert_eq!(dt.day, 13);
    assert_eq!(text_of(45, 0), "1900-02-13T00:00:00");
}

#[test]
fn keeps_the_legacy_leap_day_offset() {
    // Day count 60 (the phantom 1900-02-29 of the legacy format) lands on
    // 1900-02-28 when counted from the shifted epoch, as the legacy
    // convention demands for dates in early 1900.
    assert_eq!(text_of(60, 0), "1900-02-28T00:00:00");
    assert_eq!(text_of(61, 0), "1900-03-01T00:00:00");
}

#[test]
fn modern_dates_match_the_serial_convention() {
    assert_eq!(text_of(45000, 0), "2023-03-15T00:00:00");
    assert_eq!(text_of(36526, 0), "2000-01-01T00:00:00");
}

#[test]
fn time_of_day_components() {
    assert_eq!(text_of(2, 3661), "1900-01-01T01:01:01");
    assert_eq!(text_of(2, 86399), "1900-01-01T23:59:59");
}

#[test]
fn leap_years_have_february_29() {
    // 2024-02-29 is Excel serial 45351.
    assert_eq!(text_of(45351, 0), "2024-02-29T00:00:00");
    // 1900-03-01 minus one serial day is the phantom-absorbed 02-28, but
    // 2100 is no leap year: serial 73109 is 2100-02-28, 73110 is 03-01.
    assert_eq!(text_of(73109, 0), "2100-02-28T00:00:00");
    assert_eq!(text_of(73110, 0), "2100-03-01T00:00:00");
}

#[test]
fn largest_supported_day() {
    assert_eq!(text_of(MAX_DAY_COUNT, 86399), "9999-12-31T23:59:59");
}

#[test]
fn formatting_pads_components() {
    let dt = DateTime { year: 2023, month: 3, day: 5, hour: 4, minute: 7, second: 9 };
    assert_eq!(format_date_time(&dt), "2023-03-05T04:07:09");
}
