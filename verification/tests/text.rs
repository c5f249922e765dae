use file_tree::entry::{ContentType, FileContent};
use file_tree::stamp::{millis_from_seconds, split_millis, time_text};
use file_tree::text::decimal;
use file_tree::volume::data_volume_str;

#[test]
fn decimal_writes_numbers_without_leading_zeros() {
    assert_eq!(decimal(0), "0");
    assert_eq!(decimal(7), "7");
    assert_eq!(decimal(10), "10");
    assert_eq!(decimal(1234567890), "1234567890");
    assert_eq!(decimal(usize::MAX), usize::MAX.to_string());
}

#[test]
fn small_volumes_are_given_in_bytes() {
    assert_eq!(data_volume_str(0), "0 Byte");
    assert_eq!(data_volume_str(17), "17 Byte");
    assert_eq!(data_volume_str(1024), "1024 Byte");
}

#[test]
fn volumes_above_a_unit_are_given_in_it_rounded_down() {
    assert_eq!(data_volume_str(1025), "1 kB");
    assert_eq!(data_volume_str(2047), "1 kB");
    assert_eq!(data_volume_str(2048), "2 kB");
    assert_eq!(data_volume_str(1048576), "1024 kB");
    assert_eq!(data_volume_str(1048577), "1 MB");
    assert_eq!(data_volume_str(3 * 1048576 + 5), "3 MB");
    assert_eq!(data_volume_str(1073742000), "1024 MB");
    assert_eq!(data_volume_str(1073742001), "1 GB");
    assert_eq!(data_volume_str(5 * 1073742000 + 1), "5 GB");
}

#[test]
fn milliseconds_split_into_seconds_and_nanoseconds() {
    assert_eq!(split_millis(0), (0, 0));
    assert_eq!(split_millis(999), (0, 999_000_000));
    assert_eq!(split_millis(1_000), (1, 0));
    assert_eq!(split_millis(1_431_648_000_123), (1_431_648_000, 123_000_000));
    assert_eq!(split_millis(i64::MAX), (9_223_372_036_854_775, 807_000_000));
}

#[test]
fn milliseconds_before_the_epoch_split_as_the_machine_divides() {
    assert_eq!(split_millis(-1_000), (-1, 0));
    assert_eq!(split_millis(-5_000), (-5, 0));
    assert_eq!(split_millis(-1), (0, 4_293_967_296));
    assert_eq!(split_millis(-1_500), (-1, 3_794_967_296));
    assert_eq!(split_millis(i64::MIN), (-9_223_372_036_854_775, 3_486_967_296));
    for millis in [-1i64, -999, -1_000, -1_001, -1_500, i64::MIN, i64::MIN + 1] {
        let expected = (millis / 1000, ((millis % 1_000) * 1_000_000) as u32);
        assert_eq!(split_millis(millis), expected);
    }
}

#[test]
fn seconds_become_milliseconds() {
    assert_eq!(millis_from_seconds(0), 0);
    assert_eq!(millis_from_seconds(1), 1_000);
    assert_eq!(millis_from_seconds(1_700_000_000), 1_700_000_000_000);
    assert_eq!(millis_from_seconds(9_223_372_036_854_775), 9_223_372_036_854_775_000);
}

#[test]
fn seconds_too_large_for_milliseconds_are_held_at_the_largest() {
    assert_eq!(millis_from_seconds(9_223_372_036_854_776), i64::MAX);
    assert_eq!(millis_from_seconds(u64::MAX), i64::MAX);
}

#[test]
fn time_text_gives_the_utc_date_and_time() {
    assert_eq!(time_text(0), Some("1970-01-01 00:00:00 UTC".to_string()));
    assert_eq!(time_text(1_431_648_000_000), Some("2015-05-15 00:00:00 UTC".to_string()));
    assert_eq!(time_text(1_431_648_000_123), Some("2015-05-15 00:00:00.123 UTC".to_string()));
    assert_eq!(time_text(-1_000), Some("1969-12-31 23:59:59 UTC".to_string()));
}

#[test]
fn time_text_of_a_broken_second_before_the_epoch_is_none() {
    assert_eq!(time_text(-1), None);
    assert_eq!(time_text(-1_500), None);
}

#[test]
fn time_text_is_none_beyond_the_years_that_can_be_written() {
    assert_eq!(time_text(i64::MAX), None);
}

#[test]
fn entries_give_their_times_as_text() {
    let mut e = FileContent::new("/a/b", Some("/a".to_string()), 1, ContentType::FILE);
    assert_eq!(e.modification_text(), Some("1970-01-01 00:00:00 UTC".to_string()));
    assert_eq!(e.access_text(), Some("1970-01-01 00:00:00 UTC".to_string()));
    e.modification_time = 1_431_648_000_000;
    e.access_time = 1_431_648_001_500;
    assert_eq!(e.modification_text(), Some("2015-05-15 00:00:00 UTC".to_string()));
    assert_eq!(e.access_text(), Some("2015-05-15 00:00:01.500 UTC".to_string()));
}
