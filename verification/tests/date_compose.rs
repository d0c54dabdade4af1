use event_reminder::db::DB;
use event_reminder::error::Error;
use event_reminder::event::Event;
use event_reminder::timestamp::validate_date;

#[test]
fn rejects_april_31() {
    assert_eq!(Event::create_start_at(2023, 4, 31, 12, 0, 0), Err(Error::InvalidDate));
}

#[test]
fn february_29_exists_only_in_leap_years() {
    assert!(Event::create_start_at(2024, 2, 29, 0, 0, 0).is_ok());
    assert_eq!(Event::create_start_at(2023, 2, 29, 0, 0, 0), Err(Error::InvalidDate));
    assert!(Event::create_start_at(2000, 2, 29, 0, 0, 0).is_ok());
    assert_eq!(Event::create_start_at(1900, 2, 29, 0, 0, 0), Err(Error::InvalidDate));
}

#[test]
fn rejects_out_of_range_time_components() {
    assert_eq!(Event::create_start_at(2023, 1, 1, 24, 0, 0), Err(Error::InvalidDate));
    assert_eq!(Event::create_start_at(2023, 1, 1, 0, 60, 0), Err(Error::InvalidDate));
    assert_eq!(Event::create_start_at(2023, 1, 1, 0, 0, 60), Err(Error::InvalidDate));
    assert_eq!(Event::create_start_at(2023, 0, 1, 0, 0, 0), Err(Error::InvalidDate));
    assert_eq!(Event::create_start_at(2023, 13, 1, 0, 0, 0), Err(Error::InvalidDate));
    assert_eq!(Event::create_start_at(2023, 1, 0, 0, 0, 0), Err(Error::InvalidDate));
}

#[test]
fn known_moments_have_known_second_counts() {
    assert_eq!(Event::create_start_at(1970, 1, 1, 0, 0, 0).unwrap().secs, 0);
    assert_eq!(Event::create_start_at(1970, 1, 2, 0, 0, 0).unwrap().secs, 86_400);
    assert_eq!(Event::create_start_at(1969, 12, 31, 23, 59, 59).unwrap().secs, -1);
    assert_eq!(Event::create_start_at(2000, 1, 1, 0, 0, 0).unwrap().secs, 946_684_800);
    assert_eq!(
        Event::create_start_at(2024, 2, 29, 12, 30, 15).unwrap().secs,
        1_709_209_815
    );
}

#[test]
fn month_ends_are_respected() {
    assert!(Event::create_start_at(2023, 1, 31, 0, 0, 0).is_ok());
    assert!(Event::create_start_at(2023, 6, 30, 0, 0, 0).is_ok());
    assert_eq!(Event::create_start_at(2023, 6, 31, 0, 0, 0), Err(Error::InvalidDate));
    assert_eq!(Event::create_start_at(2023, 2, 30, 0, 0, 0), Err(Error::InvalidDate));
    assert!(Event::create_start_at(2024, 12, 31, 23, 59, 59).is_ok());
}

#[test]
fn validate_date_checks_the_bound() {
    assert!(validate_date(12, 12));
    assert!(validate_date(12, 0));
    assert!(!validate_date(12, 13));
    assert!(validate_date(59, 59));
    assert!(!validate_date(59, 60));
}

#[test]
fn store_directory_name() {
    assert_eq!(DB::get_path(), "db");
}

#[test]
fn record_key_stops_at_the_first_dot() {
    assert_eq!(DB::record_key("abc.json"), "abc");
    assert_eq!(DB::record_key("a.b.c"), "a");
    assert_eq!(DB::record_key("no-extension"), "no-extension");
    assert_eq!(DB::record_key(".hidden"), "");
    assert_eq!(DB::record_key(""), "");
}
