use chrono::{Datelike, TimeZone};
use adhan_clock::clock::{zone_changed, 
    clock_face, clock_text, date_text, local_year, meridiem_text, next_second, offset_text,
    prayer_row, short_time_text, zone_text, LocalTime,
};
use adhan_clock::prayer::Prayer;
use adhan_clock::schedule::Timing;
use adhan_clock::text::{push_int, push_int_pad2, push_two_digits};

fn local(year: i32, month: u32, day: u32, hour: u32, minute: u32, second: u32, weekday: u32) -> LocalTime {
    LocalTime { year, month, day, hour, minute, second, weekday, offset_seconds: 0 }
}

#[test]
fn integers_are_written_in_decimal() {
    let mut s = String::new();
    push_int(&mut s, -1234);
    push_int(&mut s, 0);
    push_int(&mut s, i64::MIN);
    assert_eq!(s, format!("-12340{}", i64::MIN));
}

#[test]
fn two_digit_fields_are_zero_padded() {
    let mut s = String::new();
    push_two_digits(&mut s, 7);
    push_two_digits(&mut s, 42);
    push_two_digits(&mut s, 123);
    assert_eq!(s, "0742123");
    let mut s = String::new();
    push_int_pad2(&mut s, 5);
    push_int_pad2(&mut s, -5);
    push_int_pad2(&mut s, -15);
    assert_eq!(s, format!("{:0>2}{:0>2}{:0>2}", 5, -5, -15));
}

#[test]
fn the_clock_runs_on_a_twelve_hour_dial() {
    assert_eq!(clock_text(&local(2025, 1, 1, 0, 5, 9, 3)), "12:05:09 AM");
    assert_eq!(clock_text(&local(2025, 1, 1, 12, 0, 0, 3)), "12:00:00 PM");
    assert_eq!(clock_text(&local(2025, 1, 1, 13, 59, 59, 3)), "01:59:59 PM");
    assert_eq!(short_time_text(&local(2025, 1, 1, 23, 7, 0, 3)), "11:07");
    assert_eq!(meridiem_text(&local(2025, 1, 1, 11, 7, 0, 3)), "AM");
}

#[test]
fn the_date_shows_weekday_month_day_and_year() {
    assert_eq!(date_text(&local(2025, 1, 1, 0, 0, 0, 3)), "Wed 01-01-2025");
    assert_eq!(date_text(&local(7, 12, 31, 0, 0, 0, 0)), "Sun 12-31-0007");
    assert_eq!(date_text(&local(12345, 2, 3, 0, 0, 0, 6)), "Sat 02-03-+12345");
    assert_eq!(date_text(&local(-5, 2, 3, 0, 0, 0, 5)), "Fri 02-03--0005");
}

#[test]
fn offsets_show_sign_hours_and_minutes() {
    assert_eq!(offset_text(0), "+0000");
    assert_eq!(offset_text(-6 * 3600), "-0600");
    assert_eq!(offset_text(5 * 3600 + 30 * 60), "+0530");
    assert_eq!(offset_text(5 * 3600 + 30 * 60 + 31), "+0531");
    assert_eq!(offset_text(-(13 * 3600 + 45 * 60)), "-1345");
}

#[test]
fn the_machine_zone_gives_well_formed_texts() {
    let face = clock_face(1_735_689_600).unwrap();
    assert_eq!(face.time.len(), 11);
    assert!(face.time.ends_with("AM") || face.time.ends_with("PM"));
    assert_eq!(face.date.len(), 14);
    assert_eq!(face.zone.len(), 5);
    assert_eq!(zone_text(1_735_689_600).unwrap(), face.zone);
    let year = local_year(1_735_689_600).unwrap();
    assert!(year == 2024 || year == 2025);
}

#[test]
fn a_prayer_row_names_the_prayer() {
    let row = prayer_row(&Timing { prayer: Prayer::Asr, time: 1_735_689_600 }).unwrap();
    assert_eq!(row.prayer, "Asr");
    assert_eq!(row.time.len(), 5);
    assert!(row.ampm == "AM" || row.ampm == "PM");
}

#[test]
fn seconds_are_handed_on_once() {
    assert_eq!(next_second(Some(10), 10), None);
    assert_eq!(next_second(Some(10), 11), Some(11));
    assert_eq!(next_second(None, 10), Some(10));
}

#[test]
fn times_beyond_the_calendar_are_not_shown() {
    assert!(clock_face(i64::MAX).is_none());
    assert!(zone_text(i64::MIN).is_none());
    assert!(local_year(i64::MAX).is_none());
    assert!(prayer_row(&Timing { prayer: Prayer::Fajr, time: i64::MAX }).is_none());
    assert!(clock_face(-6_000_000_000_000).is_some());
    assert!(local_year(6_000_000_000_000).is_some());
}

#[test]
fn the_face_is_the_instant_in_the_machine_zone() {
    for ts in [0i64, 1_735_689_600, 1_751_328_000, 946_684_799, -86_400 * 365] {
        let local = chrono::Local.timestamp_opt(ts, 0).unwrap();
        let face = clock_face(ts).unwrap();
        assert_eq!(face.time, local.format("%I:%M:%S %p").to_string());
        assert_eq!(face.date, local.format("%a %m-%d-%Y").to_string());
        assert_eq!(face.zone, local.format("%z").to_string());
        assert_eq!(local_year(ts).unwrap(), local.year());
        let row = prayer_row(&Timing { prayer: Prayer::Isha, time: ts }).unwrap();
        assert_eq!(row.time, local.format("%I:%M").to_string());
        assert_eq!(row.ampm, local.format("%p").to_string());
    }
}

#[test]
fn a_new_zone_is_noticed() {
    assert!(zone_changed(&"+0100".to_string(), &"+0200".to_string()));
    assert!(!zone_changed(&"+0100".to_string(), &"+0100".to_string()));
}
