use std::collections::VecDeque;

use adhan_clock::prayer::{adhan_action, AdhanAction, Prayer, SUNRISE_MARK_SECONDS};
use adhan_clock::reload::LoadGeneration;
use adhan_clock::schedule::{
    calendar_timings, countdown_text, day_timings, drop_past, first_six, on_tick,
    refresh_day_times, upcoming_schedule, DayRecord, TickOutcome, Timing,
};

const JAN_1_2025_UTC: i64 = 1_735_689_600;

fn quoted(s: &str) -> String {
    format!("\"{}\"", s)
}

fn day(date: &str, times: [&str; 6]) -> DayRecord {
    DayRecord {
        timings: times.iter().map(|t| quoted(&format!("{} (CST)", t))).collect(),
        readable: quoted(date),
    }
}

fn jan_first() -> DayRecord {
    day("01 Jan 2025", ["05:12", "06:40", "12:05", "14:58", "17:30", "18:55"])
}

fn jan_second() -> DayRecord {
    day("02 Jan 2025", ["05:13", "06:41", "12:06", "14:59", "17:31", "18:56"])
}

fn at(hour: i64, minute: i64) -> i64 {
    // 2025-01-01 in UTC-06:00.
    JAN_1_2025_UTC + 6 * 3600 + hour * 3600 + minute * 60
}

fn schedule_of(times: &[(Prayer, i64)]) -> VecDeque<Timing> {
    times.iter().map(|&(prayer, time)| Timing { prayer, time }).collect()
}

#[test]
fn a_day_is_read_in_its_zone() {
    let v = day_timings(&jan_first(), "-0600").unwrap();
    assert_eq!(v.len(), 6);
    assert_eq!(v[0], Timing { prayer: Prayer::Fajr, time: at(5, 12) });
    assert_eq!(v[0].time, 1_735_729_920);
    assert_eq!(v[1], Timing { prayer: Prayer::Sunrise, time: at(6, 40) });
    assert_eq!(v[5], Timing { prayer: Prayer::Isha, time: at(18, 55) });
}

#[test]
fn the_zone_moves_the_instant() {
    let west = day_timings(&jan_first(), "-0600").unwrap();
    let utc = day_timings(&jan_first(), "+0000").unwrap();
    assert_eq!(west[0].time - utc[0].time, 6 * 3600);
}

#[test]
fn a_short_time_text_makes_the_day_unreadable() {
    let mut d = jan_first();
    d.timings[3] = "null".to_string();
    assert!(day_timings(&d, "-0600").is_none());
}

#[test]
fn a_day_needs_six_times() {
    let mut d = jan_first();
    d.timings.pop();
    assert!(day_timings(&d, "-0600").is_none());
}

#[test]
fn an_unparsable_date_makes_the_day_unreadable() {
    let mut d = jan_first();
    d.readable = quoted("31 Foo 2025");
    assert!(day_timings(&d, "-0600").is_none());
}

#[test]
fn days_follow_one_another_through_the_day() {
    let q = calendar_timings(&vec![jan_first(), jan_second()], "-0600").unwrap();
    assert_eq!(q.len(), 12);
    for (i, t) in q.iter().enumerate() {
        assert_eq!(t.prayer.index(), i % 6);
    }
    assert_eq!(q[6], Timing { prayer: Prayer::Fajr, time: at(5, 13) + 24 * 3600 });
}

#[test]
fn the_schedule_starts_at_the_first_upcoming_time() {
    let days = vec![jan_first(), jan_second()];
    let q = upcoming_schedule(&days, "-0600", at(12, 5), 0).unwrap();
    assert_eq!(q[0].prayer, Prayer::Dhuhr);
    assert_eq!(q.len(), 10);
    // A fraction of a second past the time of Dhuhr: Dhuhr is past.
    let q = upcoming_schedule(&days, "-0600", at(12, 5), 1).unwrap();
    assert_eq!(q[0].prayer, Prayer::Asr);
    // Past the last time of the calendar, there is no schedule.
    assert!(upcoming_schedule(&days, "-0600", at(23, 0) + 24 * 3600, 0).is_none());
}

#[test]
fn drop_past_keeps_the_rest_in_order() {
    let mut q = schedule_of(&[(Prayer::Fajr, 10), (Prayer::Sunrise, 20), (Prayer::Dhuhr, 30)]);
    drop_past(&mut q, 20, 0);
    assert_eq!(q, schedule_of(&[(Prayer::Sunrise, 20), (Prayer::Dhuhr, 30)]));
}

#[test]
fn a_tick_before_the_time_waits() {
    let mut q = schedule_of(&[(Prayer::Fajr, 100), (Prayer::Sunrise, 200)]);
    assert_eq!(on_tick(&mut q, 99), TickOutcome::Waiting);
    assert_eq!(q.len(), 2);
}

#[test]
fn a_tick_at_the_time_announces_it() {
    let mut q = schedule_of(&[(Prayer::Fajr, 100), (Prayer::Sunrise, 200)]);
    assert_eq!(on_tick(&mut q, 100), TickOutcome::Due { prayer: Prayer::Fajr, reload: true });
    assert_eq!(q, schedule_of(&[(Prayer::Sunrise, 200)]));
}

#[test]
fn a_tick_up_to_two_minutes_late_still_announces() {
    let mut q = schedule_of(&[(Prayer::Asr, 100), (Prayer::Maghrib, 1000)]);
    assert_eq!(on_tick(&mut q, 219), TickOutcome::Due { prayer: Prayer::Asr, reload: true });
}

#[test]
fn a_tick_two_minutes_late_skips_the_past() {
    let mut q = schedule_of(&[
        (Prayer::Asr, 100),
        (Prayer::Maghrib, 150),
        (Prayer::Isha, 220),
        (Prayer::Fajr, 400),
    ]);
    assert_eq!(on_tick(&mut q, 220), TickOutcome::Skipped);
    assert_eq!(q, schedule_of(&[(Prayer::Isha, 220), (Prayer::Fajr, 400)]));
}

#[test]
fn a_long_schedule_is_not_reloaded() {
    let mut q: VecDeque<Timing> = (0..200)
        .map(|i| Timing { prayer: Prayer::at(i % 6), time: 100 + i as i64 })
        .collect();
    assert_eq!(on_tick(&mut q, 100), TickOutcome::Due { prayer: Prayer::Fajr, reload: false });
    let mut q: VecDeque<Timing> = (0..101)
        .map(|i| Timing { prayer: Prayer::at(i % 6), time: 100 + i as i64 })
        .collect();
    assert_eq!(on_tick(&mut q, 100), TickOutcome::Due { prayer: Prayer::Fajr, reload: true });
}

#[test]
fn countdown_shows_hours_minutes_and_seconds() {
    let next = Timing { prayer: Prayer::Dhuhr, time: 10_000 };
    assert_eq!(countdown_text(next, 10_000 - 3 * 3600 - 5 * 60 - 7), "Dhuhr in\n03:05:07");
    assert_eq!(countdown_text(next, 10_000), "Fajr in\n00:00:00".replace("Fajr", "Dhuhr"));
    assert_eq!(countdown_text(next, 10_000 - 123 * 3600), "Dhuhr in\n123:00:00");
}

#[test]
fn countdown_past_the_time_is_negative() {
    let next = Timing { prayer: Prayer::Isha, time: 1000 };
    assert_eq!(countdown_text(next, 1090), "Isha in\n00:-1:-30");
    assert_eq!(countdown_text(next, 1000 + 3600 + 61), "Isha in\n-1:-1:-1");
}

#[test]
fn refresh_puts_each_time_in_its_slot() {
    let q = schedule_of(&[
        (Prayer::Asr, 4),
        (Prayer::Maghrib, 5),
        (Prayer::Isha, 6),
        (Prayer::Fajr, 7),
        (Prayer::Sunrise, 8),
        (Prayer::Dhuhr, 9),
        (Prayer::Asr, 10),
    ]);
    let mut current = vec![Timing { prayer: Prayer::Fajr, time: 0 }; 6];
    let now_in = refresh_day_times(&q, &mut current);
    assert_eq!(now_in, Prayer::Dhuhr);
    for (slot, t) in current.iter().enumerate() {
        assert_eq!(t.prayer.index(), slot);
    }
    assert_eq!(current[3], Timing { prayer: Prayer::Asr, time: 4 });
    assert_eq!(current[0], Timing { prayer: Prayer::Fajr, time: 7 });
}

#[test]
fn the_first_six_are_the_next_six() {
    let q = schedule_of(&[
        (Prayer::Isha, 1),
        (Prayer::Fajr, 2),
        (Prayer::Sunrise, 3),
        (Prayer::Dhuhr, 4),
        (Prayer::Asr, 5),
        (Prayer::Maghrib, 6),
        (Prayer::Isha, 7),
    ]);
    let v = first_six(&q);
    assert_eq!(v.len(), 6);
    assert_eq!(v[0].time, 1);
    assert_eq!(v[5].time, 6);
}

#[test]
fn only_the_latest_load_commits() {
    let mut g = LoadGeneration::new();
    let first = g.begin();
    assert!(g.may_commit(first));
    let second = g.begin();
    assert!(!g.may_commit(first));
    assert!(g.may_commit(second));
}

#[test]
fn each_prayer_has_its_action() {
    assert_eq!(adhan_action(Prayer::Sunrise), AdhanAction::MarkSunrise);
    assert_eq!(adhan_action(Prayer::Fajr), AdhanAction::PlayFajrAdhan);
    assert_eq!(adhan_action(Prayer::Maghrib), AdhanAction::PlayAdhan);
    assert_eq!(Prayer::Maghrib.name(), "Maghrib");
    assert_eq!(Prayer::at(3), Prayer::Asr);
}

#[test]
fn the_sunrise_mark_lasts_thirty_minutes() {
    assert_eq!(SUNRISE_MARK_SECONDS, 30 * 60);
}

#[test]
fn the_last_load_to_begin_is_the_one_that_stays() {
    let mut g = LoadGeneration::new();
    let mut store = schedule_of(&[(Prayer::Fajr, 1)]);
    let first = g.begin();
    let second = g.begin();
    assert!(g.commit(second, &mut store, schedule_of(&[(Prayer::Dhuhr, 2)])));
    assert!(!g.commit(first, &mut store, schedule_of(&[(Prayer::Asr, 3)])));
    assert_eq!(store, schedule_of(&[(Prayer::Dhuhr, 2)]));
}

#[test]
fn a_run_of_ticks_announces_each_timing_once_in_order() {
    let mut q = schedule_of(&[
        (Prayer::Fajr, 100),
        (Prayer::Sunrise, 200),
        (Prayer::Dhuhr, 300),
        (Prayer::Asr, 1000),
        (Prayer::Maghrib, 2000),
    ]);
    let mut sent = Vec::new();
    for now in [99, 100, 101, 150, 250, 500, 999, 1000, 1000, 1001] {
        if let TickOutcome::Due { prayer, .. } = on_tick(&mut q, now) {
            sent.push((prayer, now));
        }
    }
    assert_eq!(sent, vec![(Prayer::Fajr, 100), (Prayer::Sunrise, 250), (Prayer::Asr, 1000)]);
    assert_eq!(q, schedule_of(&[(Prayer::Maghrib, 2000)]));
}
