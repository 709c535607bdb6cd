//! Wall-clock texts: the time and date that the clock shows, the time of
//! each prayer, and the UTC offset of the machine's time zone.

use chrono::{Datelike, Timelike};
use vstd::prelude::*;

use crate::schedule::Timing;
use crate::text::{nat_text, push_char, push_nat, push_two_digits, two_digits};

verus! {

/// A point in time as the machine's time zone shows it.
#[derive(Clone, Copy, Debug, PartialEq, Eq, Structural)]
pub struct LocalTime {
    pub year: i32,
    /// 1 to 12.
    pub month: u32,
    /// 1 to 31.
    pub day: u32,
    /// 0 to 23.
    pub hour: u32,
    pub minute: u32,
    pub second: u32,
    /// Days since the last Sunday, 0 to 6.
    pub weekday: u32,
    /// Seconds that the local time is ahead of UTC.
    pub offset_seconds: i32,
}

impl LocalTime {
    /// The fields lie in their calendar ranges.
    pub open spec fn wf(self) -> bool {
        &&& 1 <= self.month <= 12
        &&& 1 <= self.day <= 31
        &&& self.hour < 24
        &&& self.minute < 60
        &&& self.second < 60
        &&& self.weekday < 7
        &&& -86400 < self.offset_seconds < 86400
    }
}

/// Hour on a 12-hour dial: 12, 1, ..., 11.
pub open spec fn hour12(hour: nat) -> nat {
    if hour % 12 == 0 {
        12
    } else {
        hour % 12
    }
}

/// `AM` before noon, `PM` from noon on.
pub open spec fn meridiem(hour: nat) -> Seq<char> {
    if hour >= 12 {
        seq!['P', 'M']
    } else {
        seq!['A', 'M']
    }
}

/// Three-letter English name of the weekday (0 is Sunday).
pub open spec fn weekday_abbrev(weekday: nat) -> Seq<char> {
    if weekday == 0 {
        seq!['S', 'u', 'n']
    } else if weekday == 1 {
        seq!['M', 'o', 'n']
    } else if weekday == 2 {
        seq!['T', 'u', 'e']
    } else if weekday == 3 {
        seq!['W', 'e', 'd']
    } else if weekday == 4 {
        seq!['T', 'h', 'u']
    } else if weekday == 5 {
        seq!['F', 'r', 'i']
    } else {
        seq!['S', 'a', 't']
    }
}

/// `count` zero characters.
pub open spec fn zeros(count: nat) -> Seq<char> {
    Seq::new(count, |i: int| '0')
}

/// `s` padded with zeros on the left to `width` characters.
pub open spec fn zero_pad(s: Seq<char>, width: nat) -> Seq<char> {
    if s.len() < width {
        zeros((width - s.len()) as nat) + s
    } else {
        s
    }
}

/// The year as `%Y` writes it: four digits from 0 to 9999, and otherwise a
/// sign followed by at least four digits.
pub open spec fn year_text(year: int) -> Seq<char> {
    if 0 <= year <= 9999 {
        zero_pad(nat_text(year as nat), 4)
    } else if year < 0 {
        seq!['-'] + zero_pad(nat_text((-year) as nat), 4)
    } else {
        seq!['+'] + zero_pad(nat_text(year as nat), 4)
    }
}

/// `hh:mm:ss AM` on a 12-hour dial (`%I:%M:%S %p`).
pub open spec fn clock_spec(t: LocalTime) -> Seq<char> {
    two_digits(hour12(t.hour as nat)) + seq![':'] + two_digits(t.minute as nat) + seq![':']
        + two_digits(t.second as nat) + seq![' '] + meridiem(t.hour as nat)
}

/// `hh:mm` on a 12-hour dial (`%I:%M`).
pub open spec fn short_time_spec(t: LocalTime) -> Seq<char> {
    two_digits(hour12(t.hour as nat)) + seq![':'] + two_digits(t.minute as nat)
}

/// `Sun 01-31-2025` (`%a %m-%d-%Y`).
pub open spec fn date_spec(t: LocalTime) -> Seq<char> {
    weekday_abbrev(t.weekday as nat) + seq![' '] + two_digits(t.month as nat) + seq!['-']
        + two_digits(t.day as nat) + seq!['-'] + year_text(t.year as int)
}

/// Whole minutes of an offset of `magnitude` seconds, rounded to the nearest.
pub open spec fn rounded_minutes(magnitude: nat) -> nat {
    (magnitude + 30) / 60
}

/// UTC offset as `%z` writes it: sign, then hours and minutes as two digits
/// each, the minutes rounded to the nearest.
pub open spec fn offset_spec(offset_seconds: int) -> Seq<char> {
    let magnitude: nat = if offset_seconds < 0 {
        (-offset_seconds) as nat
    } else {
        offset_seconds as nat
    };
    let minutes = rounded_minutes(magnitude);
    (if offset_seconds < 0 {
        seq!['-']
    } else {
        seq!['+']
    }) + two_digits(minutes / 60) + two_digits(minutes % 60)
}

/// Appends `AM` or `PM`.
fn push_meridiem(s: &mut String, hour: u32)
    ensures
        final(s)@ == old(s)@ + meridiem(hour as nat),
{
    if hour >= 12 {
        push_char(s, 'P');
    } else {
        push_char(s, 'A');
    }
    push_char(s, 'M');
    assert(final(s)@ =~= old(s)@ + meridiem(hour as nat));
}

/// Appends the hour on a 12-hour dial, as two digits.
fn push_hour12(s: &mut String, hour: u32)
    ensures
        final(s)@ == old(s)@ + two_digits(hour12(hour as nat)),
{
    let h = hour % 12;
    if h == 0 {
        push_two_digits(s, 12);
    } else {
        push_two_digits(s, h as u64);
    }
}

/// The time of day as `%I:%M:%S %p` writes it.
pub fn clock_text(t: &LocalTime) -> (s: String)
    ensures
        s@ == clock_spec(*t),
{
    let mut s = String::new();
    push_hour12(&mut s, t.hour);
    push_char(&mut s, ':');
    push_two_digits(&mut s, t.minute as u64);
    push_char(&mut s, ':');
    push_two_digits(&mut s, t.second as u64);
    push_char(&mut s, ' ');
    push_meridiem(&mut s, t.hour);
    assert(s@ =~= clock_spec(*t));
    s
}

/// The time of day as `%I:%M` writes it.
pub fn short_time_text(t: &LocalTime) -> (s: String)
    ensures
        s@ == short_time_spec(*t),
{
    let mut s = String::new();
    push_hour12(&mut s, t.hour);
    push_char(&mut s, ':');
    push_two_digits(&mut s, t.minute as u64);
    assert(s@ =~= short_time_spec(*t));
    s
}

/// `AM` or `PM`, as `%p` writes it.
pub fn meridiem_text(t: &LocalTime) -> (s: String)
    ensures
        s@ == meridiem(t.hour as nat),
{
    let mut s = String::new();
    push_meridiem(&mut s, t.hour);
    assert(s@ =~= meridiem(t.hour as nat));
    s
}

/// Appends the weekday's three-letter name.
fn push_weekday(s: &mut String, weekday: u32)
    ensures
        final(s)@ == old(s)@ + weekday_abbrev(weekday as nat),
{
    let (a, b, c) = if weekday == 0 {
        ('S', 'u', 'n')
    } else if weekday == 1 {
        ('M', 'o', 'n')
    } else if weekday == 2 {
        ('T', 'u', 'e')
    } else if weekday == 3 {
        ('W', 'e', 'd')
    } else if weekday == 4 {
        ('T', 'h', 'u')
    } else if weekday == 5 {
        ('F', 'r', 'i')
    } else {
        ('S', 'a', 't')
    };
    push_char(s, a);
    push_char(s, b);
    push_char(s, c);
    assert(final(s)@ =~= old(s)@ + weekday_abbrev(weekday as nat));
}

/// Lengths of the decimal text of numbers below 1000.
proof fn lemma_nat_text_short(n: nat)
    ensures
        n < 10 ==> nat_text(n).len() == 1,
        10 <= n < 100 ==> nat_text(n).len() == 2,
        100 <= n < 1000 ==> nat_text(n).len() == 3,
        n >= 1000 ==> nat_text(n).len() >= 4,
    decreases n,
{
    if n >= 10 {
        lemma_nat_text_short(n / 10);
    }
}

/// Appends `n` padded with zeros to at least four digits.
fn push_four_digits(s: &mut String, n: u64)
    ensures
        final(s)@ == old(s)@ + zero_pad(nat_text(n as nat), 4),
{
    proof {
        lemma_nat_text_short(n as nat);
    }
    let ghost start = s@;
    if n < 10 {
        push_char(s, '0');
        push_char(s, '0');
        push_char(s, '0');
    } else if n < 100 {
        push_char(s, '0');
        push_char(s, '0');
    } else if n < 1000 {
        push_char(s, '0');
    }
    let ghost padded = s@;
    push_nat(s, n);
    assert(padded =~= start + zeros((4 - nat_text(n as nat).len()) as nat) || n >= 1000);
    if n >= 1000 {
        assert(padded =~= start);
    }
    assert(final(s)@ =~= old(s)@ + zero_pad(nat_text(n as nat), 4));
}

/// Appends the year as `%Y` writes it.
fn push_year(s: &mut String, year: i32)
    ensures
        final(s)@ == old(s)@ + year_text(year as int),
{
    let ghost start = s@;
    if 0 <= year && year <= 9999 {
        push_four_digits(s, year as u64);
    } else if year < 0 {
        push_char(s, '-');
        let magnitude: u64 = (-(year as i64)) as u64;
        push_four_digits(s, magnitude);
        assert(final(s)@ =~= start + year_text(year as int));
    } else {
        push_char(s, '+');
        push_four_digits(s, year as u64);
        assert(final(s)@ =~= start + year_text(year as int));
    }
}

/// The date as `%a %m-%d-%Y` writes it.
pub fn date_text(t: &LocalTime) -> (s: String)
    ensures
        s@ == date_spec(*t),
{
    let mut s = String::new();
    push_weekday(&mut s, t.weekday);
    push_char(&mut s, ' ');
    push_two_digits(&mut s, t.month as u64);
    push_char(&mut s, '-');
    push_two_digits(&mut s, t.day as u64);
    push_char(&mut s, '-');
    push_year(&mut s, t.year);
    assert(s@ =~= date_spec(*t));
    s
}

/// The UTC offset as `%z` writes it, such as `+0530` or `-0600`.
pub fn offset_text(offset_seconds: i32) -> (s: String)
    requires
        -86400 < offset_seconds < 86400,
    ensures
        s@ == offset_spec(offset_seconds as int),
{
    let mut s = String::new();
    let magnitude: u64 = if offset_seconds < 0 {
        push_char(&mut s, '-');
        (-(offset_seconds as i64)) as u64
    } else {
        push_char(&mut s, '+');
        offset_seconds as u64
    };
    let minutes = (magnitude + 30) / 60;
    push_two_digits(&mut s, minutes / 60);
    push_two_digits(&mut s, minutes % 60);
    assert(s@ =~= offset_spec(offset_seconds as int));
    s
}

/// Timestamps (seconds since 1970-01-01 UTC) that chrono can show as a
/// calendar date: about 190,000 years on either side of 1970, well inside
/// chrono's range of years from -262143 to 262142.
pub open spec fn within_calendar(timestamp: i64) -> bool {
    -6_000_000_000_000 <= timestamp <= 6_000_000_000_000
}

/// Days from 1970-01-01 to the date `year`-`month`-`day` of the proleptic
/// Gregorian calendar (negative before it).
pub open spec fn days_from_civil(year: int, month: int, day: int) -> int {
    let y = if month <= 2 {
        year - 1
    } else {
        year
    };
    let era = y / 400;
    let year_of_era = y - era * 400;
    let day_of_year = (153 * ((month + 9) % 12) + 2) / 5 + day - 1;
    let day_of_era = year_of_era * 365 + year_of_era / 4 - year_of_era / 100 + day_of_year;
    era * 146097 + day_of_era - 719468
}

/// Seconds from 1970-01-01 00:00:00 to the local date and time of `t`,
/// counted as if that wall-clock time were UTC.
pub open spec fn civil_seconds(t: LocalTime) -> int {
    days_from_civil(t.year as int, t.month as int, t.day as int) * 86400 + t.hour * 3600 + t.minute
        * 60 + t.second
}

/// `t` is how a zone `t.offset_seconds` ahead of UTC shows the instant
/// `timestamp`: its wall-clock time is the instant moved by the offset, and
/// its weekday is that of its date (1970-01-01 was a Thursday).
pub open spec fn shows(t: LocalTime, timestamp: i64) -> bool {
    &&& civil_seconds(t) == timestamp + t.offset_seconds
    &&& t.weekday == (days_from_civil(t.year as int, t.month as int, t.day as int) + 4) % 7
}

/// The point in time `timestamp` (seconds since 1970-01-01 UTC) in the
/// machine's time zone, through chrono's `DateTime::from_timestamp` and
/// `DateTime::with_timezone(&Local)`, read with the `Datelike` and
/// `Timelike` getters and `FixedOffset::local_minus_utc`. The offset depends
/// on the time zone set on the machine, so the contract leaves it free
/// within chrono's bounds of less than a day either way; the date and time
/// are the instant moved by that offset, on the proleptic Gregorian
/// calendar that chrono keeps, and the fields lie in their ranges. `None`
/// when chrono refuses the timestamp, which `from_timestamp` does only
/// outside its range of dates, so never for a timestamp `within_calendar`.
/// Where the machine's zone data cannot be read chrono falls back to UTC;
/// it panics only on zone data whose offset is a day or more, which depends
/// on the machine and not on the timestamp, and the contract does not speak
/// of that.
#[verifier::external_body]
pub(crate) fn local_time_at(timestamp: i64) -> (r: Option<LocalTime>)
    ensures
        r matches Some(t) ==> t.wf() && shows(t, timestamp),
        within_calendar(timestamp) ==> r is Some,
{
    match chrono::DateTime::from_timestamp(timestamp, 0) {
        Some(utc) => {
            let l = utc.with_timezone(&chrono::Local);
            Some(LocalTime {
                year: l.year(), month: l.month(), day: l.day(),
                hour: l.hour(), minute: l.minute(), second: l.second(),
                weekday: l.weekday().num_days_from_sunday(),
                offset_seconds: l.offset().local_minus_utc(),
            })
        },
        None => None,
    }
}

/// What the clock face shows at one moment.
pub struct ClockFace {
    /// `%I:%M:%S %p`.
    pub time: String,
    /// `%a %m-%d-%Y`.
    pub date: String,
    /// `%z`; when it changes, the calendar is loaded again.
    pub zone: String,
}

/// The clock face at `timestamp`, in the machine's time zone; always shown
/// for a timestamp `within_calendar`, and `None` only where chrono cannot
/// show the time as a date.
pub fn clock_face(timestamp: i64) -> (r: Option<ClockFace>)
    ensures
        within_calendar(timestamp) ==> r is Some,
        r matches Some(f) ==> exists|t: LocalTime|
            {
                &&& t.wf()
                &&& shows(t, timestamp)
                &&& f.time@ == clock_spec(t)
                &&& f.date@ == date_spec(t)
                &&& f.zone@ == offset_spec(t.offset_seconds as int)
            },
{
    match local_time_at(timestamp) {
        Some(t) => {
            let face = ClockFace {
                time: clock_text(&t),
                date: date_text(&t),
                zone: offset_text(t.offset_seconds),
            };
            assert(face.time@ == clock_spec(t));
            Some(face)
        },
        None => None,
    }
}

/// The UTC offset of the machine's time zone at `timestamp`, as `%z` writes
/// it.
pub fn zone_text(timestamp: i64) -> (r: Option<String>)
    ensures
        within_calendar(timestamp) ==> r is Some,
        r matches Some(z) ==> exists|t: LocalTime|
            t.wf() && shows(t, timestamp) && #[trigger] offset_spec(t.offset_seconds as int) == z@,
{
    match local_time_at(timestamp) {
        Some(t) => Some(offset_text(t.offset_seconds)),
        None => None,
    }
}

/// The calendar year at `timestamp` in the machine's time zone.
pub fn local_year(timestamp: i64) -> (r: Option<i32>)
    ensures
        within_calendar(timestamp) ==> r is Some,
        r matches Some(y) ==> exists|t: LocalTime| t.wf() && shows(t, timestamp) && t.year == y,
{
    match local_time_at(timestamp) {
        Some(t) => Some(t.year),
        None => None,
    }
}

/// One line of the list of the day's times: the prayer, its time as
/// `%I:%M` and `AM` or `PM`.
pub struct PrayerRow {
    pub prayer: String,
    pub time: String,
    pub ampm: String,
}

/// The line that the list of the day's times shows for `t`, in the
/// machine's time zone; always shown for a time `within_calendar`, and
/// `None` only where chrono cannot show the time as a date.
pub fn prayer_row(t: &Timing) -> (r: Option<PrayerRow>)
    ensures
        within_calendar(t.time) ==> r is Some,
        r matches Some(row) ==> {
            &&& row.prayer@ == t.prayer.spec_name()
            &&& exists|l: LocalTime|
                {
                    &&& l.wf()
                    &&& shows(l, t.time)
                    &&& row.time@ == short_time_spec(l)
                    &&& row.ampm@ == meridiem(l.hour as nat)
                }
        },
{
    match local_time_at(t.time) {
        Some(l) => {
            let row = PrayerRow {
                prayer: String::from_str(t.prayer.name()),
                time: short_time_text(&l),
                ampm: meridiem_text(&l),
            };
            assert(row.time@ == short_time_spec(l));
            Some(row)
        },
        None => None,
    }
}

/// The clock's seconds advance: the whole second `now` is handed on unless
/// it is the last one handed on, `previous` (`None` before the first).
pub fn next_second(previous: Option<i64>, now: i64) -> (r: Option<i64>)
    ensures
        r == (if previous == Some(now) {
            None
        } else {
            Some(now)
        }),
{
    match previous {
        Some(p) => if p == now {
            None
        } else {
            Some(now)
        },
        None => Some(now),
    }
}

/// The zone shown now differs from the one the schedule was read in, so
/// the calendars are to be read again.
pub fn zone_changed(known: &String, shown: &String) -> (b: bool)
    ensures
        b == (known@ != shown@),
{
    !(*known == *shown)
}

/// The weekday's name on the clock is its English three-letter
/// abbreviation, `Sun` for 0 through `Sat` for 6, a different name for each
/// day; the date text starts with it, so a time that `shows` an instant is
/// dated with that instant's weekday.
pub proof fn weekdays_are_named(t: LocalTime, timestamp: i64, w: nat, v: nat)
    requires
        w < 7,
        v < 7,
    ensures
        weekday_abbrev(w) == "SunMonTueWedThuFriSat"@.subrange(3 * w as int, (3 * w + 3) as int),
        w != v ==> weekday_abbrev(w) != weekday_abbrev(v),
        date_spec(t).subrange(0, 3) == weekday_abbrev(t.weekday as nat),
        shows(t, timestamp) ==> date_spec(t).subrange(0, 3) == "SunMonTueWedThuFriSat"@.subrange(
            3 * ((days_from_civil(t.year as int, t.month as int, t.day as int) + 4) % 7),
            3 * ((days_from_civil(t.year as int, t.month as int, t.day as int) + 4) % 7) + 3,
        ),
{
    reveal_strlit("SunMonTueWedThuFriSat");
    let names = "SunMonTueWedThuFriSat"@;
    assert forall|d: nat| d < 7 implies #[trigger] weekday_abbrev(d) == names.subrange(3 * d as int, (3 * d + 3) as int) by {
        assert(weekday_abbrev(d) =~= names.subrange(3 * d as int, (3 * d + 3) as int));
    }
    if w != v {
        assert(weekday_abbrev(w) != weekday_abbrev(v)) by {
            if weekday_abbrev(w) == weekday_abbrev(v) {
                assert(weekday_abbrev(w)[0] == weekday_abbrev(v)[0]);
                assert(weekday_abbrev(w)[1] == weekday_abbrev(v)[1]);
            }
        }
    }
    assert(date_spec(t).subrange(0, 3) =~= weekday_abbrev(t.weekday as nat));
}

/// The clock's hour runs over a 12-hour dial: from 1 to 12, equal to the
/// hour of the day modulo 12, with `AM` before noon and `PM` from noon on.
pub proof fn hours_run_on_a_twelve_hour_dial(hour: nat)
    requires
        hour < 24,
    ensures
        1 <= hour12(hour) <= 12,
        hour12(hour) % 12 == hour % 12,
        hour < 12 ==> meridiem(hour) == "AM"@,
        hour >= 12 ==> meridiem(hour) == "PM"@,
{
    reveal_strlit("AM");
    reveal_strlit("PM");
    assert(meridiem(hour) =~= (if hour < 12 { "AM"@ } else { "PM"@ }));
}

/// The date text holds, in this order: the weekday's name, a space, the
/// month as two digits, `-`, the day of the month as two digits, `-`, and
/// the year.
pub proof fn date_fields_in_place(t: LocalTime)
    requires
        t.wf(),
    ensures
        date_spec(t)[3] == ' ',
        date_spec(t).subrange(4, 6) == two_digits(t.month as nat),
        date_spec(t)[6] == '-',
        date_spec(t).subrange(7, 9) == two_digits(t.day as nat),
        date_spec(t)[9] == '-',
        date_spec(t).skip(10) == year_text(t.year as int),
{
    lemma_nat_text_short(t.month as nat);
    lemma_nat_text_short(t.day as nat);
    assert(two_digits(t.month as nat).len() == 2);
    assert(two_digits(t.day as nat).len() == 2);
    let d = date_spec(t);
    assert(d.subrange(4, 6) =~= two_digits(t.month as nat));
    assert(d.subrange(7, 9) =~= two_digits(t.day as nat));
    assert(d.skip(10) =~= year_text(t.year as int));
}

} // verus!
