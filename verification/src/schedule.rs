//! The prayer schedule: the times read from the yearly calendars, kept in a
//! queue from the next one on, and how that queue advances as the clock
//! ticks.

use std::collections::VecDeque;
use vstd::prelude::*;

use crate::prayer::{Prayer, PRAYERS_PER_DAY};
use crate::text::{int_text, pad2, push_char, push_int_pad2};

verus! {

/// When a prayer comes: the prayer and its time in seconds since
/// 1970-01-01 UTC.
#[derive(Clone, Copy, Debug, PartialEq, Eq, Structural)]
pub struct Timing {
    pub prayer: Prayer,
    pub time: i64,
}

/// One day of a calendar as the calendar service sends it: the JSON texts of
/// its six times, in the order Fajr, Sunrise, Dhuhr, Asr, Maghrib, Isha, and
/// the JSON text of its readable date. Each is the value as JSON writes it,
/// quotes included: a time is like `"05:12 (CST)"` and the date like
/// `"01 Jan 2025"`.
pub struct DayRecord {
    pub timings: Vec<String>,
    pub readable: String,
}

/// The format in which a prayer time, its date and the UTC offset are read
/// together.
pub const CALENDAR_TIME_FORMAT: &'static str = "%H:%M %d %b %Y %z";

/// What chrono's `DateTime::parse_from_str(text, format)` gives, as seconds
/// since 1970-01-01 UTC, or `None` where it refuses the text.
pub uninterp spec fn chrono_timestamp(text: Seq<char>, format: Seq<char>) -> Option<i64>;

/// Reads `text` by `format` with chrono's `DateTime::parse_from_str`, and
/// takes the instant's `timestamp()`. The contract names the result: it is
/// a function of the text and the format alone, since the offset is part of
/// the text.
#[verifier::external_body]
fn parse_timestamp(text: &str, format: &str) -> (r: Option<i64>)
    ensures
        r == chrono_timestamp(text@, format@),
{
    match chrono::DateTime::parse_from_str(text, format) {
        Ok(t) => Some(t.timestamp()),
        Err(_) => None,
    }
}

/// `hh:mm` of the `i`-th time of a day: the characters 1 to 5 of its JSON
/// text, that is, the first five inside the quotes.
pub open spec fn clock_part(day: DayRecord, i: int) -> Seq<char> {
    day.timings@[i]@.subrange(1, 6)
}

/// `dd Mon yyyy` of a day: the characters 1 to 11 of the date's JSON text.
pub open spec fn date_part(day: DayRecord) -> Seq<char> {
    day.readable@.subrange(1, 12)
}

/// The text read for the `i`-th time of a day, with the UTC offset `zone`
/// (as `%z` writes it): `hh:mm dd Mon yyyy +hhmm`.
pub open spec fn time_text(day: DayRecord, i: int, zone: Seq<char>) -> Seq<char> {
    clock_part(day, i) + seq![' '] + date_part(day) + seq![' '] + zone
}

/// The instant of the `i`-th time of a day, as chrono reads its text.
pub open spec fn time_of(day: DayRecord, i: int, zone: Seq<char>) -> Option<i64> {
    chrono_timestamp(time_text(day, i, zone), CALENDAR_TIME_FORMAT@)
}

/// The day has six times, the JSON texts are long enough to hold the
/// parts that are read, and chrono reads each of the six times.
pub open spec fn day_readable(day: DayRecord, zone: Seq<char>) -> bool {
    &&& day.timings@.len() == PRAYERS_PER_DAY
    &&& day.readable@.len() >= 12
    &&& forall|i: int|
        0 <= i < PRAYERS_PER_DAY ==> {
            &&& #[trigger] day.timings@[i]@.len() >= 6
            &&& time_of(day, i, zone) is Some
        }
}

/// The six timings of a readable day, in the day's order.
pub open spec fn day_schedule(day: DayRecord, zone: Seq<char>) -> Seq<Timing> {
    Seq::new(
        PRAYERS_PER_DAY as nat,
        |i: int| Timing { prayer: Prayer::spec_at(i as nat), time: time_of(day, i, zone).unwrap() },
    )
}

/// The timings of readable days, one day after the other.
pub open spec fn calendar_schedule(days: Seq<DayRecord>, zone: Seq<char>) -> Seq<Timing>
    decreases days.len(),
{
    if days.len() == 0 {
        Seq::empty()
    } else {
        calendar_schedule(days.drop_last(), zone) + day_schedule(days.last(), zone)
    }
}

/// The text read for the `i`-th time of `day`.
fn build_time_text(day: &DayRecord, i: usize, zone: &str) -> (s: String)
    requires
        i < day.timings@.len(),
        day.timings@[i as int]@.len() >= 6,
        day.readable@.len() >= 12,
    ensures
        s@ == time_text(*day, i as int, zone@),
{
    let clock = day.timings[i].as_str().substring_char(1, 6);
    let date = day.readable.as_str().substring_char(1, 12);
    let mut s = String::from_str(clock);
    push_char(&mut s, ' ');
    s.append(date);
    push_char(&mut s, ' ');
    s.append(zone);
    assert(s@ =~= time_text(*day, i as int, zone@));
    s
}

/// The six timings of one day of a calendar, read in the UTC offset `zone`;
/// `None` when the day is not readable.
pub fn day_timings(day: &DayRecord, zone: &str) -> (r: Option<Vec<Timing>>)
    ensures
        r is Some <==> day_readable(*day, zone@),
        r matches Some(v) ==> v@ == day_schedule(*day, zone@),
{
    if day.timings.len() != PRAYERS_PER_DAY || day.readable.as_str().unicode_len() < 12 {
        return None;
    }
    let mut v: Vec<Timing> = Vec::new();
    let mut i: usize = 0;
    while i < PRAYERS_PER_DAY
        invariant
            i <= PRAYERS_PER_DAY,
            day.timings@.len() == PRAYERS_PER_DAY,
            day.readable@.len() >= 12,
            v@.len() == i,
            forall|j: int|
                0 <= j < i ==> {
                    &&& #[trigger] day.timings@[j]@.len() >= 6
                    &&& time_of(*day, j, zone@) is Some
                },
            forall|j: int| 0 <= j < i ==> #[trigger] v@[j] == day_schedule(*day, zone@)[j],
        decreases PRAYERS_PER_DAY - i,
    {
        if day.timings[i].as_str().unicode_len() < 6 {
            return None;
        }
        let text = build_time_text(day, i, zone);
        match parse_timestamp(text.as_str(), CALENDAR_TIME_FORMAT) {
            Some(time) => {
                v.push(Timing { prayer: Prayer::at(i), time });
            },
            None => {
                return None;
            },
        }
        i = i + 1;
    }
    assert(v@ =~= day_schedule(*day, zone@));
    Some(v)
}

/// The timings of a run of calendar days, one day after the other, read in
/// the UTC offset `zone`; `None` when one of the days is not readable.
pub fn calendar_timings(days: &Vec<DayRecord>, zone: &str) -> (r: Option<VecDeque<Timing>>)
    ensures
        r is Some <==> forall|k: int| 0 <= k < days@.len() ==> day_readable(#[trigger] days@[k], zone@),
        r matches Some(q) ==> q@ == calendar_schedule(days@, zone@),
{
    let mut q: VecDeque<Timing> = VecDeque::new();
    let mut k: usize = 0;
    while k < days.len()
        invariant
            k <= days@.len(),
            forall|j: int| 0 <= j < k ==> day_readable(#[trigger] days@[j], zone@),
            q@ == calendar_schedule(days@.take(k as int), zone@),
        decreases days@.len() - k,
    {
        match day_timings(&days[k], zone) {
            Some(v) => {
                let mut i: usize = 0;
                let ghost start = q@;
                while i < v.len()
                    invariant
                        i <= v@.len(),
                        q@ == start + v@.take(i as int),
                    decreases v@.len() - i,
                {
                    q.push_back(v[i]);
                    i = i + 1;
                    assert(q@ =~= start + v@.take(i as int));
                }
                assert(days@.take(k + 1).drop_last() =~= days@.take(k as int));
                assert(v@.take(v@.len() as int) =~= v@);
            },
            None => {
                return None;
            },
        }
        k = k + 1;
    }
    assert(days@.take(days@.len() as int) =~= days@);
    Some(q)
}

/// `time` (whole seconds) lies before the instant `now_secs` seconds and
/// `now_nanos` nanoseconds after 1970-01-01 UTC.
pub open spec fn before(time: i64, now_secs: i64, now_nanos: u32) -> bool {
    time < now_secs || (time == now_secs && now_nanos > 0)
}

/// Number of timings at the front of `s` that lie before the instant.
pub open spec fn past_prefix(s: Seq<Timing>, now_secs: i64, now_nanos: u32) -> nat
    decreases s.len(),
{
    if s.len() > 0 && before(s[0].time, now_secs, now_nanos) {
        1 + past_prefix(s.drop_first(), now_secs, now_nanos)
    } else {
        0
    }
}

/// Some timing of `s` lies at or after the instant.
pub open spec fn has_upcoming(s: Seq<Timing>, now_secs: i64, now_nanos: u32) -> bool {
    exists|i: int| 0 <= i < s.len() && !before(#[trigger] s[i].time, now_secs, now_nanos)
}

/// Where some timing lies at or after the instant, the past prefix stops
/// short of the end, at the first such timing, and all before it are past.
pub proof fn lemma_past_prefix(s: Seq<Timing>, now_secs: i64, now_nanos: u32)
    requires
        has_upcoming(s, now_secs, now_nanos),
    ensures
        past_prefix(s, now_secs, now_nanos) < s.len(),
        !before(s[past_prefix(s, now_secs, now_nanos) as int].time, now_secs, now_nanos),
        forall|j: int|
            0 <= j < past_prefix(s, now_secs, now_nanos) ==> before(
                #[trigger] s[j].time,
                now_secs,
                now_nanos,
            ),
    decreases s.len(),
{
    if before(s[0].time, now_secs, now_nanos) {
        let i = choose|i: int| 0 <= i < s.len() && !before(#[trigger] s[i].time, now_secs, now_nanos);
        assert(i > 0);
        assert(s.drop_first()[i - 1] == s[i]);
        lemma_past_prefix(s.drop_first(), now_secs, now_nanos);
        assert forall|j: int| 0 <= j < past_prefix(s, now_secs, now_nanos) implies before(
            #[trigger] s[j].time,
            now_secs,
            now_nanos,
        ) by {
            if j > 0 {
                assert(s[j] == s.drop_first()[j - 1]);
            }
        }
    }
}

/// Drops from the front of the schedule the timings that lie before the
/// instant `now_secs` seconds and `now_nanos` nanoseconds after 1970-01-01
/// UTC, and keeps the rest as it was.
pub fn drop_past(schedule: &mut VecDeque<Timing>, now_secs: i64, now_nanos: u32)
    requires
        has_upcoming(old(schedule)@, now_secs, now_nanos),
    ensures
        final(schedule)@ == old(schedule)@.skip(past_prefix(old(schedule)@, now_secs, now_nanos) as int),
        final(schedule)@.len() > 0,
{
    proof {
        lemma_past_prefix(old(schedule)@, now_secs, now_nanos);
    }
    let ghost start = schedule@;
    let ghost total = past_prefix(start, now_secs, now_nanos);
    let length = schedule.len();
    let mut dropped: usize = 0;
    while before_exec(schedule[0].time, now_secs, now_nanos)
        invariant
            dropped <= total < start.len(),
            start.len() == length,
            schedule@ == start.skip(dropped as int),
            past_prefix(schedule@, now_secs, now_nanos) + dropped == total,
            !before(start[total as int].time, now_secs, now_nanos),
        decreases start.len() - dropped,
    {
        assert(schedule@.drop_first() =~= start.skip(dropped + 1));
        assert(past_prefix(schedule@, now_secs, now_nanos) == 1 + past_prefix(
            schedule@.drop_first(),
            now_secs,
            now_nanos,
        ));
        schedule.pop_front();
        dropped = dropped + 1;
    }
    assert(past_prefix(schedule@, now_secs, now_nanos) == 0);
}

/// `before`, computed.
fn before_exec(time: i64, now_secs: i64, now_nanos: u32) -> (b: bool)
    ensures
        b == before(time, now_secs, now_nanos),
{
    time < now_secs || (time == now_secs && now_nanos > 0)
}

/// The schedule ready for the clock: the timings of a run of calendar days,
/// read in the UTC offset `zone`, from the first that does not lie before
/// the instant `now_secs` seconds and `now_nanos` nanoseconds after
/// 1970-01-01 UTC. `None` when a day is not readable or when every timing
/// lies before that instant.
pub fn upcoming_schedule(days: &Vec<DayRecord>, zone: &str, now_secs: i64, now_nanos: u32) -> (r:
    Option<VecDeque<Timing>>)
    ensures
        r is Some <==> (forall|k: int|
            0 <= k < days@.len() ==> day_readable(#[trigger] days@[k], zone@)) && has_upcoming(
            calendar_schedule(days@, zone@),
            now_secs,
            now_nanos,
        ),
        r matches Some(q) ==> q@ == calendar_schedule(days@, zone@).skip(
            past_prefix(calendar_schedule(days@, zone@), now_secs, now_nanos) as int,
        ),
{
    match calendar_timings(days, zone) {
        Some(mut q) => {
            let mut i: usize = 0;
            let mut found = false;
            while i < q.len()
                invariant
                    i <= q@.len(),
                    found ==> has_upcoming(q@, now_secs, now_nanos),
                    !found ==> forall|j: int| 0 <= j < i ==> before(#[trigger] q@[j].time, now_secs, now_nanos),
                decreases q@.len() - i,
            {
                if !before_exec(q[i].time, now_secs, now_nanos) {
                    found = true;
                }
                i = i + 1;
            }
            if !found {
                return None;
            }
            drop_past(&mut q, now_secs, now_nanos);
            Some(q)
        },
        None => None,
    }
}

/// What a tick of the clock did to the schedule.
#[derive(Clone, Copy, Debug, PartialEq, Eq, Structural)]
pub enum TickOutcome {
    /// The next timing has not come yet; the schedule is unchanged.
    Waiting,
    /// The clock was more than a minute late for the next timing (as after
    /// the machine slept): the timings that lie in the past were dropped
    /// without any adhan.
    Skipped,
    /// The next timing has come: it was taken off the schedule. `reload`
    /// says that the schedule has run short and the calendars are to be
    /// loaded again.
    Due { prayer: Prayer, reload: bool },
}

/// From this many seconds after its time on, a timing is skipped rather
/// than announced.
pub const LATE_SECONDS: i64 = 120;

/// When no more than this many timings are left, the calendars are loaded
/// again.
pub const RELOAD_THRESHOLD: usize = 100;

/// What a tick at `now` (whole seconds) does to a schedule whose next timing
/// is `s[0]`.
pub open spec fn tick_outcome(s: Seq<Timing>, now: i64) -> TickOutcome {
    if now < s[0].time {
        TickOutcome::Waiting
    } else if now - s[0].time >= LATE_SECONDS {
        TickOutcome::Skipped
    } else {
        TickOutcome::Due { prayer: s[0].prayer, reload: s.len() - 1 <= RELOAD_THRESHOLD }
    }
}

/// The schedule after a tick at `now`.
pub open spec fn tick_next(s: Seq<Timing>, now: i64) -> Seq<Timing> {
    if now < s[0].time {
        s
    } else if now - s[0].time >= LATE_SECONDS {
        s.skip(past_prefix(s, now, 0) as int)
    } else {
        s.drop_first()
    }
}

/// A tick can be taken: the schedule has a next timing, and where that one
/// is to be skipped some later timing lies at or after `now`.
pub open spec fn tick_allowed(s: Seq<Timing>, now: i64) -> bool {
    &&& s.len() > 0
    &&& (now >= s[0].time && now - s[0].time >= LATE_SECONDS) ==> has_upcoming(s, now, 0)
}

/// Advances the schedule to the clock's time `now` (whole seconds since
/// 1970-01-01 UTC): announces the next timing when it has come, skips the
/// past ones when the clock is more than a minute late, and otherwise waits.
pub fn on_tick(schedule: &mut VecDeque<Timing>, now: i64) -> (r: TickOutcome)
    requires
        tick_allowed(old(schedule)@, now),
    ensures
        r == tick_outcome(old(schedule)@, now),
        final(schedule)@ == tick_next(old(schedule)@, now),
{
    let next = schedule[0];
    if now < next.time {
        return TickOutcome::Waiting;
    }
    let late: i128 = now as i128 - next.time as i128;
    if late >= LATE_SECONDS as i128 {
        drop_past(schedule, now, 0);
        return TickOutcome::Skipped;
    }
    schedule.pop_front();
    let reload = schedule.len() <= RELOAD_THRESHOLD;
    TickOutcome::Due { prayer: next.prayer, reload }
}

/// Truncated quotient, as Rust divides integers.
pub open spec fn trunc_div(a: int, b: int) -> int {
    if a >= 0 {
        a / b
    } else {
        -((-a) / b)
    }
}

/// Remainder of the truncated division, with the sign of `a`.
pub open spec fn trunc_rem(a: int, b: int) -> int {
    if a >= 0 {
        a % b
    } else {
        -((-a) % b)
    }
}

/// The countdown to `next` at `now`: the prayer's name, ` in`, a line
/// break, then whole hours, minutes and seconds left, each as Rust's
/// `{:0>2}` writes an integer. Past the timing the parts are negative.
pub open spec fn countdown_spec(next: Timing, now: i64) -> Seq<char> {
    let left = next.time - now;
    next.prayer.spec_name() + seq![' ', 'i', 'n', '\n'] + pad2(int_text(trunc_div(left, 3600)))
        + seq![':'] + pad2(int_text(trunc_rem(trunc_div(left, 60), 60))) + seq![':'] + pad2(
        int_text(trunc_rem(left, 60)),
    )
}

/// Hours, minutes within the hour and seconds within the minute of
/// `to - from` seconds, each truncated toward zero as chrono's `TimeDelta`
/// gives them.
fn split_duration(to: i64, from: i64) -> (parts: (i64, i64, i64))
    ensures
        parts.0 == trunc_div(to - from, 3600),
        parts.1 == trunc_rem(trunc_div(to - from, 60), 60),
        parts.2 == trunc_rem(to - from, 60),
{
    let left: i128 = to as i128 - from as i128;
    if left < 0 {
        let magnitude: u64 = (-left) as u64;
        (-((magnitude / 3600) as i64), -(((magnitude / 60) % 60) as i64), -((magnitude % 60) as i64))
    } else {
        let magnitude: u64 = left as u64;
        ((magnitude / 3600) as i64, ((magnitude / 60) % 60) as i64, (magnitude % 60) as i64)
    }
}

/// The countdown that the clock shows for the next timing at `now`.
pub fn countdown_text(next: Timing, now: i64) -> (s: String)
    ensures
        s@ == countdown_spec(next, now),
{
    let (hours, minutes, seconds) = split_duration(next.time, now);
    let mut s = String::from_str(next.prayer.name());
    push_char(&mut s, ' ');
    push_char(&mut s, 'i');
    push_char(&mut s, 'n');
    push_char(&mut s, '\n');
    push_int_pad2(&mut s, hours);
    push_char(&mut s, ':');
    push_int_pad2(&mut s, minutes);
    push_char(&mut s, ':');
    push_int_pad2(&mut s, seconds);
    assert(s@ =~= countdown_spec(next, now));
    s
}

/// Slot of a timing among the six times of the day that the clock lists.
pub open spec fn slot(t: Timing) -> int {
    t.prayer.spec_index() as int
}

/// `cur` after writing each timing of `ts` into its prayer's slot, from the
/// first to the last.
pub open spec fn write_slots(cur: Seq<Timing>, ts: Seq<Timing>) -> Seq<Timing>
    decreases ts.len(),
{
    if ts.len() == 0 {
        cur
    } else {
        write_slots(cur, ts.drop_last()).update(slot(ts.last()), ts.last())
    }
}

/// The six times that the clock lists first: the next six timings, in the
/// order in which they come.
pub fn first_six(schedule: &VecDeque<Timing>) -> (v: Vec<Timing>)
    requires
        schedule@.len() >= PRAYERS_PER_DAY,
    ensures
        v@ == schedule@.take(PRAYERS_PER_DAY as int),
{
    let mut v: Vec<Timing> = Vec::new();
    let mut i: usize = 0;
    while i < PRAYERS_PER_DAY
        invariant
            i <= PRAYERS_PER_DAY <= schedule@.len(),
            v@ == schedule@.take(i as int),
        decreases PRAYERS_PER_DAY - i,
    {
        v.push(schedule[i]);
        i = i + 1;
        assert(v@ =~= schedule@.take(i as int));
    }
    v
}

/// Writes each of the next six timings into the slot of its prayer in the
/// list of the day's times that the clock shows, and returns the prayer
/// whose time it now is: the sixth upcoming one, that is, the last that has
/// come.
pub fn refresh_day_times(schedule: &VecDeque<Timing>, current: &mut Vec<Timing>) -> (now_in: Prayer)
    requires
        schedule@.len() >= PRAYERS_PER_DAY,
        old(current)@.len() == PRAYERS_PER_DAY,
    ensures
        final(current)@ == write_slots(old(current)@, schedule@.take(PRAYERS_PER_DAY as int)),
        final(current)@.len() == PRAYERS_PER_DAY,
        now_in == schedule@[PRAYERS_PER_DAY - 1].prayer,
{
    let ghost start = current@;
    let mut i: usize = 0;
    while i < PRAYERS_PER_DAY
        invariant
            i <= PRAYERS_PER_DAY <= schedule@.len(),
            current@ == write_slots(start, schedule@.take(i as int)),
            current@.len() == PRAYERS_PER_DAY,
        decreases PRAYERS_PER_DAY - i,
    {
        let t = schedule[i];
        let k = t.prayer.index();
        current.set(k, t);
        i = i + 1;
        assert(schedule@.take(i as int).drop_last() =~= schedule@.take(i - 1));
    }
    schedule[PRAYERS_PER_DAY - 1].prayer
}

/// The timings follow one another through the six times of the day: each
/// one's slot is the one after the slot of the timing before it.
pub open spec fn cycles(s: Seq<Timing>) -> bool {
    forall|i: int| 0 <= i < s.len() ==> #[trigger] slot(s[i]) == (slot(s[0]) + i) % 6
}

/// The timings come in the order of their times.
pub open spec fn in_time_order(s: Seq<Timing>) -> bool {
    forall|i: int, j: int| 0 <= i <= j < s.len() ==> s[i].time <= s[j].time
}

/// The schedule read from readable calendar days holds six timings a day,
/// and the `i`-th of them is for the prayer at place `i % 6` of a day.
pub proof fn calendar_follows_the_day(days: Seq<DayRecord>, zone: Seq<char>)
    requires
        forall|k: int| 0 <= k < days.len() ==> day_readable(#[trigger] days[k], zone),
    ensures
        calendar_schedule(days, zone).len() == PRAYERS_PER_DAY * days.len(),
        forall|i: int|
            0 <= i < calendar_schedule(days, zone).len() ==> #[trigger] slot(
                calendar_schedule(days, zone)[i],
            ) == i % 6,
        cycles(calendar_schedule(days, zone)),
    decreases days.len(),
{
    if days.len() > 0 {
        let rest = days.drop_last();
        assert forall|k: int| 0 <= k < rest.len() implies day_readable(#[trigger] rest[k], zone) by {
            assert(rest[k] == days[k]);
        }
        calendar_follows_the_day(rest, zone);
        let whole = calendar_schedule(days, zone);
        let front = calendar_schedule(rest, zone);
        let n = front.len() as int;
        assert(n == 6 * rest.len());
        assert forall|i: int| 0 <= i < whole.len() implies #[trigger] slot(whole[i]) == i % 6 by {
            if i >= n {
                let j = i - n;
                assert(whole[i] == day_schedule(days.last(), zone)[j]);
                assert((6 * rest.len() + j) % 6 == j) by (nonlinear_arith)
                    requires
                        0 <= j < 6,
                ;
            } else {
                assert(whole[i] == front[i]);
            }
        }
    }
}

/// What is left of a schedule that follows the day, after timings are
/// dropped from its front, still follows the day.
pub proof fn suffix_follows_the_day(s: Seq<Timing>, k: int)
    requires
        cycles(s),
        0 <= k < s.len(),
    ensures
        cycles(s.skip(k)),
{
    let t = s.skip(k);
    assert forall|i: int| 0 <= i < t.len() implies #[trigger] slot(t[i]) == (slot(t[0]) + i) % 6 by {
        assert(t[i] == s[k + i]);
        assert(t[0] == s[k]);
        assert(slot(s[k + i]) == (slot(s[0]) + k + i) % 6);
        assert(slot(s[k]) == (slot(s[0]) + k) % 6);
        assert(((slot(s[0]) + k) % 6 + i) % 6 == (slot(s[0]) + k + i) % 6) by {
            vstd::arithmetic::div_mod::lemma_add_mod_noop(slot(s[0]) + k, i, 6);
            vstd::arithmetic::div_mod::lemma_small_mod(i as nat % 6, 6);
        }
    }
}

/// A tick never reorders the schedule: it only drops timings from its
/// front, one when a timing is announced, and at least one and up to the
/// first upcoming timing when it skips.
pub proof fn tick_only_drops_from_front(s: Seq<Timing>, now: i64)
    requires
        tick_allowed(s, now),
    ensures
        exists|k: int| 0 <= k <= s.len() && #[trigger] s.skip(k) == tick_next(s, now),
        tick_outcome(s, now) is Waiting ==> tick_next(s, now) == s,
        tick_outcome(s, now) is Due ==> tick_next(s, now) == s.skip(1),
        tick_outcome(s, now) is Skipped ==> {
            &&& tick_next(s, now).len() > 0
            &&& tick_next(s, now)[0].time >= now
            &&& tick_next(s, now).len() < s.len()
        },
{
    if now < s[0].time {
        assert(s.skip(0) =~= s);
    } else if now - s[0].time >= LATE_SECONDS {
        lemma_past_prefix(s, now, 0);
        assert(before(s[0].time, now, 0));
    } else {
        assert(s.skip(1) =~= s.drop_first());
    }
}

/// A tick keeps a schedule that follows the day following it, and keeps a
/// schedule in time order in time order.
pub proof fn tick_keeps_the_schedule_in_order(s: Seq<Timing>, now: i64)
    requires
        tick_allowed(s, now),
    ensures
        cycles(s) && tick_next(s, now).len() > 0 ==> cycles(tick_next(s, now)),
        in_time_order(s) ==> in_time_order(tick_next(s, now)),
{
    tick_only_drops_from_front(s, now);
    let k = choose|k: int| 0 <= k <= s.len() && #[trigger] s.skip(k) == tick_next(s, now);
    if cycles(s) && tick_next(s, now).len() > 0 {
        suffix_follows_the_day(s, k);
    }
    if in_time_order(s) {
        let t = tick_next(s, now);
        assert forall|i: int, j: int| 0 <= i <= j < t.len() implies t[i].time <= t[j].time by {
            assert(t[i] == s[k + i]);
            assert(t[j] == s[k + j]);
        }
    }
}

/// A timing announced by a tick has come, and by less than the time from
/// which it would have been skipped.
pub proof fn announced_when_due(s: Seq<Timing>, now: i64)
    requires
        tick_allowed(s, now),
        tick_outcome(s, now) is Due,
    ensures
        s[0].time <= now < s[0].time + LATE_SECONDS,
        tick_outcome(s, now)->prayer == s[0].prayer,
{
}

/// Writing timings with distinct slots, each below the length of `cur`,
/// leaves each of them in its slot and every other slot as it was.
pub proof fn lemma_write_distinct_slots(cur: Seq<Timing>, ts: Seq<Timing>)
    requires
        forall|k: int| 0 <= k < ts.len() ==> 0 <= #[trigger] slot(ts[k]) < cur.len(),
        forall|a: int, b: int| 0 <= a < b < ts.len() ==> slot(ts[a]) != slot(ts[b]),
    ensures
        write_slots(cur, ts).len() == cur.len(),
        forall|k: int| 0 <= k < ts.len() ==> write_slots(cur, ts)[#[trigger] slot(ts[k])] == ts[k],
        forall|p: int|
            0 <= p < cur.len() && (forall|k: int| 0 <= k < ts.len() ==> slot(ts[k]) != p)
                ==> #[trigger] write_slots(cur, ts)[p] == cur[p],
    decreases ts.len(),
{
    if ts.len() > 0 {
        let front = ts.drop_last();
        lemma_write_distinct_slots(cur, front);
        let w = write_slots(cur, ts);
        assert forall|k: int| 0 <= k < ts.len() implies w[#[trigger] slot(ts[k])] == ts[k] by {
            if k < ts.len() - 1 {
                assert(front[k] == ts[k]);
            }
        }
        assert forall|p: int|
            0 <= p < cur.len() && (forall|k: int| 0 <= k < ts.len() ==> slot(ts[k]) != p) implies #[trigger] w[p]
            == cur[p] by {
            assert(slot(ts[ts.len() - 1]) != p);
            assert forall|k: int| 0 <= k < front.len() implies slot(front[k]) != p by {
                assert(front[k] == ts[k]);
            }
        }
    }
}

/// After a refresh from a schedule that follows the day, the list of the
/// day's times holds in each slot the next timing of that slot's prayer.
pub proof fn refresh_fills_every_slot(s: Seq<Timing>, cur: Seq<Timing>)
    requires
        cycles(s),
        s.len() >= PRAYERS_PER_DAY,
        cur.len() == PRAYERS_PER_DAY,
    ensures
        forall|i: int|
            0 <= i < PRAYERS_PER_DAY ==> write_slots(cur, s.take(PRAYERS_PER_DAY as int))[slot(
                #[trigger] s[i],
            )] == s[i],
        forall|j: int|
            0 <= j < PRAYERS_PER_DAY ==> slot(
                #[trigger] write_slots(cur, s.take(PRAYERS_PER_DAY as int))[j],
            ) == j,
{
    let ts = s.take(PRAYERS_PER_DAY as int);
    let o = slot(s[0]);
    assert forall|k: int| 0 <= k < ts.len() implies 0 <= #[trigger] slot(ts[k]) < cur.len() by {
        assert(ts[k] == s[k]);
    }
    assert forall|a: int, b: int| 0 <= a < b < ts.len() implies slot(ts[a]) != slot(ts[b]) by {
        assert(ts[a] == s[a] && ts[b] == s[b]);
        assert(slot(s[a]) == (o + a) % 6);
        assert(slot(s[b]) == (o + b) % 6);
    }
    lemma_write_distinct_slots(cur, ts);
    let w = write_slots(cur, ts);
    assert forall|i: int| 0 <= i < PRAYERS_PER_DAY implies w[slot(#[trigger] s[i])] == s[i] by {
        assert(ts[i] == s[i]);
    }
    assert forall|j: int| 0 <= j < PRAYERS_PER_DAY implies slot(#[trigger] w[j]) == j by {
        let i = (j - o + 6) % 6;
        assert(0 <= i < 6);
        assert(slot(s[i]) == (o + i) % 6);
        assert((o + i) % 6 == j);
        assert(ts[i] == s[i]);
    }
}

/// The schedule after ticks at the times `nows`, one after the other.
pub open spec fn run_state(s: Seq<Timing>, nows: Seq<i64>) -> Seq<Timing>
    decreases nows.len(),
{
    if nows.len() == 0 {
        s
    } else {
        tick_next(run_state(s, nows.drop_last()), nows.last())
    }
}

/// Each of the ticks at `nows` can be taken where it comes.
pub open spec fn run_allowed(s: Seq<Timing>, nows: Seq<i64>) -> bool {
    forall|k: int| 0 <= k < nows.len() ==> tick_allowed(run_state(s, #[trigger] nows.take(k)), nows[k])
}

/// What the ticks at `nows` announce, in order: for each announcement the
/// place in `s` of the timing announced and the number of the tick.
pub open spec fn announced(s: Seq<Timing>, nows: Seq<i64>) -> Seq<(int, int)>
    decreases nows.len(),
{
    if nows.len() == 0 {
        Seq::empty()
    } else {
        let before = run_state(s, nows.drop_last());
        let earlier = announced(s, nows.drop_last());
        if tick_outcome(before, nows.last()) is Due {
            earlier.push((s.len() - before.len(), nows.len() - 1))
        } else {
            earlier
        }
    }
}

/// Over any run of ticks: the schedule only loses timings from its front;
/// what is announced are timings taken from that front, in their order,
/// none twice, at most one per tick, each at a tick at or after its time
/// and less than two minutes after it.
pub proof fn ticks_announce_each_timing_once(s: Seq<Timing>, nows: Seq<i64>)
    requires
        run_allowed(s, nows),
    ensures
        run_state(s, nows).len() <= s.len(),
        run_state(s, nows) == s.skip(s.len() - run_state(s, nows).len()),
        forall|i: int|
            0 <= i < announced(s, nows).len() ==> {
                let (p, k) = #[trigger] announced(s, nows)[i];
                &&& 0 <= p < s.len() - run_state(s, nows).len()
                &&& 0 <= k < nows.len()
                &&& s[p].time <= nows[k] < s[p].time + LATE_SECONDS
            },
        forall|i: int, j: int|
            0 <= i < j < announced(s, nows).len() ==> {
                &&& (#[trigger] announced(s, nows)[i]).0 < (#[trigger] announced(s, nows)[j]).0
                &&& announced(s, nows)[i].1 < announced(s, nows)[j].1
            },
    decreases nows.len(),
{
    if nows.len() == 0 {
        assert(s.skip(0) =~= s);
    } else {
        let front = nows.drop_last();
        let last = nows.last();
        let n = nows.len() - 1;
        assert forall|k: int| 0 <= k < front.len() implies tick_allowed(
            run_state(s, #[trigger] front.take(k)),
            front[k],
        ) by {
            assert(front.take(k) =~= nows.take(k));
            assert(tick_allowed(run_state(s, nows.take(k)), nows[k]));
        }
        ticks_announce_each_timing_once(s, front);
        assert(nows.take(n) =~= front);
        assert(tick_allowed(run_state(s, nows.take(n)), nows[n]));
        let before = run_state(s, front);
        let d = s.len() - before.len();
        tick_only_drops_from_front(before, last);
        let k = choose|k: int| 0 <= k <= before.len() && #[trigger] before.skip(k) == tick_next(before, last);
        let after = run_state(s, nows);
        assert(after == before.skip(k));
        assert(after =~= s.skip(d + k));
        if tick_outcome(before, last) is Due {
            announced_when_due(before, last);
            assert(before[0] == s[d]);
            assert(after.len() == before.len() - 1);
            let a = announced(s, nows);
            let e = announced(s, front);
            assert(a == e.push((d, n)));
            assert forall|i: int| 0 <= i < a.len() implies {
                let (p, t) = #[trigger] a[i];
                &&& 0 <= p < s.len() - after.len()
                &&& 0 <= t < nows.len()
                &&& s[p].time <= nows[t] < s[p].time + LATE_SECONDS
            } by {
                if i < e.len() {
                    assert(a[i] == e[i]);
                    assert(nows[e[i].1] == front[e[i].1]);
                }
            }
            assert forall|i: int, j: int| 0 <= i < j < a.len() implies {
                &&& (#[trigger] a[i]).0 < (#[trigger] a[j]).0
                &&& a[i].1 < a[j].1
            } by {
                assert(a[i] == e[i]);
                if j < e.len() {
                    assert(a[j] == e[j]);
                }
            }
        } else {
            let a = announced(s, nows);
            let e = announced(s, front);
            assert(a == e);
            assert forall|i: int| 0 <= i < a.len() implies {
                let (p, t) = #[trigger] a[i];
                &&& 0 <= p < s.len() - after.len()
                &&& 0 <= t < nows.len()
                &&& s[p].time <= nows[t] < s[p].time + LATE_SECONDS
            } by {
                assert(nows[e[i].1] == front[e[i].1]);
            }
        }
    }
}

/// A tick goes by how late the clock is for the next timing: before it, the
/// tick waits and leaves the schedule; from its time on and for less than
/// two minutes, it announces that timing's prayer, whichever it is, and
/// takes exactly that timing off; from two minutes on, it skips every
/// timing before the tick and keeps the rest, from the first timing at or
/// after the tick.
pub proof fn tick_goes_by_lateness(s: Seq<Timing>, now: i64)
    requires
        tick_allowed(s, now),
    ensures
        now < s[0].time ==> tick_outcome(s, now) == TickOutcome::Waiting && tick_next(s, now) == s,
        s[0].time <= now < s[0].time + LATE_SECONDS ==> {
            &&& tick_outcome(s, now) == (TickOutcome::Due {
                prayer: s[0].prayer,
                reload: s.len() - 1 <= RELOAD_THRESHOLD,
            })
            &&& tick_next(s, now) == s.subrange(1, s.len() as int)
        },
        now >= s[0].time + LATE_SECONDS ==> {
            &&& tick_outcome(s, now) == TickOutcome::Skipped
            &&& exists|k: int|
                {
                    &&& 0 < k < s.len()
                    &&& tick_next(s, now) == s.subrange(k, s.len() as int)
                    &&& s[k].time >= now
                    &&& forall|j: int| 0 <= j < k ==> #[trigger] s[j].time < now
                }
        },
{
    if now < s[0].time {
    } else if now - s[0].time >= LATE_SECONDS {
        lemma_past_prefix(s, now, 0);
        let k = past_prefix(s, now, 0) as int;
        assert(before(s[0].time, now, 0));
        assert(tick_next(s, now) =~= s.subrange(k, s.len() as int));
        assert forall|j: int| 0 <= j < k implies #[trigger] s[j].time < now by {
            assert(before(s[j].time, now, 0));
        }
    } else {
        assert(tick_next(s, now) =~= s.subrange(1, s.len() as int));
    }
}

/// The `i`-th timing of a day is for the prayer at place `i` of the day, and
/// its time is what chrono reads from that day's own `i`-th time text (its
/// characters 1 to 5), the day's date text (characters 1 to 11) and the
/// offset.
pub proof fn each_time_is_read_from_its_own_text(day: DayRecord, zone: Seq<char>, i: int)
    requires
        day_readable(day, zone),
        0 <= i < PRAYERS_PER_DAY,
    ensures
        day_schedule(day, zone)[i].prayer.spec_index() == i,
        chrono_timestamp(
            day.timings@[i]@.subrange(1, 6) + seq![' '] + day.readable@.subrange(1, 12) + seq![' ']
                + zone,
            CALENDAR_TIME_FORMAT@,
        ) == Some(day_schedule(day, zone)[i].time),
{
    assert(time_of(day, i, zone) is Some);
}

/// The schedule of a run of days holds each day's six timings in their
/// places: the `i`-th timing of day `k` is at place `6 k + i`.
pub proof fn days_follow_one_another(days: Seq<DayRecord>, zone: Seq<char>, k: int, i: int)
    requires
        forall|j: int| 0 <= j < days.len() ==> day_readable(#[trigger] days[j], zone),
        0 <= k < days.len(),
        0 <= i < PRAYERS_PER_DAY,
    ensures
        calendar_schedule(days, zone).len() == PRAYERS_PER_DAY * days.len(),
        calendar_schedule(days, zone)[PRAYERS_PER_DAY * k + i] == day_schedule(days[k], zone)[i],
    decreases days.len(),
{
    calendar_follows_the_day(days, zone);
    let front = days.drop_last();
    assert forall|j: int| 0 <= j < front.len() implies day_readable(#[trigger] front[j], zone) by {
        assert(front[j] == days[j]);
    }
    calendar_follows_the_day(front, zone);
    if k < days.len() - 1 {
        assert(front[k] == days[k]);
        days_follow_one_another(front, zone, k, i);
        assert(PRAYERS_PER_DAY * k + i < PRAYERS_PER_DAY * front.len()) by (nonlinear_arith)
            requires
                0 <= k < front.len(),
                0 <= i < 6,
        ;
    } else {
        assert(PRAYERS_PER_DAY * k + i == PRAYERS_PER_DAY * front.len() + i);
    }
}

/// A timing lies before an instant exactly when its time, in nanoseconds,
/// is less than the instant's: the timings at the instant itself are not
/// past, those a fraction of a second before it are.
pub proof fn before_is_the_order_of_instants(time: i64, now_secs: i64, now_nanos: u32)
    requires
        now_nanos < 1_000_000_000,
    ensures
        before(time, now_secs, now_nanos) <==> time * 1_000_000_000 < now_secs * 1_000_000_000
            + now_nanos,
{
    if time < now_secs {
        assert(time * 1_000_000_000 + 1_000_000_000 <= now_secs * 1_000_000_000) by (nonlinear_arith)
            requires
                time < now_secs,
        ;
    } else if time > now_secs {
        assert(now_secs * 1_000_000_000 + 1_000_000_000 <= time * 1_000_000_000) by (nonlinear_arith)
            requires
                time > now_secs,
        ;
    }
}

} // verus!
