# adhan_clock

An adhan clock whose logic is verified with Verus.

- `src/` — the verified library:
  - `schedule.rs`: reading the yearly prayer calendars into a schedule,
    dropping the times already past, advancing the schedule as the clock
    ticks (announce, skip when late, wait), the countdown text, and the list
    of the day's times; with the properties that a tick only drops timings
    from the front and keeps the schedule in order.
  - `clock.rs`: the clock face (`%I:%M:%S %p`, `%a %m-%d-%Y`, `%z`) and the
    rows of the day's times, in the machine's time zone.
  - `json.rs`: the calendar service's answer read as a JSON tree, and the
    walk over it that yields the days of a year's calendar.
  - `location.rs`: the table of countries and cities, the searches over its
    sorted name lists, and the codes of the schools of thought.
  - `requests.rs`: the names of the cached calendars, their requests, and the
    settings files with their defaults.
  - `reload.rs`: which load of the calendars may replace the schedule, and
    that the load begun last is the one whose schedule stays.
  - `prayer.rs`, `text.rs`: the six daily times, and decimal text.
- `app/` — the program around it: threads, files, network, audio and a text
  front end.
- `tests/` — tests of the library.
