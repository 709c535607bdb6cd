//! Names of what the clock keeps on disk and asks the calendar service for:
//! the cached calendar of a year, its request, and the files that hold the
//! chosen city, country and school of thought.

use vstd::prelude::*;

use crate::text::{int_text, nat_text, number_between, number_then_separator, push_char, push_int, push_nat};

verus! {

/// The cache file of a year's calendar:
/// `{prefix}{year}-{country}-{city}-{school}-lm.json`.
pub open spec fn cache_file_spec(
    prefix: Seq<char>,
    year: int,
    country: Seq<char>,
    city: Seq<char>,
    school: nat,
) -> Seq<char> {
    prefix + int_text(year) + seq!['-'] + country + seq!['-'] + city + seq!['-'] + nat_text(school)
        + "-lm.json"@
}

/// The request of a year's calendar:
/// `https://api.aladhan.com/v1/calendar/{year}?{query}&school={school}`.
pub open spec fn calendar_url_spec(year: int, query: Seq<char>, school: nat) -> Seq<char> {
    "https://api.aladhan.com/v1/calendar/"@ + int_text(year) + seq!['?'] + query + "&school="@
        + nat_text(school)
}

/// The cache file of the calendar of `year` for a city and a school.
pub fn cache_file_name(prefix: &str, year: i32, country: &str, city: &str, school: u32) -> (s: String)
    ensures
        s@ == cache_file_spec(prefix@, year as int, country@, city@, school as nat),
{
    let mut s = String::from_str(prefix);
    push_int(&mut s, year as i64);
    push_char(&mut s, '-');
    s.append(country);
    push_char(&mut s, '-');
    s.append(city);
    push_char(&mut s, '-');
    push_nat(&mut s, school as u64);
    s.append("-lm.json");
    assert(s@ =~= cache_file_spec(prefix@, year as int, country@, city@, school as nat));
    s
}

/// The request of the calendar of `year` for the city whose calendar query
/// is `query`, and a school.
pub fn calendar_url(year: i32, query: &str, school: u32) -> (s: String)
    ensures
        s@ == calendar_url_spec(year as int, query@, school as nat),
{
    let mut s = String::from_str("https://api.aladhan.com/v1/calendar/");
    push_int(&mut s, year as i64);
    push_char(&mut s, '?');
    s.append(query);
    s.append("&school=");
    push_nat(&mut s, school as u64);
    assert(s@ =~= calendar_url_spec(year as int, query@, school as nat));
    s
}

/// Different years or schools of thought of one city get different cache
/// files: the file's name gives back the year and the school.
pub proof fn cache_files_tell_settings_apart(
    prefix: Seq<char>,
    country: Seq<char>,
    city: Seq<char>,
    year1: int,
    school1: nat,
    year2: int,
    school2: nat,
)
    requires
        cache_file_spec(prefix, year1, country, city, school1) == cache_file_spec(
            prefix,
            year2,
            country,
            city,
            school2,
        ),
    ensures
        year1 == year2,
        school1 == school2,
{
    let q = country + seq!['-'] + city + seq!['-'];
    let l = "-lm.json"@;
    let r1 = q + nat_text(school1) + l;
    let r2 = q + nat_text(school2) + l;
    assert(cache_file_spec(prefix, year1, country, city, school1) =~= prefix + int_text(year1) + seq!['-']
        + r1);
    assert(cache_file_spec(prefix, year2, country, city, school2) =~= prefix + int_text(year2) + seq!['-']
        + r2);
    number_then_separator(prefix, year1, year2, '-', r1, r2);
    number_between(q, school1, school2, l);
}

/// Different years or schools of thought of one city's query are different
/// requests: the request gives back the year and the school.
pub proof fn requests_tell_settings_apart(
    query: Seq<char>,
    year1: int,
    school1: nat,
    year2: int,
    school2: nat,
)
    requires
        calendar_url_spec(year1, query, school1) == calendar_url_spec(year2, query, school2),
    ensures
        year1 == year2,
        school1 == school2,
{
    let p = "https://api.aladhan.com/v1/calendar/"@;
    let q = query + "&school="@;
    let l = Seq::<char>::empty();
    let r1 = q + nat_text(school1) + l;
    let r2 = q + nat_text(school2) + l;
    assert(calendar_url_spec(year1, query, school1) =~= p + int_text(year1) + seq!['?'] + r1);
    assert(calendar_url_spec(year2, query, school2) =~= p + int_text(year2) + seq!['?'] + r2);
    number_then_separator(p, year1, year2, '?', r1, r2);
    number_between(q, school1, school2, l);
}

/// Where a year's calendar is cached and where it is asked for.
pub struct CalendarRequest {
    pub year: i32,
    pub file: String,
    pub url: String,
}

/// The calendars that the schedule is read from: the one of `year` and the
/// one of the year after.
pub fn calendar_requests(
    prefix: &str,
    year: i32,
    country: &str,
    city: &str,
    query: &str,
    school: u32,
) -> (r: Vec<CalendarRequest>)
    requires
        year < i32::MAX,
    ensures
        r@.len() == 2,
        forall|k: int|
            0 <= k < 2 ==> {
                &&& (#[trigger] r@[k]).year == year + k
                &&& r@[k].file@ == cache_file_spec(prefix@, year + k, country@, city@, school as nat)
                &&& r@[k].url@ == calendar_url_spec(year + k, query@, school as nat)
            },
{
    let mut r: Vec<CalendarRequest> = Vec::new();
    r.push(
        CalendarRequest {
            year,
            file: cache_file_name(prefix, year, country, city, school),
            url: calendar_url(year, query, school),
        },
    );
    let next = year + 1;
    r.push(
        CalendarRequest {
            year: next,
            file: cache_file_name(prefix, next, country, city, school),
            url: calendar_url(next, query, school),
        },
    );
    r
}

/// One of the settings that the clock keeps in a file of its own.
#[derive(Clone, Copy, Debug, PartialEq, Eq, Structural)]
pub enum Setting {
    City,
    Country,
    School,
}

/// The name of a setting's file, without the prefix and `.txt`.
pub open spec fn setting_stem(setting: Setting) -> Seq<char> {
    match setting {
        Setting::City => "city"@,
        Setting::Country => "country"@,
        Setting::School => "school"@,
    }
}

/// The value of a setting before the user picks one.
pub open spec fn setting_default(setting: Setting) -> Seq<char> {
    match setting {
        Setting::City => "Dallas (Texas)"@,
        Setting::Country => "United States"@,
        Setting::School => "Hanafi time"@,
    }
}

/// The name of a setting's file, without the prefix and `.txt`.
pub fn setting_stem_text(setting: Setting) -> (s: &'static str)
    ensures
        s@ == setting_stem(setting),
{
    match setting {
        Setting::City => "city",
        Setting::Country => "country",
        Setting::School => "school",
    }
}

/// The file that holds a setting: `{prefix}{stem}.txt`.
pub fn setting_file_name(prefix: &str, setting: Setting) -> (s: String)
    ensures
        s@ == prefix@ + setting_stem(setting) + ".txt"@,
{
    let mut s = String::from_str(prefix);
    s.append(setting_stem_text(setting));
    s.append(".txt");
    s
}

/// The value of a setting at start-up: what its file holds when it could be
/// read, and otherwise the default.
pub fn setting_value(setting: Setting, stored: Option<String>) -> (s: String)
    ensures
        stored matches Some(v) ==> s@ == v@,
        stored is None ==> s@ == setting_default(setting),
{
    match stored {
        Some(v) => v,
        None => {
            let d = match setting {
                Setting::City => "Dallas (Texas)",
                Setting::Country => "United States",
                Setting::School => "Hanafi time",
            };
            String::from_str(d)
        },
    }
}

} // verus!
