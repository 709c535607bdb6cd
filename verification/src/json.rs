//! The calendar service's answer: its JSON text read into a tree, and the
//! walk over that tree that yields the days of a year's calendar.

use vstd::prelude::*;

use crate::prayer::{Prayer, PRAYERS_PER_DAY};
use crate::schedule::DayRecord;
use crate::text::{digit, digit_char, nat_text, push_char, push_nat};

verus! {

/// A JSON value. An object keeps its members in the order in which the
/// parser hands them out, each key once.
pub enum Json {
    Null,
    Bool(bool),
    /// A number, as its JSON text.
    Number(String),
    Text(String),
    Array(Vec<Json>),
    Object(Vec<(String, Json)>),
}

#[verifier::external_type_specification]
#[verifier::external_body]
pub struct ExJsonValue(serde_json::Value);

/// What serde_json's `from_str::<Value>` reads from a text, as a `Json`
/// tree, or `None` where it refuses the text.
pub uninterp spec fn json_of(text: Seq<char>) -> Option<Json>;

/// Reads a JSON text with serde_json's `from_str::<Value>`, and turns the
/// value into a `Json` tree. The contract names the result: it depends on
/// the text alone.
#[verifier::external_body]
pub fn parse_json(text: &str) -> (r: Option<Json>)
    ensures
        r == json_of(text@),
{
    match serde_json::from_str::<serde_json::Value>(text) {
        Ok(v) => Some(tree_of(v)),
        Err(_) => None,
    }
}

/// serde_json's `Value` as a `Json` tree, one variant for one variant:
/// numbers by their `to_string`, and objects in the order in which their
/// map hands out the members. It only converts, and is used by `parse_json`
/// alone, whose contract covers it.
#[verifier::external_body]
fn tree_of(v: serde_json::Value) -> Json {
    match v {
        serde_json::Value::Null => Json::Null,
        serde_json::Value::Bool(b) => Json::Bool(b),
        serde_json::Value::Number(n) => Json::Number(n.to_string()),
        serde_json::Value::String(s) => Json::Text(s),
        serde_json::Value::Array(a) => Json::Array(a.into_iter().map(tree_of).collect()),
        serde_json::Value::Object(o) => Json::Object(o.into_iter().map(|(k, x)| (k, tree_of(x))).collect()),
    }
}

/// The value of the first member named `key` among `members`.
pub open spec fn lookup(members: Seq<(String, Json)>, key: Seq<char>) -> Option<Json>
    decreases members.len(),
{
    if members.len() == 0 {
        None
    } else if members[0].0@ == key {
        Some(members[0].1)
    } else {
        lookup(members.drop_first(), key)
    }
}

/// The member `key` of `j`, as `j[key]` finds it: `None` when `j` is not an
/// object or has no such member.
pub open spec fn member_spec(j: Json, key: Seq<char>) -> Option<Json> {
    match j {
        Json::Object(members) => lookup(members@, key),
        _ => None,
    }
}

/// Lowercase hexadecimal digit of `d` (`d < 16`).
pub open spec fn hex_digit(d: nat) -> char {
    if d < 10 {
        digit(d as int)
    } else if d == 10 {
        'a'
    } else if d == 11 {
        'b'
    } else if d == 12 {
        'c'
    } else if d == 13 {
        'd'
    } else if d == 14 {
        'e'
    } else {
        'f'
    }
}

/// How JSON writes a character inside a string: `"` and `\` escaped, the
/// control characters below U+0020 as `\b`, `\t`, `\n`, `\f`, `\r` or
/// `\u00XX`, every other character as itself.
pub open spec fn escape_char(c: char) -> Seq<char> {
    if c == '"' {
        seq!['\\', '"']
    } else if c == '\\' {
        seq!['\\', '\\']
    } else if c == '\u{8}' {
        seq!['\\', 'b']
    } else if c == '\t' {
        seq!['\\', 't']
    } else if c == '\n' {
        seq!['\\', 'n']
    } else if c == '\u{c}' {
        seq!['\\', 'f']
    } else if c == '\r' {
        seq!['\\', 'r']
    } else if (c as u32) < 0x20 {
        seq!['\\', 'u', '0', '0', hex_digit((c as u32 / 16) as nat), hex_digit((c as u32 % 16) as nat)]
    } else {
        seq![c]
    }
}

/// The characters of `s` as JSON writes them inside a string.
pub open spec fn escaped(s: Seq<char>) -> Seq<char>
    decreases s.len(),
{
    if s.len() == 0 {
        Seq::empty()
    } else {
        escaped(s.drop_last()) + escape_char(s.last())
    }
}

/// The JSON text of the string `s`: quotes around its escaped characters.
pub open spec fn quoted(s: Seq<char>) -> Seq<char> {
    seq!['"'] + escaped(s) + seq!['"']
}

/// The JSON text of a member that is a string; `None` for a missing member
/// or a value of another kind.
pub open spec fn text_of(m: Option<Json>) -> Option<Seq<char>> {
    match m {
        Some(Json::Text(s)) => Some(quoted(s@)),
        _ => None,
    }
}

/// The JSON text of the day's `date.readable`.
pub open spec fn readable_of(day: Json) -> Option<Seq<char>> {
    match member_spec(day, "date"@) {
        Some(date) => text_of(member_spec(date, "readable"@)),
        None => None,
    }
}

/// The JSON text of the day's `timings[name]`.
pub open spec fn timing_of(day: Json, i: int) -> Option<Seq<char>> {
    match member_spec(day, "timings"@) {
        Some(timings) => text_of(member_spec(timings, Prayer::spec_at(i as nat).spec_name())),
        None => None,
    }
}

/// What is read of one day: the JSON texts of its six times, in the order
/// of the day, and of its readable date.
pub type DayEntry = (Seq<Seq<char>>, Seq<char>);

/// The day's entry; `None` when one of the seven values is missing or not a
/// string. (From the JSON text of any other kind of value no time could be
/// read: it is too short, or does not start with a digit after its first
/// character.)
pub open spec fn day_entry(day: Json) -> Option<DayEntry> {
    if readable_of(day) is Some && forall|i: int|
        0 <= i < PRAYERS_PER_DAY ==> #[trigger] timing_of(day, i) is Some {
        Some(
            (
                Seq::new(PRAYERS_PER_DAY as nat, |i: int| timing_of(day, i).unwrap()),
                readable_of(day).unwrap(),
            ),
        )
    } else {
        None
    }
}

/// The entries of a run of days, in order; `None` when one is missing.
pub open spec fn days_entries(days: Seq<Json>) -> Option<Seq<DayEntry>>
    decreases days.len(),
{
    if days.len() == 0 {
        Some(Seq::empty())
    } else {
        match (days_entries(days.drop_last()), day_entry(days.last())) {
            (Some(front), Some(e)) => Some(front.push(e)),
            _ => None,
        }
    }
}

/// The days of month `m`: the array that `data` holds under the key `m`
/// (`"1"` to `"12"`).
pub open spec fn month_days(data: Json, m: nat) -> Option<Seq<Json>> {
    match member_spec(data, nat_text(m)) {
        Some(Json::Array(days)) => Some(days@),
        _ => None,
    }
}

/// The entries of the months 1 to `n` of `data`, month after month.
pub open spec fn months_entries(data: Json, n: nat) -> Option<Seq<DayEntry>>
    decreases n,
{
    if n == 0 {
        Some(Seq::empty())
    } else {
        match months_entries(data, (n - 1) as nat) {
            Some(front) => match month_days(data, n) {
                Some(days) => match days_entries(days) {
                    Some(rest) => Some(front + rest),
                    None => None,
                },
                None => None,
            },
            None => None,
        }
    }
}

/// The entries of a year's calendar: the twelve months under `data`.
pub open spec fn calendar_entries(answer: Json) -> Option<Seq<DayEntry>> {
    match member_spec(answer, "data"@) {
        Some(data) => months_entries(data, 12),
        None => None,
    }
}

/// The records hold the entries: each its six time texts and its date text.
pub open spec fn records_hold(records: Seq<DayRecord>, entries: Seq<DayEntry>) -> bool {
    &&& records.len() == entries.len()
    &&& forall|k: int|
        0 <= k < records.len() ==> {
            &&& (#[trigger] records[k]).timings@.len() == PRAYERS_PER_DAY
            &&& forall|i: int|
                0 <= i < PRAYERS_PER_DAY ==> #[trigger] records[k].timings@[i]@ == entries[k].0[i]
            &&& records[k].readable@ == entries[k].1
        }
}

/// The member `key` of `j`.
pub fn member<'a>(j: &'a Json, key: &str) -> (r: Option<&'a Json>)
    ensures
        match r {
            Some(x) => member_spec(*j, key@) == Some(*x),
            None => member_spec(*j, key@) is None,
        },
{
    match j {
        Json::Object(members) => {
            let k = String::from_str(key);
            let mut i: usize = 0;
            assert(members@.skip(0) =~= members@);
            while i < members.len()
                invariant
                    i <= members@.len(),
                    k@ == key@,
                    member_spec(*j, key@) == lookup(members@, key@),
                    lookup(members@, key@) == lookup(members@.skip(i as int), key@),
                decreases members@.len() - i,
            {
                if members[i].0 == k {
                    assert(members@[i as int].0@ == key@);
                    assert(members@.skip(i as int)[0] == members@[i as int]);
                    assert(lookup(members@.skip(i as int), key@) == Some(members@[i as int].1));
                    let found = &members[i].1;
                    assert(*found == members@[i as int].1);
                    return Some(found);
                }
                assert(members@.skip(i as int).drop_first() =~= members@.skip(i + 1));
                i = i + 1;
            }
            None
        },
        _ => None,
    }
}

/// Lowercase hexadecimal digit of `d`.
fn hex_char(d: u32) -> (c: char)
    requires
        d < 16,
    ensures
        c == hex_digit(d as nat),
{
    if d < 10 {
        digit_char(d as u64)
    } else if d == 10 {
        'a'
    } else if d == 11 {
        'b'
    } else if d == 12 {
        'c'
    } else if d == 13 {
        'd'
    } else if d == 14 {
        'e'
    } else {
        'f'
    }
}

/// Appends `c` as JSON writes it inside a string.
fn push_escaped(s: &mut String, c: char)
    ensures
        final(s)@ == old(s)@ + escape_char(c),
{
    let ghost start = s@;
    if c == '"' {
        push_char(s, '\\');
        push_char(s, '"');
    } else if c == '\\' {
        push_char(s, '\\');
        push_char(s, '\\');
    } else if c == '\u{8}' {
        push_char(s, '\\');
        push_char(s, 'b');
    } else if c == '\t' {
        push_char(s, '\\');
        push_char(s, 't');
    } else if c == '\n' {
        push_char(s, '\\');
        push_char(s, 'n');
    } else if c == '\u{c}' {
        push_char(s, '\\');
        push_char(s, 'f');
    } else if c == '\r' {
        push_char(s, '\\');
        push_char(s, 'r');
    } else if (c as u32) < 0x20 {
        let code = c as u32;
        push_char(s, '\\');
        push_char(s, 'u');
        push_char(s, '0');
        push_char(s, '0');
        push_char(s, hex_char(code / 16));
        push_char(s, hex_char(code % 16));
    } else {
        push_char(s, c);
    }
    assert(s@ =~= start + escape_char(c));
}

/// The JSON text of the string `text`.
pub fn quoted_text(text: &str) -> (s: String)
    ensures
        s@ == quoted(text@),
{
    let n = text.unicode_len();
    let mut s = String::new();
    push_char(&mut s, '"');
    let mut i: usize = 0;
    while i < n
        invariant
            n == text@.len(),
            i <= n,
            s@ == seq!['"'] + escaped(text@.take(i as int)),
        decreases n - i,
    {
        let c = text.get_char(i);
        push_escaped(&mut s, c);
        assert(text@.take(i + 1).drop_last() =~= text@.take(i as int));
        i = i + 1;
        assert(s@ =~= seq!['"'] + escaped(text@.take(i as int)));
    }
    assert(text@.take(n as int) =~= text@);
    push_char(&mut s, '"');
    assert(s@ =~= quoted(text@));
    s
}

/// The JSON text of `j[key]` when it is a string.
fn member_text(j: &Json, key: &str) -> (r: Option<String>)
    ensures
        match r {
            Some(t) => text_of(member_spec(*j, key@)) == Some(t@),
            None => text_of(member_spec(*j, key@)) is None,
        },
{
    match member(j, key) {
        Some(Json::Text(s)) => Some(quoted_text(s.as_str())),
        _ => None,
    }
}

/// The record of one day of the calendar; `None` when one of its six times
/// or its readable date is missing or not a string.
pub fn day_record(day: &Json) -> (r: Option<DayRecord>)
    ensures
        r is Some <==> day_entry(*day) is Some,
        r matches Some(d) ==> records_hold(seq![d], seq![day_entry(*day).unwrap()]),
{
    let readable = match member(day, "date") {
        Some(date) => member_text(date, "readable"),
        None => None,
    };
    let readable = match readable {
        Some(t) => t,
        None => {
            return None;
        },
    };
    let timings = match member(day, "timings") {
        Some(t) => t,
        None => {
            proof {
                assert(timing_of(*day, 0) is None);
            }
            return None;
        },
    };
    let mut texts: Vec<String> = Vec::new();
    let mut i: usize = 0;
    while i < PRAYERS_PER_DAY
        invariant
            i <= PRAYERS_PER_DAY,
            member_spec(*day, "timings"@) == Some(*timings),
            texts@.len() == i,
            forall|j: int|
                0 <= j < i ==> timing_of(*day, j) == Some(#[trigger] texts@[j]@),
        decreases PRAYERS_PER_DAY - i,
    {
        let name = Prayer::at(i).name();
        match member_text(timings, name) {
            Some(t) => {
                texts.push(t);
            },
            None => {
                proof {
                    assert(timing_of(*day, i as int) is None);
                }
                return None;
            },
        }
        i = i + 1;
    }
    let d = DayRecord { timings: texts, readable };
    proof {
        assert forall|j: int| 0 <= j < PRAYERS_PER_DAY implies #[trigger] timing_of(*day, j) is Some by {
            assert(timing_of(*day, j) == Some(texts@[j]@));
        }
        let e = day_entry(*day).unwrap();
        assert forall|j: int| 0 <= j < PRAYERS_PER_DAY implies #[trigger] d.timings@[j]@ == e.0[j] by {
            assert(timing_of(*day, j) == Some(texts@[j]@));
        }
    }
    Some(d)
}

/// The days of a run of day values, in order.
fn days_records(days: &Vec<Json>, out: &mut Vec<DayRecord>) -> (ok: bool)
    ensures
        ok <==> days_entries(days@) is Some,
        ok ==> records_hold(final(out)@.skip(old(out)@.len() as int), days_entries(days@).unwrap()),
        ok ==> final(out)@.take(old(out)@.len() as int) == old(out)@,
        ok ==> final(out)@.len() >= old(out)@.len(),
{
    let ghost start = out@;
    let mut k: usize = 0;
    while k < days.len()
        invariant
            k <= days@.len(),
            days_entries(days@.take(k as int)) is Some,
            out@.take(start.len() as int) == start,
            out@.len() >= start.len(),
            records_hold(out@.skip(start.len() as int), days_entries(days@.take(k as int)).unwrap()),
        decreases days@.len() - k,
    {
        assert(days@.take(k + 1).drop_last() =~= days@.take(k as int));
        assert(days@.take(k + 1).last() == days@[k as int]);
        match day_record(&days[k]) {
            Some(d) => {
                let ghost before = out@;
                out.push(d);
                assert(out@.take(start.len() as int) =~= start);
                assert(out@.skip(start.len() as int) =~= before.skip(start.len() as int).push(d));
                proof {
                    lemma_records_concat(
                        before.skip(start.len() as int),
                        days_entries(days@.take(k as int)).unwrap(),
                        seq![d],
                        seq![day_entry(days@[k as int]).unwrap()],
                    );
                    assert(before.skip(start.len() as int) + seq![d] =~= before.skip(start.len() as int).push(d));
                    assert(days_entries(days@.take(k as int)).unwrap() + seq![day_entry(days@[k as int]).unwrap()]
                        =~= days_entries(days@.take(k as int)).unwrap().push(day_entry(days@[k as int]).unwrap()));
                }
            },
            None => {
                proof {
                    lemma_days_entries_none(days@, k as int);
                }
                return false;
            },
        }
        k = k + 1;
    }
    assert(days@.take(days@.len() as int) =~= days@);
    true
}

/// Records that hold two runs of entries, one after the other, hold the
/// two runs one after the other.
proof fn lemma_records_concat(
    a: Seq<DayRecord>,
    ea: Seq<DayEntry>,
    b: Seq<DayRecord>,
    eb: Seq<DayEntry>,
)
    requires
        records_hold(a, ea),
        records_hold(b, eb),
    ensures
        records_hold(a + b, ea + eb),
{
    let r = a + b;
    let e = ea + eb;
    assert forall|k: int| 0 <= k < r.len() implies {
        &&& (#[trigger] r[k]).timings@.len() == PRAYERS_PER_DAY
        &&& forall|i: int| 0 <= i < PRAYERS_PER_DAY ==> #[trigger] r[k].timings@[i]@ == e[k].0[i]
        &&& r[k].readable@ == e[k].1
    } by {
        if k < a.len() {
            assert(r[k] == a[k] && e[k] == ea[k]);
        } else {
            assert(r[k] == b[k - a.len()] && e[k] == eb[k - a.len()]);
        }
    }
}

/// Once a day of a run has no entry, no longer run has entries.
proof fn lemma_days_entries_none(days: Seq<Json>, k: int)
    requires
        0 <= k < days.len(),
        day_entry(days[k]) is None,
    ensures
        days_entries(days) is None,
    decreases days.len(),
{
    if k < days.len() - 1 {
        assert(days.drop_last()[k] == days[k]);
        lemma_days_entries_none(days.drop_last(), k);
    }
}

/// Once a month has no entries, no later count of months has them.
proof fn lemma_months_entries_none(data: Json, m: nat, n: nat)
    requires
        1 <= m <= n,
        months_entries(data, m) is None,
    ensures
        months_entries(data, n) is None,
    decreases n,
{
    if m < n {
        lemma_months_entries_none(data, m, (n - 1) as nat);
    }
}

/// The days of a year's calendar from the service's answer: the days of
/// the arrays under `data` keyed `"1"` to `"12"`, month after month, each
/// with the JSON texts of its six times and of its readable date. `None`
/// when a month, a day's time or its readable date is missing or not of the
/// kind that is read.
pub fn calendar_days(answer: &Json) -> (r: Option<Vec<DayRecord>>)
    ensures
        r is Some <==> calendar_entries(*answer) is Some,
        r matches Some(v) ==> records_hold(v@, calendar_entries(*answer).unwrap()),
{
    let data = match member(answer, "data") {
        Some(d) => d,
        None => {
            return None;
        },
    };
    let mut out: Vec<DayRecord> = Vec::new();
    let mut m: u64 = 1;
    while m <= 12
        invariant
            1 <= m <= 13,
            member_spec(*answer, "data"@) == Some(*data),
            months_entries(*data, (m - 1) as nat) is Some,
            records_hold(out@, months_entries(*data, (m - 1) as nat).unwrap()),
        decreases 13 - m,
    {
        let mut key = String::new();
        push_nat(&mut key, m);
        assert(key@ =~= nat_text(m as nat));
        match member(data, key.as_str()) {
            Some(Json::Array(days)) => {
                let ghost before = out@;
                let ok = days_records(days, &mut out);
                proof {
                    assert(month_days(*data, m as nat) == Some(days@));
                }
                if !ok {
                    proof {
                        lemma_months_entries_none(*data, m as nat, 12);
                    }
                    return None;
                }
                proof {
                    let front = months_entries(*data, (m - 1) as nat).unwrap();
                    let rest = days_entries(days@).unwrap();
                    assert(months_entries(*data, m as nat) == Some(front + rest));
                    assert(out@ =~= out@.take(before.len() as int) + out@.skip(before.len() as int));
                    lemma_records_concat(before, front, out@.skip(before.len() as int), rest);
                }
            },
            _ => {
                proof {
                    assert(month_days(*data, m as nat) is None);
                    lemma_months_entries_none(*data, m as nat, 12);
                }
                return None;
            },
        }
        m = m + 1;
    }
    Some(out)
}

/// The days of a year's calendar, read from the service's answer text.
/// `None` when the text is not JSON or its days are not all there.
pub fn read_calendar(text: &str) -> (r: Option<Vec<DayRecord>>)
    ensures
        r is Some <==> (json_of(text@) matches Some(j) && calendar_entries(j) is Some),
        r matches Some(v) ==> records_hold(
            v@,
            calendar_entries(json_of(text@).unwrap()).unwrap(),
        ),
{
    match parse_json(text) {
        Some(answer) => calendar_days(&answer),
        None => None,
    }
}

/// The key under which the calendar holds month `m`, written out.
pub open spec fn month_key(m: nat) -> Seq<char> {
    if m == 1 {
        seq!['1']
    } else if m == 2 {
        seq!['2']
    } else if m == 3 {
        seq!['3']
    } else if m == 4 {
        seq!['4']
    } else if m == 5 {
        seq!['5']
    } else if m == 6 {
        seq!['6']
    } else if m == 7 {
        seq!['7']
    } else if m == 8 {
        seq!['8']
    } else if m == 9 {
        seq!['9']
    } else if m == 10 {
        seq!['1', '0']
    } else if m == 11 {
        seq!['1', '1']
    } else {
        seq!['1', '2']
    }
}

/// The array that `data` holds under `key`, if it holds one.
pub open spec fn array_under(data: Json, key: Seq<char>) -> Option<Seq<Json>> {
    match member_spec(data, key) {
        Some(Json::Array(days)) => Some(days@),
        _ => None,
    }
}

/// Month `m` of a calendar is read from the array under the key `"m"`, and
/// the months are read one after the other: the entries of months 1 to `m`
/// are those of months 1 to `m - 1` followed by the entries of the days
/// under `"m"`.
pub proof fn months_are_read_in_order(data: Json, m: nat)
    requires
        1 <= m <= 12,
    ensures
        month_days(data, m) == array_under(data, month_key(m)),
        months_entries(data, m) is Some <==> (months_entries(data, (m - 1) as nat) is Some
            && array_under(data, month_key(m)) is Some && days_entries(
            array_under(data, month_key(m)).unwrap(),
        ) is Some),
        months_entries(data, m) is Some ==> months_entries(data, m).unwrap() == months_entries(
            data,
            (m - 1) as nat,
        ).unwrap() + days_entries(array_under(data, month_key(m)).unwrap()).unwrap(),
{
    reveal_with_fuel(nat_text, 2);
    assert(nat_text(m) =~= month_key(m));
}

/// The entries of a run of days are each day's entry, in the days' order.
pub proof fn days_are_read_in_order(days: Seq<Json>)
    ensures
        days_entries(days) is Some <==> forall|k: int|
            0 <= k < days.len() ==> #[trigger] day_entry(days[k]) is Some,
        days_entries(days) is Some ==> {
            &&& days_entries(days).unwrap().len() == days.len()
            &&& forall|k: int|
                0 <= k < days.len() ==> #[trigger] days_entries(days).unwrap()[k] == day_entry(
                    days[k],
                ).unwrap()
        },
    decreases days.len(),
{
    if days.len() > 0 {
        let front = days.drop_last();
        days_are_read_in_order(front);
        if days_entries(days) is Some {
            assert forall|k: int| 0 <= k < days.len() implies #[trigger] days_entries(days).unwrap()[k]
                == day_entry(days[k]).unwrap() by {
                if k < front.len() {
                    assert(front[k] == days[k]);
                }
            }
        }
        if forall|k: int| 0 <= k < days.len() ==> #[trigger] day_entry(days[k]) is Some {
            assert forall|k: int| 0 <= k < front.len() implies #[trigger] day_entry(front[k]) is Some by {
                assert(front[k] == days[k]);
            }
        }
        if days_entries(days) is Some {
            assert forall|k: int| 0 <= k < days.len() implies #[trigger] day_entry(days[k]) is Some by {
                if k < front.len() {
                    assert(front[k] == days[k]);
                }
            }
        }
    }
}

/// A day's entry holds the JSON texts of its `Fajr`, `Sunrise`, `Dhuhr`,
/// `Asr`, `Maghrib` and `Isha` times, in that order, found under
/// `timings`, and of its `readable` date found under `date`.
pub proof fn day_entry_names_its_times(day: Json)
    requires
        day_entry(day) is Some,
    ensures
        ({
            let timings = member_spec(day, seq!['t', 'i', 'm', 'i', 'n', 'g', 's']).unwrap();
            let e = day_entry(day).unwrap();
            &&& e.0.len() == 6
            &&& Some(e.0[0]) == text_of(member_spec(timings, seq!['F', 'a', 'j', 'r']))
            &&& Some(e.0[1]) == text_of(member_spec(timings, seq!['S', 'u', 'n', 'r', 'i', 's', 'e']))
            &&& Some(e.0[2]) == text_of(member_spec(timings, seq!['D', 'h', 'u', 'h', 'r']))
            &&& Some(e.0[3]) == text_of(member_spec(timings, seq!['A', 's', 'r']))
            &&& Some(e.0[4]) == text_of(member_spec(timings, seq!['M', 'a', 'g', 'h', 'r', 'i', 'b']))
            &&& Some(e.0[5]) == text_of(member_spec(timings, seq!['I', 's', 'h', 'a']))
            &&& Some(e.1) == text_of(
                member_spec(
                    member_spec(day, seq!['d', 'a', 't', 'e']).unwrap(),
                    seq!['r', 'e', 'a', 'd', 'a', 'b', 'l', 'e'],
                ),
            )
        }),
{
    reveal_strlit("timings");
    reveal_strlit("date");
    reveal_strlit("readable");
    reveal_strlit("Fajr");
    reveal_strlit("Sunrise");
    reveal_strlit("Dhuhr");
    reveal_strlit("Asr");
    reveal_strlit("Maghrib");
    reveal_strlit("Isha");
    assert(timing_of(day, 0) is Some);
    assert(timing_of(day, 1) is Some);
    assert(timing_of(day, 2) is Some);
    assert(timing_of(day, 3) is Some);
    assert(timing_of(day, 4) is Some);
    assert(timing_of(day, 5) is Some);
    assert("timings"@ =~= seq!['t', 'i', 'm', 'i', 'n', 'g', 's']);
    assert("date"@ =~= seq!['d', 'a', 't', 'e']);
    assert("readable"@ =~= seq!['r', 'e', 'a', 'd', 'a', 'b', 'l', 'e']);
    assert("Fajr"@ =~= seq!['F', 'a', 'j', 'r']);
    assert("Sunrise"@ =~= seq!['S', 'u', 'n', 'r', 'i', 's', 'e']);
    assert("Dhuhr"@ =~= seq!['D', 'h', 'u', 'h', 'r']);
    assert("Asr"@ =~= seq!['A', 's', 'r']);
    assert("Maghrib"@ =~= seq!['M', 'a', 'g', 'h', 'r', 'i', 'b']);
    assert("Isha"@ =~= seq!['I', 's', 'h', 'a']);
}

} // verus!
