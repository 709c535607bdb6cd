use adhan_clock::json::{calendar_days, member, parse_json, quoted_text, read_calendar, Json};
use adhan_clock::schedule::calendar_timings;

fn day_json(date: &str, hour: u32) -> String {
    format!(
        r#"{{"timings":{{"Fajr":"0{h}:10 (CST)","Sunrise":"0{h}:20 (CST)","Dhuhr":"12:00 (CST)","Asr":"15:00 (CST)","Maghrib":"17:30 (CST)","Isha":"19:00 (CST)","Midnight":"00:01 (CST)"}},"date":{{"readable":"{d}","timestamp":"0"}}}}"#,
        h = hour,
        d = date
    )
}

fn answer(months: usize) -> String {
    let mut parts = Vec::new();
    for m in 1..=months {
        parts.push(format!(
            r#""{}":[{},{}]"#,
            m,
            day_json(&format!("01 {} 2025", month_name(m)), 5),
            day_json(&format!("02 {} 2025", month_name(m)), 6)
        ));
    }
    format!(r#"{{"code":200,"status":"OK","data":{{{}}}}}"#, parts.join(","))
}

fn month_name(m: usize) -> &'static str {
    ["Jan", "Feb", "Mar", "Apr", "May", "Jun", "Jul", "Aug", "Sep", "Oct", "Nov", "Dec"][m - 1]
}

#[test]
fn a_year_is_read_month_after_month() {
    let days = read_calendar(&answer(12)).unwrap();
    assert_eq!(days.len(), 24);
    assert_eq!(days[0].timings[0], "\"05:10 (CST)\"");
    assert_eq!(days[1].timings[1], "\"06:20 (CST)\"");
    assert_eq!(days[0].timings[5], "\"19:00 (CST)\"");
    assert_eq!(days[0].readable, "\"01 Jan 2025\"");
    assert_eq!(days[23].readable, "\"02 Dec 2025\"");
    let q = calendar_timings(&days, "-0600").unwrap();
    assert_eq!(q.len(), 144);
}

#[test]
fn a_missing_month_refuses_the_year() {
    assert!(read_calendar(&answer(11)).is_none());
}

#[test]
fn text_that_is_not_json_is_refused() {
    assert!(read_calendar("{\"data\":").is_none());
    assert!(parse_json("not json").is_none());
}

#[test]
fn a_time_that_is_not_a_string_refuses_the_year() {
    let text = answer(12).replacen("\"Fajr\":\"05:10 (CST)\"", "\"Fajr\":510", 1);
    assert!(read_calendar(&text).is_none());
    let text = answer(12).replacen("\"Isha\":\"19:00 (CST)\",", "", 1);
    assert!(read_calendar(&text).is_none());
}

#[test]
fn strings_are_written_back_as_json_writes_them() {
    assert_eq!(quoted_text("a\"b\\c\n\u{1}é"), serde_json::Value::String("a\"b\\c\n\u{1}é".to_string()).to_string());
    assert_eq!(quoted_text("\u{8}\t\u{c}\r\u{1f}"), "\"\\b\\t\\f\\r\\u001f\"");
}

#[test]
fn members_are_found_by_name() {
    let tree = parse_json(r#"{"a":1,"b":[true,null],"c":"x"}"#).unwrap();
    match member(&tree, "b") {
        Some(Json::Array(items)) => assert_eq!(items.len(), 2),
        _ => panic!("b should be an array"),
    }
    match member(&tree, "a") {
        Some(Json::Number(n)) => assert_eq!(n, "1"),
        _ => panic!("a should be a number"),
    }
    assert!(member(&tree, "d").is_none());
    assert!(calendar_days(&tree).is_none());
}
