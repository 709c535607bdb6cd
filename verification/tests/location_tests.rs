use adhan_clock::location::{
    find_name, insertion_point, names_sorted, lowercase_all, school_code, search_position, text_precedes, City,
    CityTable, Country,
};
use adhan_clock::requests::{
    cache_file_name, calendar_requests, calendar_url, setting_file_name, setting_value, Setting,
};

fn names(v: &[&str]) -> Vec<String> {
    v.iter().map(|s| s.to_string()).collect()
}

fn table() -> CityTable {
    let city = |name: &str, query: &str| City { name: name.to_string(), query: query.to_string() };
    CityTable {
        countries: vec![
            Country {
                name: "Egypt".to_string(),
                cities: vec![city("Alexandria", "city=Alexandria&country=EG"), city("Cairo", "city=Cairo&country=EG")],
            },
            Country {
                name: "United States".to_string(),
                cities: vec![
                    city("Chicago (Illinois)", "city=Chicago&state=IL&country=US"),
                    city("Dallas (Texas)", "city=Dallas&state=TX&country=US"),
                ],
            },
        ],
    }
}

#[test]
fn texts_are_ordered_as_str_orders_them() {
    assert!(text_precedes("abc", "abd"));
    assert!(text_precedes("ab", "abc"));
    assert!(!text_precedes("abc", "abc"));
    assert!(text_precedes("Zebra", "apple"));
    assert!(text_precedes("zürich", "zz") == ("zürich" < "zz"));
}

#[test]
fn insertion_points_match_binary_search() {
    let list = names(&["canada", "egypt", "india", "united states"]);
    for key in ["", "a", "canada", "d", "egypt", "india", "u", "united states", "zz"] {
        let expected = match list.binary_search(&key.to_string()) {
            Ok(i) => i,
            Err(i) => i,
        };
        assert_eq!(insertion_point(&list, key), expected);
    }
}

#[test]
fn searching_finds_the_lowercase_place() {
    let list = lowercase_all(&names(&["Canada", "Egypt", "India", "United States"]));
    assert_eq!(list, names(&["canada", "egypt", "india", "united states"]));
    assert_eq!(search_position(&list, ""), None);
    assert_eq!(search_position(&list, "EG"), Some(1));
    assert_eq!(search_position(&list, "Unit"), Some(3));
    assert_eq!(search_position(&list, "zambia"), Some(4));
}

#[test]
fn finding_a_name_needs_the_exact_name() {
    let list = names(&["Alexandria", "Cairo"]);
    assert_eq!(find_name(&list, "Cairo"), Some(1));
    assert_eq!(find_name(&list, "cairo"), None);
    assert_eq!(find_name(&list, "Giza"), None);
}

#[test]
fn the_table_answers_by_country_and_city() {
    let t = table();
    assert_eq!(t.country_names(), names(&["Egypt", "United States"]));
    assert_eq!(t.country_index("United States"), Some(1));
    assert_eq!(t.country_index("France"), None);
    assert_eq!(t.city_names(0), names(&["Alexandria", "Cairo"]));
    assert_eq!(t.city_index(1, "Dallas (Texas)"), Some(1));
    assert_eq!(t.city_index(1, "Cairo"), None);
    assert_eq!(t.city_query("Egypt", "Cairo"), Some("city=Cairo&country=EG".to_string()));
    assert_eq!(t.city_query("Egypt", "Dallas (Texas)"), None);
}

#[test]
fn schools_have_codes() {
    assert_eq!(school_code(&"Majority time".to_string()), Some(0));
    assert_eq!(school_code(&"Hanafi time".to_string()), Some(1));
    assert_eq!(school_code(&"hanafi time".to_string()), None);
}

#[test]
fn calendars_are_cached_and_requested_by_name() {
    assert_eq!(
        cache_file_name("/data/", 2025, "United States", "Dallas (Texas)", 1),
        "/data/2025-United States-Dallas (Texas)-1-lm.json"
    );
    assert_eq!(
        calendar_url(2025, "city=Dallas&state=TX&country=US", 0),
        "https://api.aladhan.com/v1/calendar/2025?city=Dallas&state=TX&country=US&school=0"
    );
    let r = calendar_requests("", 2025, "Egypt", "Cairo", "city=Cairo&country=EG", 1);
    assert_eq!(r.len(), 2);
    assert_eq!(r[1].year, 2026);
    assert_eq!(r[1].file, "2026-Egypt-Cairo-1-lm.json");
    assert_eq!(r[1].url, "https://api.aladhan.com/v1/calendar/2026?city=Cairo&country=EG&school=1");
}

#[test]
fn settings_have_files_and_defaults() {
    assert_eq!(setting_file_name("p/", Setting::Country), "p/country.txt");
    assert_eq!(setting_value(Setting::City, None), "Dallas (Texas)");
    assert_eq!(setting_value(Setting::Country, None), "United States");
    assert_eq!(setting_value(Setting::School, None), "Hanafi time");
    assert_eq!(setting_value(Setting::School, Some("Majority time".to_string())), "Majority time");
}

#[test]
fn tables_are_checked_for_order() {
    assert!(table().is_wf());
    let mut t = table();
    t.countries.swap(0, 1);
    assert!(!t.is_wf());
    let mut t = table();
    t.countries[1].cities.swap(0, 1);
    assert!(!t.is_wf());
    assert!(names_sorted(&names(&[])));
    assert!(names_sorted(&names(&["a", "b", "c"])));
    assert!(!names_sorted(&names(&["a", "a"])));
    assert!(!names_sorted(&names(&["b", "a", "c"])));
}
