use std::cmp::Ordering;

use chrono::NaiveDate;
use line_search::datetime::{compare_by_datetime, compare_keys, date_prefix, DateTimeKey};
use line_search::locate::find_line_by_position;
use line_search::search::{binary_search_line, SearchError};
use line_search::source::RandomAccess;

#[test]
fn test_find_line_with_position() {
    let string = String::from("1 - Hello\n2 - World\n3 - And goodbye\n\n");
    assert_eq!(find_line_by_position(&string, 0), Some(String::from("1 - Hello")));
    assert_eq!(find_line_by_position(&string, 5), Some(String::from("1 - Hello")));
    assert_eq!(find_line_by_position(&string, 9), Some(String::from("1 - Hello")));

    assert_eq!(find_line_by_position(&string, 10), Some(String::from("2 - World")));
    assert_eq!(find_line_by_position(&string, 18), Some(String::from("2 - World")));
    assert_eq!(find_line_by_position(&string, 19), Some(String::from("2 - World")));

    assert_eq!(find_line_by_position(&string, 20), Some(String::from("3 - And goodbye")));
    assert_eq!(find_line_by_position(&string, 30), Some(String::from("3 - And goodbye")));
    assert_eq!(find_line_by_position(&string, 35), Some(String::from("3 - And goodbye")));

    assert_eq!(find_line_by_position(&string, 36), None);
}

#[test]
fn test_binary_search_line() {
    let string = String::from("1 - Lorem\n2 - Ipsum\n3 - Dolor sit amet\n4 - Consectetur adipiscing elit\n5 - Excepteur sint");
    let length = string.len() as u64;

    let result = binary_search_line(&string, length, |x| compare_by_bullet_number(x, 4));
    assert_eq!(result, Ok(Some(String::from("4 - Consectetur adipiscing elit"))));
}

fn compare_by_bullet_number(line: &str, n: usize) -> Result<Ordering, String> {
    let delimiter = " - ";
    let prefix = line
        .split_once(delimiter)
        .ok_or(format!("Found badly formatted line: {}", line))?
        .0;
    let parsed_number = prefix.parse::<usize>().map_err(|e| e.to_string())?;
    Ok(parsed_number.cmp(&n))
}

#[test]
fn test_binary_search_line_date() {
    let string = String::from("2020-01-01 Lorem\n2020-01-05 Ipsum\n2020-01-10 Dolor sit amet\n2020-01-11 Excepteur sint");
    let length = string.len() as u64;
    let target = NaiveDate::from_ymd_opt(2020, 1, 5).unwrap();
    let result = binary_search_line(&string, length, |x| compare_by_date(x, target));
    assert_eq!(result, Ok(Some(String::from("2020-01-05 Ipsum"))));
}

fn compare_by_date(line: &str, date: NaiveDate) -> Result<Ordering, String> {
    let delimiter = " ";
    let date_format = "%Y-%m-%d";
    let date_prefix = line
        .split_once(delimiter)
        .ok_or(format!("Found badly formatted line: {}", line))?
        .0;
    let parsed_date = NaiveDate::parse_from_str(date_prefix, date_format).map_err(|e| e.to_string())?;
    Ok(parsed_date.cmp(&date))
}

#[test]
fn test_binary_search_line_datetime() {
    let date_format = "%Y-%m-%d %H:%M:%S";
    let delimiter = " - ";
    let string = String::from("2020-01-01 14:27:28 - Lorem\n2020-01-01 18:59:15 - Ipsum\n2020-01-02 01:17:24 - Dolor sit amet");
    let length = string.len() as u64;
    let result = binary_search_line(&string, length, |line| {
        compare_by_datetime(line, delimiter, "2020-01-01 14:27:28", date_format)
    });
    assert_eq!(result, Ok(Some(String::from("2020-01-01 14:27:28 - Lorem"))));
}

#[test]
fn search_on_empty_length_never_calls_comparator() {
    let string = String::from("1 - Lorem\n");
    let result = binary_search_line(&string, 0, |_x: &str| -> Result<Ordering, String> {
        panic!("comparator called on an empty search")
    });
    assert_eq!(result, Ok(None));
}

#[test]
fn search_for_missing_key_finds_nothing() {
    let string = String::from("1 - Lorem\n2 - Ipsum\n3 - Dolor sit amet\n5 - Consectetur adipiscing elit\n6 - Excepteur sint");
    let length = string.len() as u64;
    let result = binary_search_line(&string, length, |x| compare_by_bullet_number(x, 4));
    assert_eq!(result, Ok(None));
    let result = binary_search_line(&string, length, |x| compare_by_bullet_number(x, 9));
    assert_eq!(result, Ok(None));
    let result = binary_search_line(&string, length, |x| compare_by_bullet_number(x, 0));
    assert_eq!(result, Ok(None));
}

#[test]
fn search_finds_each_key_and_probes_few_lines() {
    let string = String::from("1 - Lorem\n2 - Ipsum\n3 - Dolor sit amet\n4 - Consectetur adipiscing elit\n5 - Excepteur sint");
    let length = string.len() as u64;
    for n in 1..=5usize {
        let calls = std::cell::Cell::new(0u32);
        let result = binary_search_line(&string, length, |x| {
            calls.set(calls.get() + 1);
            compare_by_bullet_number(x, n)
        });
        let found = result.unwrap().unwrap();
        assert!(found.starts_with(&format!("{} - ", n)));
        assert!(calls.get() <= 7);
    }
}

#[test]
fn search_is_repeatable() {
    let string = String::from("1 - Lorem\n2 - Ipsum\n3 - Dolor sit amet\n4 - Consectetur adipiscing elit\n5 - Excepteur sint");
    let length = string.len() as u64;
    let first = binary_search_line(&string, length, |x| compare_by_bullet_number(x, 2));
    let second = binary_search_line(&string, length, |x| compare_by_bullet_number(x, 2));
    assert_eq!(first, Ok(Some(String::from("2 - Ipsum"))));
    assert_eq!(first, second);
}

#[test]
fn search_reports_comparator_error() {
    let string = String::from("1 - Lorem\nbroken line\n3 - Dolor sit amet");
    let length = string.len() as u64;
    let result = binary_search_line(&string, length, |x| compare_by_bullet_number(x, 3));
    assert_eq!(
        result,
        Err(SearchError::Comparator(String::from("Found badly formatted line: broken line")))
    );
}

#[test]
fn search_reports_position_without_line() {
    let string = String::from("\n\n\n\n");
    let result = binary_search_line(&string, 4, |x| compare_by_bullet_number(x, 1));
    assert_eq!(result, Err(SearchError::NoLineAtPosition(2)));
}

#[test]
fn single_character_source_is_not_probed() {
    let string = String::from("1");
    let result = binary_search_line(&string, 1, |x: &str| -> Result<Ordering, String> {
        if x == "1" { Ok(Ordering::Equal) } else { Ok(Ordering::Less) }
    });
    assert_eq!(result, Ok(None));
}

#[test]
fn locate_edges() {
    let string = String::from("ab\n\ncd");
    assert_eq!(find_line_by_position(&string, 2), Some(String::from("ab")));
    assert_eq!(find_line_by_position(&string, 3), None);
    assert_eq!(find_line_by_position(&string, 4), Some(String::from("cd")));
    assert_eq!(find_line_by_position(&string, 6), Some(String::from("cd")));
    assert_eq!(find_line_by_position(&string, 7), None);
    assert_eq!(find_line_by_position(&String::new(), 0), None);
    assert_eq!(find_line_by_position(&String::from("\nx"), 0), None);
}

#[test]
fn locate_counts_characters_not_bytes() {
    let string = String::from("é1\nß2");
    assert_eq!(find_line_by_position(&string, 1), Some(String::from("é1")));
    assert_eq!(find_line_by_position(&string, 3), Some(String::from("ß2")));
}

#[test]
fn read_at_position_of_string() {
    let string = String::from("aé\n");
    assert_eq!(string.read_at_position(0), Some('a'));
    assert_eq!(string.read_at_position(1), Some('é'));
    assert_eq!(string.read_at_position(2), Some('\n'));
    assert_eq!(string.read_at_position(3), None);
    assert_eq!(string.read_at_position(u64::MAX), None);
}

#[test]
fn date_prefix_splits_at_first_delimiter() {
    assert_eq!(date_prefix("2020-01-01 - a - b", " - "), Some(String::from("2020-01-01")));
    assert_eq!(date_prefix(" - x", " - "), Some(String::new()));
    assert_eq!(date_prefix("no delimiter", " - "), None);
    assert_eq!(date_prefix("abc", ""), Some(String::new()));
    assert_eq!(date_prefix("", " "), None);
}

#[test]
fn compare_keys_orders_by_day_second_nano() {
    let k = |day, second, nano| DateTimeKey { day, second, nano };
    assert_eq!(compare_keys(k(1, 5, 5), k(2, 0, 0)), Ordering::Less);
    assert_eq!(compare_keys(k(3, 0, 0), k(2, 9, 9)), Ordering::Greater);
    assert_eq!(compare_keys(k(2, 4, 9), k(2, 5, 0)), Ordering::Less);
    assert_eq!(compare_keys(k(2, 5, 1), k(2, 5, 0)), Ordering::Greater);
    assert_eq!(compare_keys(k(2, 5, 0), k(2, 5, 0)), Ordering::Equal);
}

#[test]
fn compare_by_datetime_results() {
    let fmt = "%Y-%m-%d %H:%M:%S";
    assert_eq!(
        compare_by_datetime("2020-01-01 14:27:28 - Lorem", " - ", "2020-01-01 18:59:15", fmt),
        Ok(Ordering::Less)
    );
    assert_eq!(
        compare_by_datetime("2020-01-02 01:17:24 - Dolor", " - ", "2020-01-01 18:59:15", fmt),
        Ok(Ordering::Greater)
    );
    assert_eq!(
        compare_by_datetime("2020-01-01 18:59:15 - Ipsum", " - ", "2020-01-01 18:59:15", fmt),
        Ok(Ordering::Equal)
    );
    assert_eq!(
        compare_by_datetime("2020-01-01 14:27:28 Lorem", " - ", "2020-01-01 18:59:15", fmt),
        Err(String::from("Found badly formatted line: 2020-01-01 14:27:28 Lorem"))
    );
    assert!(compare_by_datetime("yesterday - Lorem", " - ", "2020-01-01 18:59:15", fmt).is_err());
    assert!(compare_by_datetime("2020-01-01 14:27:28 - Lorem", " - ", "soon", fmt).is_err());
}
