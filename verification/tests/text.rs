use chrono::{Datelike, NaiveDate, TimeZone, Timelike, Utc};
use codex_usage::calendar::{
    CivilDate, FIRST_INSTANT, LAST_INSTANT, Timezone, filter_date, format_date, format_month,
    format_time, well_after, well_before,
};
use codex_usage::ordering::sort_by_rank;
use codex_usage::scanner::FileCandidate;
use codex_usage::text::{
    blank, decimal, ends_with, eq_ignore_ascii_case, file_segment, format_number, is_whitespace,
    join, parse_i32, parse_u32, same_text, slash_separated, split_head, strip_prefix, trim,
    trim_end_matches,
};
use codex_usage::text_map::TextMap;

#[test]
fn white_space_is_that_of_unicode() {
    for c in '\0'..=char::MAX {
        assert_eq!(is_whitespace(c), c.is_whitespace(), "{c:?}");
    }
}

#[test]
fn texts_are_trimmed_and_compared_as_strings_are() {
    for text in ["", " ", "a", " a b\u{3000}", "\u{a0}x\u{2028}", "\u{200b}"] {
        assert_eq!(trim(text), text.trim());
        assert_eq!(blank(text), text.trim().is_empty());
    }
    assert!(same_text("é", "é"));
    assert!(!same_text("é", "e\u{301}"));
    assert!(eq_ignore_ascii_case("GPT-É", "gpt-É"));
    assert!(!eq_ignore_ascii_case("É", "é"));
    assert!(!eq_ignore_ascii_case("ab", "abc"));
}

#[test]
fn prefixes_and_suffixes_are_taken_off() {
    assert!(ends_with("rollout-é.jsonl", "é.jsonl"));
    assert!(!ends_with("l", "jsonl"));
    assert!(ends_with("x", ""));
    assert_eq!(strip_prefix("azure/x", "azure/"), Some("x".to_string()));
    assert_eq!(strip_prefix("Azure/x", "azure/"), None);
    assert_eq!(trim_end_matches("a.jsonl.jsonl", ".jsonl"), "a");
    assert_eq!(trim_end_matches("a.json", ".jsonl"), "a.json");
    assert_eq!(file_segment("a/b/c"), "c");
    assert_eq!(file_segment("a/"), "");
    assert_eq!(file_segment("a"), "a");
    assert_eq!(slash_separated("a\\b/c\\"), "a/b/c/");
    assert_eq!(split_head("a/b/c"), ("a".to_string(), Some("b/c".to_string())));
    assert_eq!(split_head("a"), ("a".to_string(), None));
    assert_eq!(split_head("/"), (String::new(), Some(String::new())));
}

#[test]
fn numbers_are_read_as_the_standard_library_does() {
    for text in [
        "", "+", "-", "0", "007", "+7", "-7", "-0", "--1", "1 ", "2147483647", "2147483648",
        "-2147483648", "-2147483649", "4294967295", "4294967296", "184467440737095516160", "x", "٣",
    ] {
        assert_eq!(parse_i32(text), text.parse::<i32>().ok(), "{text}");
        assert_eq!(parse_u32(text), text.parse::<u32>().ok(), "{text}");
    }
}

#[test]
fn numbers_are_written_in_groups_of_three_digits() {
    for (number, grouped) in [
        (0, "0"),
        (999, "999"),
        (1_000, "1,000"),
        (1_234_567, "1,234,567"),
        (u64::MAX, "18,446,744,073,709,551,615"),
    ] {
        assert_eq!(format_number(number), grouped);
        assert_eq!(decimal(number), number.to_string());
        assert_eq!(format_number(number).replace(',', ""), decimal(number));
    }
}

#[test]
fn texts_are_joined_with_a_separator() {
    let parts = |texts: &[&str]| -> Vec<String> { texts.iter().map(|t| t.to_string()).collect() };

    assert_eq!(join(&parts(&[]), ", "), "");
    assert_eq!(join(&parts(&["a"]), ", "), "a");
    assert_eq!(join(&parts(&["a", "", "c"]), ", "), "a, , c");
}

#[test]
fn maps_list_their_keys_in_order() {
    let mut map = TextMap::new();
    for (key, value) in [("b", 1), ("é", 2), ("a", 3), ("B", 4), ("b", 5), ("", 6)] {
        map.insert(key.to_string(), value);
    }
    let listed: Vec<(String, i32)> = (0..map.len())
        .map(|i| (map.key_at(i).clone(), *map.value_at(i)))
        .collect();
    let mut sorted = std::collections::BTreeMap::new();
    for (key, value) in [("b", 1), ("é", 2), ("a", 3), ("B", 4), ("b", 5), ("", 6)] {
        sorted.insert(key.to_string(), value);
    }

    assert_eq!(listed, sorted.into_iter().collect::<Vec<_>>());
    assert_eq!(map.get("b"), Some(&5));
    assert_eq!(map.remove("b"), Some(5));
    assert_eq!(map.remove("b"), None);
    assert_eq!(map.get("b"), None);
    assert_eq!(map.clone().into_values(), vec![6, 4, 3, 2]);
    assert!(!map.is_empty());
}

#[test]
fn sorting_keeps_the_order_of_equals() {
    let paths = ["b", "a", "c", "a", "b", "a", ""];
    let files: Vec<FileCandidate> = paths
        .iter()
        .enumerate()
        .map(|(entry, path)| FileCandidate {
            relative_path: path.to_string(),
            file_size: 0,
            modified_unix_ms: 0,
            entry,
        })
        .collect();
    let mut expected = files.clone();
    expected.sort_by(|left, right| left.relative_path.cmp(&right.relative_path));

    assert_eq!(sort_by_rank(files), expected);
}

#[test]
fn days_exist_as_the_calendar_has_them() {
    for year in [-262_144, -262_143, -4, 0, 1900, 2000, 2023, 2024, 262_142, 262_143] {
        for month in 0..=13 {
            for day in [0, 1, 28, 29, 30, 31, 32] {
                let here = CivilDate::from_ymd_opt(year, month, day);
                let there = NaiveDate::from_ymd_opt(year, month, day);
                assert_eq!(here.is_some(), there.is_some(), "{year} {month} {day}");
                if let (Some(here), Some(there)) = (here, there) {
                    assert_eq!(format_date(&here), there.format("%Y-%m-%d").to_string());
                    assert_eq!(format_month(&here), there.format("%Y-%m").to_string());
                }
            }
        }
    }
}

#[test]
fn a_day_is_well_before_another_from_two_days_on() {
    let day = |y, m, d| CivilDate::from_ymd_opt(y, m, d).expect("day");
    let leap = day(2024, 3, 1);

    assert!(!well_before(&day(2024, 2, 29), &leap));
    assert!(well_before(&day(2024, 2, 28), &leap));
    assert!(!well_after(&day(2024, 3, 2), &leap));
    assert!(well_after(&day(2024, 3, 3), &leap));
    assert!(!well_before(&day(-262_143, 1, 1), &day(-262_143, 1, 1)));
    assert!(!well_after(&day(262_142, 12, 31), &day(262_142, 12, 31)));
}

#[test]
fn clocks_show_what_the_time_zone_database_says() {
    for name in ["UTC", "Asia/Seoul", "America/New_York", "Asia/Kolkata"] {
        let zone = Timezone::named(name).expect("time zone");
        let tz: chrono_tz::Tz = name.parse().expect("time zone");
        for unix_ms in [
            0,
            -1,
            1_772_723_600_123,
            1_710_054_000_000,
            -62_135_596_800_000,
            253_402_300_800_000,
        ] {
            let here = zone.local_time(unix_ms).expect("local time");
            let there = Utc
                .timestamp_millis_opt(unix_ms)
                .single()
                .expect("instant")
                .with_timezone(&tz);
            assert_eq!(
                format_time(&here),
                there.format("%Y-%m-%d %H:%M:%S").to_string()
            );
            assert_eq!(
                (here.date.year, here.hour),
                (there.year(), there.hour())
            );
        }
        assert!(zone.local_time(FIRST_INSTANT).is_some());
        assert!(zone.local_time(FIRST_INSTANT - 1).is_none());
        assert!(zone.local_time(LAST_INSTANT).is_some());
        assert!(zone.local_time(LAST_INSTANT + 1).is_none());
    }
    assert!(Timezone::named("Nowhere").is_none());
}

#[test]
fn dates_are_written_in_the_order_in_which_they_come() {
    let mut last = String::new();
    for year in [0, 9, 10, 999, 1000, 2026, 9999] {
        for (month, day) in [(1, 9), (1, 10), (9, 30), (10, 1), (12, 31)] {
            let date = CivilDate::from_ymd_opt(year, month, day).expect("day");
            let text = format_date(&date);
            assert!(last < text, "{last} {text}");
            last = text;
        }
    }
}

#[test]
fn filter_dates_are_days() {
    assert_eq!(
        filter_date("20240229"),
        CivilDate::from_ymd_opt(2024, 2, 29)
    );
    assert_eq!(filter_date("20230229"), None);
    assert_eq!(filter_date("2024"), None);
}
