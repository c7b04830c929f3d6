use chrono::{TimeZone, Utc};
use codex_usage::calendar::{CivilDate, Timezone};
use codex_usage::report::sessions::{SessionTally, session_row};
use codex_usage::report::{
    GroupBy, SessionRow, accumulate_at, aggregate_sessions, aggregate_usage, event_key, merge_rows,
    row_storage_key, try_accumulate_event, try_aggregate_sessions, try_aggregate_usage, try_merge_rows,
};
use codex_usage::text_map::TextMap;
use codex_usage::types::{ModelTotals, ReportRow, SessionSummary, Usage, UsageEvent};

fn zone(name: &str) -> Timezone {
    Timezone::named(name).expect("time zone")
}

fn day(year: i32, month: u32, day: u32) -> CivilDate {
    CivilDate::from_ymd_opt(year, month, day).expect("day")
}

fn unix_ms(year: i32, month: u32, day: u32, hour: u32, minute: u32) -> i64 {
    Utc.with_ymd_and_hms(year, month, day, hour, minute, 0)
        .single()
        .expect("timestamp")
        .timestamp_millis()
}

fn usage(input: u64, output: u64) -> Usage {
    Usage {
        input_tokens: input,
        cached_input_tokens: 0,
        output_tokens: output,
        reasoning_output_tokens: 0,
        total_tokens: input + output,
    }
}

fn event(timestamp_unix_ms: i64, model: &str, usage: Usage) -> UsageEvent {
    UsageEvent {
        timestamp_unix_ms,
        model: model.to_string(),
        is_fallback_model: false,
        usage,
    }
}

fn session(path: &str, directory: Option<&str>, events: Vec<UsageEvent>) -> SessionSummary {
    SessionSummary {
        session_id: path.trim_end_matches(".jsonl").to_string(),
        session_path: path.to_string(),
        directory: directory.map(str::to_string),
        events,
    }
}

fn models(rows: &TextMap<ModelTotals>) -> Vec<(String, u64, bool)> {
    (0..rows.len())
        .map(|i| {
            (
                rows.key_at(i).clone(),
                rows.value_at(i).usage.total_tokens,
                rows.value_at(i).is_fallback,
            )
        })
        .collect()
}

fn keys(rows: &[ReportRow]) -> Vec<(String, u64)> {
    rows.iter()
        .map(|row| (row.key.clone(), row.usage.total_tokens))
        .collect()
}

fn grouped_day_sessions() -> Vec<SessionSummary> {
    vec![SessionSummary {
        session_id: "2026/03/06/rollout-1".to_string(),
        session_path: "2026/03/06/rollout-1.jsonl".to_string(),
        directory: Some("/Users/jaewon/sources/front-web-www".to_string()),
        events: vec![
            UsageEvent {
                timestamp_unix_ms: Utc
                    .with_ymd_and_hms(2026, 3, 5, 15, 30, 0)
                    .single()
                    .expect("timestamp")
                    .timestamp_millis(),
                model: "gpt-5.2-codex".to_string(),
                is_fallback_model: false,
                usage: Usage {
                    input_tokens: 100,
                    cached_input_tokens: 0,
                    output_tokens: 10,
                    reasoning_output_tokens: 0,
                    total_tokens: 110,
                },
            },
            UsageEvent {
                timestamp_unix_ms: Utc
                    .with_ymd_and_hms(2026, 3, 5, 17, 30, 0)
                    .single()
                    .expect("timestamp")
                    .timestamp_millis(),
                model: "gpt-5.2-codex".to_string(),
                is_fallback_model: false,
                usage: Usage {
                    input_tokens: 200,
                    cached_input_tokens: 0,
                    output_tokens: 20,
                    reasoning_output_tokens: 0,
                    total_tokens: 220,
                },
            },
        ],
    }]
}

fn split_day_sessions() -> Vec<SessionSummary> {
    vec![SessionSummary {
        session_id: "2026/03/06/rollout-1".to_string(),
        session_path: "2026/03/06/rollout-1.jsonl".to_string(),
        directory: Some("/Users/jaewon/sources/front-web-www".to_string()),
        events: vec![
            UsageEvent {
                timestamp_unix_ms: Utc
                    .with_ymd_and_hms(2026, 3, 5, 15, 30, 0)
                    .single()
                    .expect("timestamp")
                    .timestamp_millis(),
                model: "gpt-5.2-codex".to_string(),
                is_fallback_model: false,
                usage: Usage {
                    input_tokens: 100,
                    cached_input_tokens: 0,
                    output_tokens: 10,
                    reasoning_output_tokens: 0,
                    total_tokens: 110,
                },
            },
            UsageEvent {
                timestamp_unix_ms: Utc
                    .with_ymd_and_hms(2026, 3, 5, 16, 30, 0)
                    .single()
                    .expect("timestamp")
                    .timestamp_millis(),
                model: "gpt-5.4".to_string(),
                is_fallback_model: false,
                usage: Usage {
                    input_tokens: 200,
                    cached_input_tokens: 0,
                    output_tokens: 20,
                    reasoning_output_tokens: 0,
                    total_tokens: 220,
                },
            },
        ],
    }]
}

#[test]
fn report_groups_usage_by_day_in_requested_timezone() {
    let rows = aggregate_usage(
        &grouped_day_sessions(),
        &zone("Asia/Seoul"),
        GroupBy::Day,
        None,
        None,
        false,
    );

    assert_eq!(rows.len(), 1);
    assert_eq!(rows[0].key, "2026-03-06");
    assert_eq!(rows[0].usage.input_tokens, 300);
    assert_eq!(rows[0].usage.total_tokens, 330);
}

#[test]
fn report_splits_daily_rows_by_model_when_requested() {
    let rows = aggregate_usage(
        &split_day_sessions(),
        &zone("Asia/Seoul"),
        GroupBy::Day,
        None,
        None,
        true,
    );

    assert_eq!(rows.len(), 2);
    assert_eq!(rows[0].key, "2026-03-06");
    assert_eq!(rows[1].key, "2026-03-06");
    assert_eq!(rows[0].models.len(), 1);
    assert_eq!(rows[1].models.len(), 1);
}

#[test]
fn report_tests_groups_usage_by_day_in_requested_timezone() {
    let rows = aggregate_usage(
        &grouped_day_sessions(),
        &zone("Asia/Seoul"),
        GroupBy::Day,
        None,
        None,
        false,
    );

    assert_eq!(rows.len(), 1);
    assert_eq!(rows[0].key, "2026-03-06");
    assert_eq!(rows[0].usage.input_tokens, 300);
    assert_eq!(rows[0].usage.total_tokens, 330);
}

#[test]
fn report_tests_splits_daily_rows_by_model_when_requested() {
    let rows = aggregate_usage(
        &split_day_sessions(),
        &zone("Asia/Seoul"),
        GroupBy::Day,
        None,
        None,
        true,
    );

    assert_eq!(rows.len(), 2);
    assert_eq!(rows[0].key, "2026-03-06");
    assert_eq!(rows[1].key, "2026-03-06");
    assert_eq!(rows[0].models.len(), 1);
    assert_eq!(rows[1].models.len(), 1);
}

#[test]
fn the_time_zone_decides_the_day() {
    let rows = aggregate_usage(
        &grouped_day_sessions(),
        &zone("UTC"),
        GroupBy::Day,
        None,
        None,
        false,
    );

    assert_eq!(keys(&rows), vec![("2026-03-05".to_string(), 330)]);
}

fn spring() -> Vec<SessionSummary> {
    vec![
        session(
            "2026/03/06/b.jsonl",
            Some("/work/b"),
            vec![
                event(unix_ms(2026, 3, 6, 1, 0), "m", usage(1, 0)),
                event(unix_ms(2026, 3, 31, 23, 59), "n", usage(2, 0)),
                event(unix_ms(2026, 4, 1, 0, 0), "m", usage(4, 0)),
            ],
        ),
        session(
            "2026/03/06/a.jsonl",
            None,
            vec![
                event(unix_ms(2026, 3, 6, 2, 0), "n", usage(8, 0)),
                event(unix_ms(2025, 12, 31, 12, 0), "m", usage(16, 0)),
            ],
        ),
    ]
}

#[test]
fn rows_come_in_the_order_of_their_periods() {
    let utc = zone("UTC");

    let days = aggregate_usage(&spring(), &utc, GroupBy::Day, None, None, false);
    assert_eq!(
        keys(&days),
        vec![
            ("2025-12-31".to_string(), 16),
            ("2026-03-06".to_string(), 9),
            ("2026-03-31".to_string(), 2),
            ("2026-04-01".to_string(), 4),
        ]
    );

    let months = aggregate_usage(&spring(), &utc, GroupBy::Month, None, None, false);
    assert_eq!(
        keys(&months),
        vec![
            ("2025-12".to_string(), 16),
            ("2026-03".to_string(), 11),
            ("2026-04".to_string(), 4),
        ]
    );
    assert_eq!(
        models(&months[1].models),
        vec![("m".to_string(), 1, false), ("n".to_string(), 10, false)]
    );
}

#[test]
fn a_window_keeps_its_first_and_its_last_day() {
    let rows = aggregate_usage(
        &spring(),
        &zone("UTC"),
        GroupBy::Day,
        Some(day(2026, 3, 6)),
        Some(day(2026, 3, 31)),
        false,
    );

    assert_eq!(
        keys(&rows),
        vec![("2026-03-06".to_string(), 9), ("2026-03-31".to_string(), 2)]
    );
}

#[test]
fn reports_by_period_and_by_session_tell_of_the_same_usage() {
    let utc = zone("UTC");
    for (since, until) in [
        (None, None),
        (Some(day(2026, 3, 31)), None),
        (None, Some(day(2026, 3, 6))),
    ] {
        let days = aggregate_usage(&spring(), &utc, GroupBy::Day, since, until, false);
        let split = aggregate_usage(&spring(), &utc, GroupBy::Day, since, until, true);
        let sessions = aggregate_sessions(&spring(), &utc, since, until);
        let total: u64 = days.iter().map(|row| row.usage.total_tokens).sum();
        let split_total: u64 = split.iter().map(|row| row.usage.total_tokens).sum();
        let session_total: u64 = sessions.iter().map(|row| row.usage.total_tokens).sum();

        assert_eq!(total, split_total);
        assert_eq!(total, session_total);
    }
}

#[test]
fn the_order_of_events_does_not_matter() {
    let utc = zone("UTC");
    let mut turned = spring();
    turned.reverse();
    for session in &mut turned {
        session.events.reverse();
    }

    assert_eq!(
        aggregate_usage(&spring(), &utc, GroupBy::Day, None, None, true),
        aggregate_usage(&turned, &utc, GroupBy::Day, None, None, true)
    );
}

#[test]
fn an_assumed_model_is_marked_once_it_was_assumed() {
    let utc = zone("UTC");
    let at = unix_ms(2026, 3, 6, 1, 0);
    let mut assumed = event(at, "unknown", usage(1, 1));
    assumed.is_fallback_model = true;
    let sessions = vec![session(
        "a.jsonl",
        None,
        vec![
            assumed,
            event(at, "unknown", usage(2, 2)),
            event(at, "m", usage(3, 3)),
        ],
    )];
    let rows = aggregate_usage(&sessions, &utc, GroupBy::Day, None, None, false);

    assert_eq!(
        models(&rows[0].models),
        vec![
            ("m".to_string(), 6, false),
            ("unknown".to_string(), 6, true)
        ]
    );
}

#[test]
fn events_outside_the_calendar_are_left_out() {
    let utc = zone("UTC");
    let sessions = vec![session(
        "a.jsonl",
        None,
        vec![
            event(i64::MAX, "m", usage(1, 0)),
            event(i64::MIN, "m", usage(2, 0)),
            event(0, "m", usage(4, 0)),
        ],
    )];

    let rows = aggregate_usage(&sessions, &utc, GroupBy::Day, None, None, false);
    assert_eq!(keys(&rows), vec![("1970-01-01".to_string(), 4)]);
    let rows = aggregate_sessions(&sessions, &utc, None, None);
    assert_eq!(rows.len(), 1);
    assert_eq!(rows[0].usage.total_tokens, 4);
}

#[test]
fn rows_split_by_model_make_the_report_again() {
    let zone = zone("Asia/Seoul");
    for group_by in [GroupBy::Day, GroupBy::Month] {
        let split = aggregate_usage(&spring(), &zone, group_by, None, None, true);
        let whole = aggregate_usage(&spring(), &zone, group_by, None, None, false);
        assert!(split.len() > whole.len());
        assert_eq!(try_merge_rows(&[split]), Some(whole));
    }
}

#[test]
fn counts_beyond_64_bits_are_told() {
    let utc = zone("UTC");
    let most = Usage {
        input_tokens: u64::MAX,
        ..usage(0, 0)
    };
    let sessions = vec![session(
        "a.jsonl",
        None,
        vec![
            event(unix_ms(2026, 3, 6, 1, 0), "m", most),
            event(unix_ms(2026, 3, 7, 1, 0), "m", usage(1, 0)),
        ],
    )];

    assert!(try_aggregate_usage(&sessions, &utc, GroupBy::Day, None, None, false).is_some());
    assert!(try_aggregate_usage(&sessions, &utc, GroupBy::Month, None, None, false).is_none());
    assert!(try_aggregate_sessions(&sessions, &utc, None, None).is_none());
    assert!(try_aggregate_sessions(&sessions, &utc, None, Some(day(2026, 3, 6))).is_some());
}

#[test]
fn sessions_are_listed_by_their_latest_activity() {
    let rows = aggregate_sessions(&spring(), &zone("Asia/Seoul"), None, None);

    assert_eq!(rows.len(), 2);
    assert_eq!(rows[0].session_file, "b");
    assert_eq!(rows[0].session_id, "2026/03/06/b");
    assert_eq!(rows[0].directory, "/work/b");
    assert_eq!(rows[0].date_key, "2026-04-01");
    assert_eq!(rows[0].last_activity_unix_ms, unix_ms(2026, 4, 1, 0, 0));
    assert_eq!(rows[0].usage.total_tokens, 7);
    assert_eq!(rows[1].session_file, "a");
    assert_eq!(rows[1].directory, "-");
    assert_eq!(rows[1].date_key, "2026-03-06");
    assert_eq!(
        models(&rows[1].models),
        vec![("m".to_string(), 16, false), ("n".to_string(), 8, false)]
    );
}

#[test]
fn sessions_of_one_instant_are_listed_by_file() {
    let at = unix_ms(2026, 3, 6, 1, 0);
    let sessions: Vec<SessionSummary> = ["x/c.jsonl", "y/a.jsonl", "z/b.jsonl.jsonl", "w/a.jsonl"]
        .iter()
        .map(|path| session(path, Some(path), vec![event(at, "m", usage(1, 0))]))
        .collect();
    let rows: Vec<SessionRow> = aggregate_sessions(&sessions, &zone("UTC"), None, None);

    let listed: Vec<(&str, &str)> = rows
        .iter()
        .map(|row| (row.session_file.as_str(), row.directory.as_str()))
        .collect();
    assert_eq!(
        listed,
        vec![
            ("a", "y/a.jsonl"),
            ("a", "w/a.jsonl"),
            ("b", "z/b.jsonl.jsonl"),
            ("c", "x/c.jsonl"),
        ]
    );
}

#[test]
fn a_session_without_events_in_the_window_has_no_row() {
    let rows = aggregate_sessions(
        &spring(),
        &zone("UTC"),
        Some(day(2026, 3, 31)),
        Some(day(2026, 3, 31)),
    );

    assert_eq!(rows.len(), 1);
    assert_eq!(rows[0].session_file, "b");
    assert_eq!(rows[0].usage.total_tokens, 2);
    assert_eq!(rows[0].last_activity_unix_ms, unix_ms(2026, 3, 31, 23, 59));
}

#[test]
fn reports_of_parts_put_together_are_the_report_of_all() {
    let utc = zone("UTC");
    let parts: Vec<Vec<ReportRow>> = spring()
        .iter()
        .map(|session| {
            aggregate_usage(
                std::slice::from_ref(session),
                &utc,
                GroupBy::Day,
                None,
                None,
                false,
            )
        })
        .collect();
    let whole = aggregate_usage(&spring(), &utc, GroupBy::Day, None, None, false);

    assert_eq!(merge_rows(&parts), whole);
    assert_eq!(try_merge_rows(&parts), Some(whole));
}

#[test]
fn parts_beyond_64_bits_are_told() {
    let row = |tokens: u64| ReportRow {
        key: "2026-03-06".to_string(),
        usage: Usage {
            input_tokens: tokens,
            ..usage(0, 0)
        },
        models: TextMap::new(),
    };

    assert!(try_merge_rows(&[vec![row(u64::MAX)], vec![row(0)]]).is_some());
    assert!(try_merge_rows(&[vec![row(u64::MAX)], vec![row(1)]]).is_none());
}

#[test]
fn keys_tell_the_period_and_the_model() {
    let seoul = zone("Asia/Seoul");
    let at = unix_ms(2026, 2, 28, 15, 0);
    let one = event(at, "m", usage(1, 0));

    assert_eq!(
        event_key(at, &seoul, &GroupBy::Day),
        Some("2026-03-01".to_string())
    );
    assert_eq!(
        event_key(at, &seoul, &GroupBy::Month),
        Some("2026-03".to_string())
    );
    assert_eq!(event_key(i64::MAX, &seoul, &GroupBy::Day), None);
    assert_eq!(row_storage_key("2026-03", &one, false), "2026-03");
    assert_eq!(row_storage_key("2026-03", &one, true), "2026-03\u{1f}m");
}

#[test]
fn an_event_at_a_date_goes_to_the_row_of_its_period() {
    let one = event(0, "m", usage(3, 1));
    let mut rows = TextMap::new();
    accumulate_at(
        &mut rows,
        &one,
        Some(day(2026, 3, 6)),
        &GroupBy::Month,
        None,
        None,
        true,
    );
    accumulate_at(&mut rows, &one, None, &GroupBy::Month, None, None, true);
    accumulate_at(
        &mut rows,
        &one,
        Some(day(2026, 3, 7)),
        &GroupBy::Month,
        None,
        Some(day(2026, 3, 6)),
        true,
    );

    assert_eq!(rows.len(), 1);
    assert_eq!(rows.key_at(0), "2026-03\u{1f}m");
    assert_eq!(rows.value_at(0).key, "2026-03");
    assert_eq!(rows.value_at(0).usage, usage(3, 1));
}

#[test]
fn an_event_that_does_not_fit_changes_nothing() {
    let utc = zone("UTC");
    let most = Usage {
        input_tokens: u64::MAX,
        ..usage(0, 0)
    };
    let mut rows = TextMap::new();
    let mut add = |usage: Usage| {
        try_accumulate_event(
            &mut rows,
            &event(0, "m", usage),
            &utc,
            &GroupBy::Day,
            None,
            None,
            false,
        )
    };

    assert!(add(most));
    assert!(!add(usage(1, 0)));
    assert!(add(usage(0, 1)));
    assert_eq!(rows.value_at(0).usage.input_tokens, u64::MAX);
    assert_eq!(rows.value_at(0).usage.output_tokens, 1);
}

#[test]
fn a_tally_keeps_the_latest_event() {
    let mut tally = SessionTally::new();
    let summary = session("x/y.jsonl", None, Vec::new());
    assert!(session_row(&summary, SessionTally::new()).is_none());
    tally.count_at(&event(5, "m", usage(1, 0)), Some(day(2026, 3, 7)), None, None);
    tally.count_at(&event(9, "n", usage(2, 0)), Some(day(2026, 3, 6)), None, None);
    tally.count_at(&event(9, "n", usage(4, 0)), Some(day(2026, 3, 8)), None, None);
    tally.count_at(&event(99, "n", usage(8, 0)), None, None, None);
    let row = session_row(&summary, tally).expect("row");

    assert_eq!(row.last_activity_unix_ms, 9);
    assert_eq!(row.date_key, "2026-03-06");
    assert_eq!(row.usage, usage(7, 0));
    assert_eq!(row.session_file, "y");
}

#[test]
fn the_models_of_a_row_add_up_to_the_row() {
    for row in aggregate_usage(&spring(), &zone("UTC"), GroupBy::Month, None, None, false) {
        let total: u64 = models(&row.models).iter().map(|(_, total, _)| total).sum();
        assert_eq!(total, row.usage.total_tokens);
    }
}

#[test]
fn splitting_by_model_parts_each_row_into_its_models() {
    let utc = zone("UTC");
    let whole = aggregate_usage(&spring(), &utc, GroupBy::Month, None, None, false);
    let parts = aggregate_usage(&spring(), &utc, GroupBy::Month, None, None, true);
    let expected: Vec<(String, u64, String)> = whole
        .iter()
        .flat_map(|row| {
            models(&row.models)
                .into_iter()
                .map(|(model, total, _)| (row.key.clone(), total, model))
        })
        .collect();
    let found: Vec<(String, u64, String)> = parts
        .iter()
        .map(|row| {
            (
                row.key.clone(),
                row.usage.total_tokens,
                row.models.key_at(0).clone(),
            )
        })
        .collect();

    assert_eq!(found, expected);
}

#[test]
fn a_window_changes_no_row_of_its_days() {
    let utc = zone("UTC");
    let all = aggregate_usage(&spring(), &utc, GroupBy::Day, None, None, false);
    let some = aggregate_usage(
        &spring(),
        &utc,
        GroupBy::Day,
        Some(day(2026, 3, 1)),
        Some(day(2026, 3, 31)),
        false,
    );

    assert_eq!(some[..], all[1..3]);
}
