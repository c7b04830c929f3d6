use codex_usage::calendar::{CivilDate, Timezone};
use codex_usage::cli::diagnostics::{Diagnostics, SessionHistory};
use codex_usage::cli::payload::{
    UsagePayload, report_row_payloads, session_row_payloads, totals_from_report_rows,
    totals_from_session_rows, try_totals_from_report_rows, try_totals_from_session_rows,
};
use codex_usage::cli::tables::{
    ReportKind, format_activity, models_summary, session_table, usage_table,
};
use codex_usage::cli::{
    ArgumentError, Command, Report, date_or_error, make_report, parse_filter_date, parse_timezone,
    zone_or_error,
};
use codex_usage::report::SessionRow;
use codex_usage::text_map::TextMap;
use codex_usage::types::{ModelTotals, ReportRow, SessionSummary, Usage, UsageEvent};

fn utc() -> Timezone {
    Timezone::named("UTC").expect("time zone")
}

fn day(year: i32, month: u32, day: u32) -> CivilDate {
    CivilDate::from_ymd_opt(year, month, day).expect("day")
}

fn usage(input: u64, cached: u64, output: u64, reasoning: u64, total: u64) -> Usage {
    Usage {
        input_tokens: input,
        cached_input_tokens: cached,
        output_tokens: output,
        reasoning_output_tokens: reasoning,
        total_tokens: total,
    }
}

fn models() -> TextMap<ModelTotals> {
    let mut models = TextMap::new();
    models.insert(
        "unknown".to_string(),
        ModelTotals {
            usage: usage(1, 0, 0, 0, 1),
            is_fallback: true,
        },
    );
    models.insert(
        "gpt-5.4".to_string(),
        ModelTotals {
            usage: usage(10, 4, 0, 0, 10),
            is_fallback: false,
        },
    );
    models
}

fn row() -> ReportRow {
    ReportRow {
        key: "2026-03-06".to_string(),
        usage: usage(1_234_567, 567, 1_000, 999, 1_235_567),
        models: models(),
    }
}

fn session_row() -> SessionRow {
    SessionRow {
        date_key: "2026-03-06".to_string(),
        session_id: "2026/03/06/a".to_string(),
        session_file: "a".to_string(),
        directory: "/work".to_string(),
        last_activity_unix_ms: 1_772_723_600_000,
        usage: usage(10, 4, 3, 2, 13),
        models: models(),
    }
}

#[test]
fn serializes_input_and_cached_input_separately() {
    let rows = vec![ReportRow {
        key: "2026-03-06".to_string(),
        usage: Usage {
            input_tokens: 1_000,
            cached_input_tokens: 250,
            output_tokens: 50,
            reasoning_output_tokens: 10,
            total_tokens: 1_050,
        },
        models: TextMap::new(),
    }];

    let payloads = report_row_payloads(&rows);

    assert_eq!(payloads[0].usage.input_tokens, 750);
    assert_eq!(payloads[0].usage.cached_input_tokens, 250);
    assert_eq!(payloads[0].usage.raw_input_tokens, 1_000);
}

#[test]
fn reports_totals_with_billable_and_raw_input_tokens() {
    let rows = vec![ReportRow {
        key: "2026-03-06".to_string(),
        usage: Usage {
            input_tokens: 1_000,
            cached_input_tokens: 250,
            output_tokens: 50,
            reasoning_output_tokens: 10,
            total_tokens: 1_050,
        },
        models: TextMap::new(),
    }];

    let totals = totals_from_report_rows(&rows);

    assert_eq!(totals.input_tokens, 750);
    assert_eq!(totals.cached_input_tokens, 250);
    assert_eq!(totals.raw_input_tokens, 1_000);
}

#[test]
fn payloads_hold_what_their_rows_hold() {
    let payloads = report_row_payloads(&[row()]);
    assert_eq!(payloads[0].key, "2026-03-06");
    assert_eq!(
        payloads[0].usage,
        UsagePayload {
            input_tokens: 1_234_000,
            cached_input_tokens: 567,
            raw_input_tokens: 1_234_567,
            output_tokens: 1_000,
            reasoning_output_tokens: 999,
            total_tokens: 1_235_567,
        }
    );
    assert_eq!(payloads[0].models.len(), 2);
    let totals = payloads[0].models.get("gpt-5.4").expect("model");
    assert_eq!(totals.usage.input_tokens, 6);
    assert!(!totals.is_fallback);
    assert!(payloads[0].models.get("unknown").expect("model").is_fallback);

    let payloads = session_row_payloads(&[session_row()]);
    assert_eq!(payloads[0].date_key, "2026-03-06");
    assert_eq!(payloads[0].session_id, "2026/03/06/a");
    assert_eq!(payloads[0].session_file, "a");
    assert_eq!(payloads[0].directory, "/work");
    assert_eq!(payloads[0].last_activity_unix_ms, 1_772_723_600_000);
    assert_eq!(payloads[0].usage, UsagePayload::from(&usage(10, 4, 3, 2, 13)));
    assert_eq!(payloads[0].models.len(), 2);
}

#[test]
fn totals_add_up_their_rows() {
    let totals = totals_from_session_rows(&[session_row(), session_row()]);

    assert_eq!(totals.input_tokens, 12);
    assert_eq!(totals.cached_input_tokens, 8);
    assert_eq!(totals.raw_input_tokens, 20);
    assert_eq!(totals.output_tokens, 6);
    assert_eq!(totals.reasoning_output_tokens, 4);
    assert_eq!(totals.total_tokens, 26);
    assert_eq!(
        try_totals_from_session_rows(&[session_row(), session_row()]),
        Some(totals)
    );

    let full = ReportRow {
        usage: usage(0, 0, 0, 0, u64::MAX),
        ..row()
    };
    let one = ReportRow {
        usage: usage(0, 0, 0, 0, 1),
        ..row()
    };
    assert!(try_totals_from_report_rows(std::slice::from_ref(&full)).is_some());
    assert!(try_totals_from_report_rows(&[full, one]).is_none());
}

#[test]
fn assumed_models_have_a_star() {
    assert_eq!(models_summary(&models()), "gpt-5.4, unknown*");
    assert_eq!(models_summary(&TextMap::new()), "");
}

#[test]
fn a_table_has_a_row_for_each_row_and_one_for_the_sum() {
    let costs = ["$1.0000".to_string(), "$2.0000".to_string()];
    let rows = [row(), row()];
    let table =
        usage_table(ReportKind::Daily, &rows, &costs, "$3.0000", false).expect("table");

    assert_eq!(
        table.header,
        vec![
            "Date",
            "Models",
            "Input",
            "Cache",
            "Output",
            "Reasoning",
            "Total",
            "Cost (USD)",
        ]
    );
    assert_eq!(table.rows.len(), 3);
    assert_eq!(
        table.rows[1],
        vec![
            "2026-03-06",
            "gpt-5.4, unknown*",
            "1,234,000",
            "567",
            "1,000",
            "999",
            "1,235,567",
            "$2.0000",
        ]
    );
    assert_eq!(
        table.rows[2],
        vec![
            "Total",
            "",
            "2,468,000",
            "1,134",
            "2,000",
            "1,998",
            "2,471,134",
            "$3.0000",
        ]
    );

    let table = usage_table(ReportKind::Monthly, &rows, &costs, "", true).expect("table");
    assert_eq!(table.header[0], "Month");
    assert_eq!(table.header[1], "Model");
    assert_eq!(usage_table(ReportKind::Daily, &[], &[], "", false), None);
}

#[test]
fn a_table_of_sessions_tells_when_they_were_active() {
    let costs = ["$1.0000".to_string()];
    let table = session_table(&[session_row()], &costs, "$1.0000", &utc()).expect("table");

    assert_eq!(
        table.header,
        vec![
            "Date",
            "Directory",
            "Session",
            "Models",
            "Input",
            "Cache",
            "Output",
            "Reasoning",
            "Total",
            "Cost (USD)",
            "Last Activity",
        ]
    );
    assert_eq!(
        table.rows,
        vec![
            vec![
                "2026-03-06",
                "/work",
                "a",
                "gpt-5.4, unknown*",
                "6",
                "4",
                "3",
                "2",
                "13",
                "$1.0000",
                "2026-03-05 15:13:20",
            ],
            vec![
                "", "", "Total", "", "6", "4", "3", "2", "13", "$1.0000", "",
            ],
        ]
    );
    assert_eq!(session_table(&[], &[], "", &utc()), None);
}

#[test]
fn activity_is_told_on_the_clock_of_the_zone() {
    let seoul = Timezone::named("Asia/Seoul").expect("time zone");

    assert_eq!(format_activity(0, &utc()), "1970-01-01 00:00:00");
    assert_eq!(format_activity(0, &seoul), "1970-01-01 09:00:00");
    assert_eq!(format_activity(i64::MAX, &seoul), "-");
}

#[test]
fn filter_dates_have_eight_digits() {
    assert_eq!(parse_filter_date(None), Ok(None));
    assert_eq!(
        parse_filter_date(Some("20260306")),
        Ok(Some(day(2026, 3, 6)))
    );
    for value in ["2026-03-06", "20260230", "march", ""] {
        let error = parse_filter_date(Some(value)).expect_err("invalid date");
        assert_eq!(error, ArgumentError::InvalidDate(value.to_string()));
        assert_eq!(
            error.message(),
            format!("invalid date {value}; expected YYYYMMDD")
        );
    }
}

#[test]
fn time_zones_are_known_by_name() {
    assert!(parse_timezone("Asia/Seoul").is_ok());
    assert!(parse_timezone("UTC").is_ok());
    let error = parse_timezone("Mars/Olympus").expect_err("invalid timezone");
    assert_eq!(
        error,
        ArgumentError::InvalidTimezone("Mars/Olympus".to_string())
    );
    assert_eq!(error.message(), "invalid timezone Mars/Olympus");
}

fn event(timestamp_unix_ms: i64, total: u64) -> UsageEvent {
    UsageEvent {
        timestamp_unix_ms,
        model: "m".to_string(),
        is_fallback_model: false,
        usage: usage(0, 0, 0, 0, total),
    }
}

const DAY_MS: i64 = 86_400_000;

#[test]
fn a_command_gives_its_report() {
    let sessions = [SessionSummary {
        session_id: "a".to_string(),
        session_path: "a.jsonl".to_string(),
        directory: None,
        events: vec![event(0, 1), event(DAY_MS, 2)],
    }];
    let make = |command| {
        make_report(command, &sessions, &utc(), None, None, false).expect("countable")
    };

    assert!(matches!(
        make(None),
        Report::Usage(ReportKind::Daily, rows) if rows.len() == 2
    ));
    assert!(matches!(
        make(Some(Command::Daily)),
        Report::Usage(ReportKind::Daily, rows) if rows[1].key == "1970-01-02"
    ));
    assert!(matches!(
        make(Some(Command::Monthly)),
        Report::Usage(ReportKind::Monthly, rows) if rows.len() == 1 && rows[0].key == "1970-01"
    ));
    assert!(matches!(
        make(Some(Command::Sessions)),
        Report::Sessions(rows) if rows.len() == 1 && rows[0].last_activity_unix_ms == DAY_MS
    ));
}

#[test]
fn a_report_beyond_64_bits_is_not_made() {
    let sessions = [SessionSummary {
        session_id: "a".to_string(),
        session_path: "a.jsonl".to_string(),
        directory: None,
        events: vec![event(0, u64::MAX), event(DAY_MS, 1)],
    }];
    let made = |command| make_report(Some(command), &sessions, &utc(), None, None, true).is_some();

    assert!(made(Command::Daily));
    assert!(!made(Command::Monthly));
    assert!(!made(Command::Sessions));
}

fn history(path: &str, events: Vec<UsageEvent>, rewritten: bool, doubtful: Vec<UsageEvent>) -> SessionHistory {
    SessionHistory {
        session_path: path.to_string(),
        events,
        has_rewritten_timestamps: rewritten,
        unresolved_usage: doubtful,
    }
}

#[test]
fn diagnostics_tell_what_is_doubtful_within_the_window() {
    let histories = [
        history("a", vec![event(0, 1)], true, Vec::new()),
        history("b", vec![event(DAY_MS, 1)], true, vec![event(0, 2), event(1, 3)]),
        history("c", vec![event(0, 1)], false, vec![event(DAY_MS, 4)]),
        history("d", vec![event(DAY_MS, 1)], true, Vec::new()),
    ];
    let first_day = Some(day(1970, 1, 1));
    let diagnostics = Diagnostics::from_sessions(&histories, &utc(), first_day, first_day);

    assert_eq!(diagnostics.rewritten_timestamp_sessions, vec!["a", "b"]);
    assert_eq!(diagnostics.unresolved_history_usage.len(), 1);
    assert_eq!(diagnostics.unresolved_history_usage[0].session_path, "b");
    assert_eq!(diagnostics.unresolved_history_usage[0].usage.total_tokens, 5);
    assert_eq!(
        Diagnostics::try_from_sessions(&histories, &utc(), first_day, first_day),
        Some(diagnostics.clone())
    );
    assert_eq!(
        diagnostics.rewritten_warning().expect("warning"),
        "warning: 2 histories have rewritten event timestamps; daily/monthly dates reflect stored timestamps and cannot establish original usage dates. See JSON diagnostics.rewritten_timestamp_sessions."
    );
    assert_eq!(
        diagnostics.unresolved_warning().expect("warning"),
        "warning: 1 child histories contain checkpoints or prefixes of unresolved ownership; excluded from totals. See JSON diagnostics.unresolved_history_usage. These snapshots may overlap and must not be summed as new usage."
    );
}

#[test]
fn nothing_doubtful_gives_no_warning() {
    assert_eq!(Diagnostics::default().rewritten_warning(), None);
    assert_eq!(Diagnostics::default().unresolved_warning(), None);
}

#[test]
fn doubtful_usage_beyond_64_bits_is_told() {
    let histories = [history("a", Vec::new(), false, vec![event(0, u64::MAX), event(1, 1)])];

    assert_eq!(
        Diagnostics::try_from_sessions(&histories, &utc(), None, None),
        None
    );
    assert!(
        Diagnostics::try_from_sessions(&histories, &utc(), Some(day(1970, 1, 2)), None).is_some()
    );
}

#[test]
fn what_is_not_found_is_told_with_its_text() {
    assert_eq!(
        date_or_error("x", Some(day(2026, 3, 6))),
        Ok(day(2026, 3, 6))
    );
    assert_eq!(
        date_or_error("x", None),
        Err(ArgumentError::InvalidDate("x".to_string()))
    );
    assert_eq!(zone_or_error("x", Some(utc())), Ok(utc()));
    assert_eq!(
        zone_or_error("x", None),
        Err(ArgumentError::InvalidTimezone("x".to_string()))
    );
}

#[test]
fn a_history_is_recorded_for_what_is_doubtful_about_it() {
    let mut diagnostics = Diagnostics::default();
    diagnostics.record(&history("a", Vec::new(), true, Vec::new()), true, None);
    diagnostics.record(&history("b", Vec::new(), true, Vec::new()), false, None);
    diagnostics.record(
        &history("c", Vec::new(), false, Vec::new()),
        true,
        Some(usage(1, 0, 0, 0, 1)),
    );

    assert_eq!(diagnostics.rewritten_timestamp_sessions, vec!["a"]);
    assert_eq!(diagnostics.unresolved_history_usage.len(), 1);
    assert_eq!(diagnostics.unresolved_history_usage[0].session_path, "c");
}

#[test]
fn reported_and_cached_input_add_up_to_the_full_input() {
    let totals = totals_from_report_rows(&[row(), row(), row()]);

    assert_eq!(
        totals.input_tokens + totals.cached_input_tokens,
        totals.raw_input_tokens
    );
    assert_eq!(totals.total_tokens, 3 * row().usage.total_tokens);
}
