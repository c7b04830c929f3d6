use codex_usage::calendar::Timezone;
use codex_usage::parser::{
    SessionFileIdentity, SessionScan, aggregate_session_file, described_session, line_counts_fit,
    line_identity, parse_session_file, parse_session_file_with_duplicate_filter, read_session_file_identity,
    try_aggregate_session_file, try_parse_session_file,
};
use codex_usage::report::GroupBy;
use codex_usage::session_log::fork::{
    DuplicateLineFilter, InheritedPrefixState, is_count, is_in_time,
};
use codex_usage::session_log::wire::{
    EventPayload, LineEnvelope, LineKindHint, LinePayload, LogLine, PayloadForm, RawUsage,
    SessionMetaPayload, TokenInfo, TurnContextPayload, first_non_empty, line_kind_hint, non_empty,
    normalized_line_key, parse_timestamp_unix_ms, payload_form, subtract_usage,
    trim_ascii_whitespace,
};
use codex_usage::types::{SessionSummary, Usage};
use serde_json::Value;

fn text(value: &Value, name: &str) -> Option<String> {
    value.get(name).and_then(Value::as_str).map(str::to_string)
}

fn counts(value: Option<&Value>) -> Option<RawUsage> {
    let value = value.filter(|value| value.is_object())?;
    let count = |name: &str| value.get(name).and_then(Value::as_u64);
    Some(RawUsage {
        input_tokens: count("input_tokens"),
        cached_input_tokens: count("cached_input_tokens"),
        cache_read_input_tokens: count("cache_read_input_tokens"),
        output_tokens: count("output_tokens"),
        reasoning_output_tokens: count("reasoning_output_tokens"),
        total_tokens: count("total_tokens"),
    })
}

fn payload(form: PayloadForm, value: &Value) -> Option<LinePayload> {
    Some(match form {
        PayloadForm::SessionMeta => LinePayload::SessionMeta(SessionMetaPayload {
            id: text(value, "id"),
            forked_from_id: text(value, "forked_from_id"),
            cwd: text(value, "cwd"),
        }),
        PayloadForm::TurnContext => LinePayload::TurnContext(TurnContextPayload {
            cwd: text(value, "cwd"),
            model: text(value, "model"),
            model_name: text(value, "model_name"),
        }),
        PayloadForm::Event => LinePayload::Event(EventPayload {
            kind: text(value, "type")?,
            info: value
                .get("info")
                .filter(|info| info.is_object())
                .map(|info| TokenInfo {
                    last_token_usage: counts(info.get("last_token_usage")),
                    total_token_usage: counts(info.get("total_token_usage")),
                    model: text(info, "model"),
                    model_name: text(info, "model_name"),
                }),
            model: text(value, "model"),
            model_name: text(value, "model_name"),
        }),
    })
}

fn line(json: &str) -> LogLine {
    let envelope = serde_json::from_str::<Value>(json.trim())
        .ok()
        .and_then(|value| {
            let kind = text(&value, "type")?;
            let payload = payload_form(&kind)
                .and_then(|form| value.get("payload").and_then(|inner| payload(form, inner)));
            Some(LineEnvelope {
                timestamp: text(&value, "timestamp"),
                kind,
                payload,
            })
        });
    LogLine {
        bytes: json.as_bytes().to_vec(),
        envelope,
    }
}

fn lines(texts: &[&str]) -> Vec<LogLine> {
    texts.iter().map(|text| line(text)).collect()
}

fn parse(texts: &[&str]) -> SessionSummary {
    parse_session_file("2026/03/06/rollout-1.jsonl", &lines(texts))
}

fn totals(summary: &SessionSummary) -> Vec<u64> {
    summary
        .events
        .iter()
        .map(|event| event.usage.total_tokens)
        .collect()
}

fn count_line(second: u32, total: u64) -> String {
    format!(
        "{{\"timestamp\":\"2026-03-06T00:00:{second:02}Z\",\"type\":\"event_msg\",\"payload\":{{\"type\":\"token_count\",\"info\":{{\"total_token_usage\":{{\"input_tokens\":{total},\"total_tokens\":{total}}}}}}}}}"
    )
}

#[test]
fn parses_last_token_usage_and_directory_from_session_meta() {
    let summary = parse_session_file(
        "2026/03/06/rollout-1.jsonl",
        &lines(&[
            r#"{"timestamp":"2026-03-05T23:59:00Z","type":"session_meta","payload":{"cwd":"/Users/jaewon/sources/front-web-www"}}"#,
            r#"{"timestamp":"2026-03-05T23:59:01Z","type":"turn_context","payload":{"model":"gpt-5.2-codex"}}"#,
            r#"{"timestamp":"2026-03-05T23:59:02Z","type":"event_msg","payload":{"type":"token_count","info":{"last_token_usage":{"input_tokens":1200,"cached_input_tokens":100,"output_tokens":300,"reasoning_output_tokens":40,"total_tokens":1500}}}}"#,
        ]),
    );

    assert_eq!(summary.session_id, "2026/03/06/rollout-1");
    assert_eq!(
        summary.directory.as_deref(),
        Some("/Users/jaewon/sources/front-web-www")
    );
    assert_eq!(summary.events.len(), 1);
    assert_eq!(summary.events[0].model, "gpt-5.2-codex");
    assert_eq!(summary.events[0].usage.total_tokens, 1500);
    assert_eq!(summary.events[0].usage.cached_input_tokens, 100);
}

#[test]
fn derives_deltas_from_total_token_usage_when_last_usage_is_missing() {
    let summary = parse_session_file(
        "2026/03/06/rollout-2.jsonl",
        &lines(&[
            r#"{"timestamp":"2026-03-05T23:59:01Z","type":"turn_context","payload":{"model":"gpt-5.2-codex"}}"#,
            r#"{"timestamp":"2026-03-05T23:59:02Z","type":"event_msg","payload":{"type":"token_count","info":{"total_token_usage":{"input_tokens":1000,"cached_input_tokens":100,"output_tokens":200,"reasoning_output_tokens":20,"total_tokens":1200}}}}"#,
            r#"{"timestamp":"2026-03-05T23:59:03Z","type":"event_msg","payload":{"type":"token_count","info":{"total_token_usage":{"input_tokens":1600,"cached_input_tokens":300,"output_tokens":260,"reasoning_output_tokens":20,"total_tokens":1860}}}}"#,
        ]),
    );

    assert_eq!(summary.events.len(), 2);
    assert_eq!(summary.events[0].usage.total_tokens, 1200);
    assert_eq!(summary.events[1].usage.input_tokens, 600);
    assert_eq!(summary.events[1].usage.cached_input_tokens, 200);
    assert_eq!(summary.events[1].usage.output_tokens, 60);
    assert_eq!(summary.events[1].usage.total_tokens, 660);
}

#[test]
fn keeps_latest_non_empty_directory_from_turn_context() {
    let summary = parse_session_file(
        "2026/03/06/rollout-3.jsonl",
        &lines(&[
            r#"{"timestamp":"2026-03-05T23:59:00Z","type":"session_meta","payload":{"cwd":"/Users/jaewon/sources/repo-a"}}"#,
            r#"{"timestamp":"2026-03-05T23:59:01Z","type":"turn_context","payload":{"cwd":"/Users/jaewon/sources/repo-b","model":"gpt-5.2-codex"}}"#,
            r#"{"timestamp":"2026-03-05T23:59:02Z","type":"event_msg","payload":{"type":"token_count","info":{"last_token_usage":{"input_tokens":10,"output_tokens":5,"total_tokens":15}}}}"#,
        ]),
    );

    assert_eq!(
        summary.directory.as_deref(),
        Some("/Users/jaewon/sources/repo-b")
    );
}

#[test]
fn skips_non_usage_lines_with_fast_hint() {
    assert_eq!(
        line_kind_hint(br#"{"type":"response_item","payload":{"type":"message"}}"#),
        LineKindHint::Other
    );
    assert_eq!(
        line_kind_hint(br#"{"type":"turn_context","payload":{"model":"gpt-5.4-codex"}}"#),
        LineKindHint::TurnContext
    );
}

#[test]
fn the_first_mark_in_the_order_of_kinds_decides_the_hint() {
    assert_eq!(
        line_kind_hint(br#"{"type":"event_msg"}"#),
        LineKindHint::EventMsg
    );
    assert_eq!(
        line_kind_hint(br#"{"type":"session_meta"}"#),
        LineKindHint::SessionMeta
    );
    assert_eq!(
        line_kind_hint(br#"{"type":"session_meta","x":{"type":"event_msg"}}"#),
        LineKindHint::EventMsg
    );
    assert_eq!(
        line_kind_hint(br#"{"type": "event_msg"}"#),
        LineKindHint::Other
    );
    assert_eq!(line_kind_hint(b""), LineKindHint::Other);
}

#[test]
fn lines_are_read_without_the_white_space_around_them() {
    assert_eq!(trim_ascii_whitespace(b" \t\r\n\x0c{} x\x0b \n"), b"{} x\x0b");
    assert_eq!(trim_ascii_whitespace(b" \n"), b"");
    assert_eq!(trim_ascii_whitespace(b""), b"");

    let padded = format!("  {}\r\n", count_line(1, 5));
    assert_eq!(totals(&parse(&[&padded])), vec![5]);
}

#[test]
fn lines_that_are_no_json_or_not_of_interest_are_left_out() {
    let summary = parse(&[
        "",
        "   ",
        r#"{"type":"event_msg" broken"#,
        r#"{"timestamp":"2026-03-06T00:00:01Z","type":"response_item","payload":{"type":"event_msg"}}"#,
        r#"{"type":"event_msg","payload":{"type":"token_count","info":{"last_token_usage":{"input_tokens":1}}}}"#,
        r#"{"timestamp":"yesterday","type":"event_msg","payload":{"type":"token_count","info":{"last_token_usage":{"input_tokens":1}}}}"#,
        r#"{"timestamp":"2026-03-06T00:00:01Z","type":"event_msg","payload":{"type":"agent_message"}}"#,
        r#"{"timestamp":"2026-03-06T00:00:01Z","type":"event_msg","payload":{"type":"token_count","info":null}}"#,
        r#"{"timestamp":"2026-03-06T00:00:01Z","type":"event_msg","payload":{"type":"token_count","info":{"last_token_usage":{"input_tokens":0}}}}"#,
    ]);

    assert!(summary.events.is_empty());
    assert_eq!(summary.directory, None);
}

#[test]
fn a_line_that_is_not_utf_8_is_left_out() {
    let mut broken = line(&count_line(1, 5));
    let at = broken.bytes.len() - 1;
    broken.bytes[at] = 0xff;

    assert!(parse_session_file("a.jsonl", &[broken]).events.is_empty());
}

#[test]
fn a_repeated_total_counts_nothing() {
    let summary = parse(&[&count_line(1, 5), &count_line(2, 5), &count_line(3, 7)]);

    assert_eq!(totals(&summary), vec![5, 2]);
}

#[test]
fn the_usage_of_a_session_adds_up_to_its_last_totals() {
    let summary = parse(&[
        &count_line(1, 5),
        &count_line(2, 5),
        &count_line(3, 17),
        &count_line(4, 1_000),
    ]);

    assert_eq!(totals(&summary).iter().sum::<u64>(), 1_000);
}

#[test]
fn totals_that_go_down_count_nothing_and_are_the_new_start() {
    let summary = parse(&[&count_line(1, 10), &count_line(2, 4), &count_line(3, 6)]);

    assert_eq!(totals(&summary), vec![10, 2]);
}

#[test]
fn totals_count_before_the_last_request() {
    let summary = parse(&[
        r#"{"timestamp":"2026-03-06T00:00:01Z","type":"event_msg","payload":{"type":"token_count","info":{"last_token_usage":{"input_tokens":3,"total_tokens":3},"total_token_usage":{"input_tokens":8,"total_tokens":8}}}}"#,
        r#"{"timestamp":"2026-03-06T00:00:02Z","type":"event_msg","payload":{"type":"token_count","info":{"last_token_usage":{"input_tokens":4,"total_tokens":4}}}}"#,
        &count_line(3, 9),
    ]);

    assert_eq!(totals(&summary), vec![8, 4, 1]);
}

#[test]
fn events_go_to_the_model_that_was_named_last() {
    let with_model = r#"{"timestamp":"2026-03-06T00:00:02Z","type":"event_msg","payload":{"type":"token_count","model":" gpt-a ","info":{"last_token_usage":{"input_tokens":1}}}}"#;
    let in_info = r#"{"timestamp":"2026-03-06T00:00:03Z","type":"event_msg","payload":{"type":"token_count","model":"  ","info":{"model_name":"gpt-b","last_token_usage":{"input_tokens":1}}}}"#;
    let without = r#"{"timestamp":"2026-03-06T00:00:04Z","type":"event_msg","payload":{"type":"token_count","info":{"last_token_usage":{"input_tokens":1}}}}"#;
    let turn = r#"{"timestamp":"2026-03-06T00:00:05Z","type":"turn_context","payload":{"model_name":"gpt-c"}}"#;
    let summary = parse(&[
        without, without, with_model, without, in_info, without, turn, without,
    ]);

    let models: Vec<(&str, bool)> = summary
        .events
        .iter()
        .map(|event| (event.model.as_str(), event.is_fallback_model))
        .collect();
    assert_eq!(
        models,
        vec![
            ("unknown", true),
            ("unknown", true),
            ("gpt-a", false),
            ("gpt-a", false),
            ("gpt-b", false),
            ("gpt-b", false),
            ("gpt-c", false),
        ]
    );
}

#[test]
fn the_path_of_a_session_has_slashes() {
    let summary = parse_session_file("2026\\03\\06\\rollout-1.jsonl", &lines(&[]));

    assert_eq!(summary.session_path, "2026/03/06/rollout-1.jsonl");
    assert_eq!(summary.session_id, "2026/03/06/rollout-1");
}

#[test]
fn missing_counts_are_filled_in() {
    let raw = RawUsage {
        input_tokens: Some(10),
        cached_input_tokens: None,
        cache_read_input_tokens: Some(12),
        output_tokens: Some(5),
        reasoning_output_tokens: None,
        total_tokens: None,
    };
    assert_eq!(
        raw.normalize(),
        Usage {
            input_tokens: 10,
            cached_input_tokens: 10,
            output_tokens: 5,
            reasoning_output_tokens: 0,
            total_tokens: 15,
        }
    );
    let raw = RawUsage {
        cached_input_tokens: Some(3),
        total_tokens: Some(1),
        ..raw
    };
    assert_eq!(raw.normalize().cached_input_tokens, 3);
    assert_eq!(raw.normalize().total_tokens, 1);
}

#[test]
fn usage_is_subtracted_count_by_count_down_to_zero() {
    let current = Usage {
        input_tokens: 5,
        cached_input_tokens: 4,
        output_tokens: 3,
        reasoning_output_tokens: 2,
        total_tokens: 1,
    };
    let previous = Usage {
        input_tokens: 1,
        cached_input_tokens: 5,
        output_tokens: 3,
        reasoning_output_tokens: 1,
        total_tokens: 9,
    };

    assert_eq!(subtract_usage(current, None), current);
    assert_eq!(
        subtract_usage(current, Some(previous)),
        Usage {
            input_tokens: 4,
            cached_input_tokens: 0,
            output_tokens: 0,
            reasoning_output_tokens: 1,
            total_tokens: 0,
        }
    );
}

#[test]
fn timestamps_are_instants_of_rfc_3339() {
    assert_eq!(parse_timestamp_unix_ms("1970-01-01T00:00:01.5Z"), Some(1_500));
    assert_eq!(
        parse_timestamp_unix_ms("2026-03-06T09:00:00+09:00"),
        parse_timestamp_unix_ms("2026-03-06T00:00:00Z")
    );
    assert_eq!(parse_timestamp_unix_ms("2026-03-06"), None);
    assert_eq!(parse_timestamp_unix_ms(""), None);
}

#[test]
fn blank_texts_count_as_missing() {
    assert_eq!(non_empty(Some(" x ".to_string())), Some(" x ".to_string()));
    assert_eq!(non_empty(Some(" \u{3000}\t".to_string())), None);
    assert_eq!(non_empty(None), None);
    assert_eq!(
        first_non_empty(&[None, Some("  ".to_string()), Some(" y ".to_string())]),
        Some("y".to_string())
    );
    assert_eq!(first_non_empty(&[None]), None);
}

#[test]
fn counts_beyond_64_bits_in_a_line_are_told() {
    let huge = r#"{"timestamp":"2026-03-06T00:00:01Z","type":"event_msg","payload":{"type":"token_count","info":{"last_token_usage":{"input_tokens":18446744073709551615,"output_tokens":1}}}}"#;
    let without_time = r#"{"type":"event_msg","payload":{"type":"token_count","info":{"last_token_usage":{"input_tokens":18446744073709551615,"output_tokens":1}}}}"#;

    assert!(!line_counts_fit(&line(huge)));
    assert!(line_counts_fit(&line(without_time)));
    assert!(try_parse_session_file("a.jsonl", &lines(&[huge]), None).is_none());
    assert_eq!(
        try_parse_session_file("a.jsonl", &lines(&[without_time]), None),
        Some(parse_session_file("a.jsonl", &lines(&[without_time])))
    );
}

#[test]
fn the_first_description_of_a_session_counts() {
    let other = count_line(0, 1);
    let first = r#"{"timestamp":"2026-03-06T00:00:00Z","type":"session_meta","payload":{"id":"a","forked_from_id":" "}}"#;
    let second = r#"{"timestamp":"2026-03-06T00:00:01Z","type":"session_meta","payload":{"id":"b","forked_from_id":"a"}}"#;

    assert_eq!(line_identity(&line(&other)), None);
    assert_eq!(
        read_session_file_identity(&lines(&[&other, first, second])),
        SessionFileIdentity {
            session_id: Some("a".to_string()),
            forked_from_id: None,
            started_at_unix_ms: parse_timestamp_unix_ms("2026-03-06T00:00:00Z"),
        }
    );
    assert_eq!(
        read_session_file_identity(&lines(&[second])).forked_from_id,
        Some("a".to_string())
    );
    assert_eq!(
        read_session_file_identity(&lines(&[&other])),
        SessionFileIdentity::default()
    );
}

#[test]
fn keys_of_lines_do_without_the_timestamp() {
    let early = normalized_line_key(br#"{"timestamp":"a","type":"event_msg","payload":{"b":1,"a":[2]}}"#);
    let late = normalized_line_key(br#"{ "payload": {"a":[2], "b":1}, "type":"event_msg","timestamp":"b"}"#);
    let other = normalized_line_key(br#"{"timestamp":"a","type":"event_msg","payload":{"b":2,"a":[2]}}"#);

    assert!(early.is_some());
    assert_eq!(early, late);
    assert_ne!(early, other);
    assert_eq!(normalized_line_key(b"[1]"), None);
    assert_eq!(normalized_line_key(b"{"), None);
}

#[test]
fn a_filter_takes_each_line_of_the_parent_once() {
    let parent = lines(&[&count_line(1, 5), &count_line(2, 5), &count_line(3, 7)]);
    let mut filter = DuplicateLineFilter::from_file(&parent, None);
    let five = count_line(30, 5);
    let seven = count_line(31, 7);
    let nine = count_line(32, 9);

    assert!(filter.consume_if_duplicate(five.as_bytes()));
    assert!(filter.consume_if_duplicate(five.as_bytes()));
    assert!(!filter.consume_if_duplicate(five.as_bytes()));
    assert!(!filter.consume_if_duplicate(nine.as_bytes()));
    assert!(filter.consume_if_duplicate(seven.as_bytes()));
    assert!(!filter.consume_if_duplicate(b"no json"));
}

#[test]
fn a_filter_holds_the_counts_up_to_the_start_of_the_child() {
    let parent = lines(&[&count_line(1, 5), &count_line(2, 7), &count_line(3, 9)]);
    let cutoff = parse_timestamp_unix_ms("2026-03-06T00:00:02Z");
    let mut filter = DuplicateLineFilter::from_file(&parent, cutoff);

    assert!(filter.consume_if_duplicate(count_line(40, 5).as_bytes()));
    assert!(filter.consume_if_duplicate(count_line(40, 7).as_bytes()));
    assert!(!filter.consume_if_duplicate(count_line(40, 9).as_bytes()));
}

#[test]
fn a_fork_counts_only_what_it_adds_to_its_parent() {
    let parent = lines(&[&count_line(1, 1_200)]);
    let child = lines(&[
        r#"{"timestamp":"2026-03-06T00:00:00Z","type":"session_meta","payload":{"id":"c","forked_from_id":"p"}}"#,
        &count_line(30, 1_200),
        &count_line(31, 1_750),
    ]);
    let filter = DuplicateLineFilter::from_file(&parent, None);
    let filtered = parse_session_file_with_duplicate_filter("c.jsonl", &child, Some(filter));
    let unfiltered = parse_session_file("c.jsonl", &child);

    assert_eq!(totals(&filtered), vec![550]);
    assert_eq!(totals(&unfiltered), vec![1_200, 550]);
    assert_eq!(
        totals(&parse_session_file("p.jsonl", &parent))
            .iter()
            .sum::<u64>()
            + totals(&filtered).iter().sum::<u64>(),
        1_750
    );
}

#[test]
fn the_start_that_a_fork_repeats_is_skipped_until_a_pause() {
    let summary = parse(&[
        r#"{"timestamp":"2026-03-06T00:00:00Z","type":"session_meta","payload":{"id":"c","forked_from_id":"p","cwd":"/child"}}"#,
        r#"{"timestamp":"2026-03-06T00:00:00Z","type":"session_meta","payload":{"id":"p","cwd":"/parent"}}"#,
        &count_line(0, 100),
        &count_line(1, 200),
        &count_line(2, 300),
        &count_line(4, 350),
        &count_line(5, 360),
    ]);

    assert_eq!(totals(&summary), vec![50, 10]);
    assert_eq!(summary.directory.as_deref(), Some("/child"));
}

#[test]
fn a_pause_before_the_first_repeated_count_ends_nothing() {
    let mut state = InheritedPrefixState::new();
    let fork = SessionMetaPayload {
        id: Some("c".to_string()),
        forked_from_id: Some("p".to_string()),
        cwd: None,
    };

    assert!(!state.observe_session_meta(&fork, Some(0)));
    assert!(state.observe_session_meta(&fork, Some(0)));
    assert!(!state.observe_session_meta(&fork, Some(0)));
    state.observe_non_token_line(Some(10_000));
    assert!(state.observe_token_count(Some(20_000)));
    assert!(state.observe_token_count(Some(21_000)));
    state.observe_non_token_line(Some(22_001));
    assert!(!state.observe_token_count(Some(22_002)));
}

#[test]
fn a_session_that_was_not_forked_skips_nothing() {
    let mut state = InheritedPrefixState::new();
    let plain = SessionMetaPayload {
        id: Some("a".to_string()),
        forked_from_id: Some(" ".to_string()),
        cwd: None,
    };

    assert!(!state.observe_session_meta(&plain, None));
    assert!(!state.observe_session_meta(&plain, None));
    assert!(!state.observe_token_count(Some(0)));
}

#[test]
fn a_log_can_be_read_line_by_line() {
    let texts = [
        r#"{"timestamp":"2026-03-06T00:00:00Z","type":"session_meta","payload":{"cwd":"/a"}}"#.to_string(),
        count_line(1, 5),
        count_line(2, 8),
    ];
    let mut scan = SessionScan::new(None);
    for text in &texts {
        scan.observe_line(&line(text));
    }

    assert_eq!(
        scan.into_summary("x/y.jsonl".to_string()),
        parse_session_file("x/y.jsonl", &lines(&[&texts[0], &texts[1], &texts[2]]))
    );
}

#[test]
fn the_usage_of_a_log_is_reported_by_day() {
    let utc = Timezone::named("UTC").expect("time zone");
    let log = lines(&[&count_line(1, 5), &count_line(2, 8)]);
    let rows = aggregate_session_file("a.jsonl", &log, &utc, GroupBy::Day, None, None);

    assert_eq!(rows.len(), 1);
    assert_eq!(rows[0].key, "2026-03-06");
    assert_eq!(rows[0].usage.total_tokens, 8);
    assert_eq!(
        try_aggregate_session_file("a.jsonl", &log, &utc, GroupBy::Day, None, None, None),
        Some(rows)
    );
    let filter = DuplicateLineFilter::from_file(&lines(&[&count_line(9, 5)]), None);
    let rest = try_aggregate_session_file(
        "a.jsonl",
        &log,
        &utc,
        GroupBy::Day,
        None,
        None,
        Some(filter),
    )
    .expect("rows");
    assert_eq!(rest[0].usage.total_tokens, 3);
}

#[test]
fn a_log_whose_running_totals_are_large_is_reported_where_its_rows_fit() {
    let utc = Timezone::named("UTC").expect("time zone");
    let large = u64::MAX - 1;
    let log = lines(&[&count_line(1, large), &count_line(2, u64::MAX)]);
    let rows = try_aggregate_session_file("a.jsonl", &log, &utc, GroupBy::Day, None, None, None)
        .expect("rows");
    assert_eq!(rows.len(), 1);
    assert_eq!(rows[0].usage.total_tokens, u64::MAX);

    let log = lines(&[&count_line(1, large), &count_line(2, 0), &count_line(3, 2)]);
    assert_eq!(
        try_aggregate_session_file("a.jsonl", &log, &utc, GroupBy::Day, None, None, None),
        None
    );
}

#[test]
fn a_filter_keeps_each_of_many_lines_as_often_as_it_was_counted() {
    let texts = [5, 3, 9, 3, 7, 1, 3].map(|total| count_line(1, total));
    let parent = texts.iter().map(|text| line(text)).collect::<Vec<_>>();
    let mut filter = DuplicateLineFilter::from_file(&parent, None);

    for total in [3, 1, 9, 3, 5, 3, 7] {
        assert!(filter.consume_if_duplicate(count_line(2, total).as_bytes()));
    }
    for total in [1, 2, 3, 9] {
        assert!(!filter.consume_if_duplicate(count_line(2, total).as_bytes()));
    }
}

#[test]
fn only_counts_up_to_the_cutoff_are_in_time() {
    assert!(is_in_time(Some(5), Some(5)));
    assert!(!is_in_time(Some(6), Some(5)));
    assert!(!is_in_time(None, Some(5)));
    assert!(is_in_time(None, None));
}

#[test]
fn a_count_says_so_in_its_bytes_and_in_its_payload() {
    assert!(is_count(&line(&count_line(1, 5))));
    let spaced = r#"{"timestamp":"2026-03-06T00:00:01Z","type":"event_msg","payload":{"type": "token_count","info":null}}"#;
    assert!(!is_count(&line(spaced)));
    let quoted = r#"{"timestamp":"2026-03-06T00:00:01Z","type":"event_msg","payload":{"type":"note","x":{"type":"token_count"}}}"#;
    assert!(!is_count(&line(quoted)));
}

#[test]
fn a_filter_remembers_keys_as_often_as_they_are_given() {
    let key = || normalized_line_key(count_line(1, 5).as_bytes()).expect("key");
    let mut filter = DuplicateLineFilter::default();
    assert!(!filter.consume_key(&key()));
    filter.remember(key());
    filter.remember(key());
    let mut copy = filter.clone();

    assert!(filter.consume_key(&key()));
    assert!(filter.consume_key(&key()));
    assert!(!filter.consume_key(&key()));
    assert!(copy.consume_key(&key()));
}

#[test]
fn a_description_names_the_session_and_its_parent() {
    let meta = SessionMetaPayload {
        id: Some("a".to_string()),
        forked_from_id: Some("\t".to_string()),
        cwd: None,
    };
    assert_eq!(
        described_session(&meta, Some(3)),
        SessionFileIdentity {
            session_id: Some("a".to_string()),
            forked_from_id: None,
            started_at_unix_ms: Some(3),
        }
    );
}

#[test]
fn a_fork_that_repeats_its_parent_line_by_line_counts_nothing() {
    let log = lines(&[&count_line(1, 5), &count_line(2, 5), &count_line(3, 9)]);
    let filter = DuplicateLineFilter::from_file(&log, None);

    assert!(
        parse_session_file_with_duplicate_filter("c.jsonl", &log, Some(filter))
            .events
            .is_empty()
    );
    assert_eq!(totals(&parse_session_file("c.jsonl", &log)), vec![5, 4]);
}

#[test]
fn lines_added_to_a_log_leave_its_events_as_they_are() {
    let texts = [count_line(1, 5), count_line(2, 9), count_line(3, 9), count_line(4, 20)];
    let all: Vec<&str> = texts.iter().map(String::as_str).collect();
    let whole = parse(&all);
    for n in 0..all.len() {
        let part = parse(&all[..n]);
        assert_eq!(part.events[..], whole.events[..part.events.len()]);
    }
}

#[test]
fn a_known_directory_is_not_forgotten() {
    let summary = parse(&[
        r#"{"timestamp":"2026-03-06T00:00:00Z","type":"session_meta","payload":{"cwd":"/a"}}"#,
        r#"{"timestamp":"2026-03-06T00:00:01Z","type":"turn_context","payload":{"cwd":" "}}"#,
        r#"{"timestamp":"2026-03-06T00:00:02Z","type":"turn_context","payload":{}}"#,
    ]);

    assert_eq!(summary.directory.as_deref(), Some("/a"));
}
