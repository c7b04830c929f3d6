use codex_usage::cache::{
    CacheFile, load_cache, load_cache_state, load_manifest, manifest_file, save_cache,
    save_manifest, session_file,
};
use codex_usage::calendar::CivilDate;
use codex_usage::parser::{
    SessionFileIdentity, parse_session_file_with_duplicate_filter, read_session_file_identity,
};
use codex_usage::scanner::{
    FileCandidate, SavedEntry, ScanOptions, ScanPlan, SessionEntryPlan, assemble_entries, cache_changed,
    cache_entries, file_matches_date_window, into_sessions, is_cache_hit, is_session_log,
    load_for_scan, log_path, parse_date_from_relative_path, plan_scan, sort_candidates,
};
use codex_usage::session_log::fork::DuplicateLineFilter;
use codex_usage::session_log::manifest::{
    DirectoryCandidate, day_directory, manifest_entry, manifest_files, manifest_name,
    sort_directories,
};
use codex_usage::session_log::parents::{ParentSearch, parent_entry, plan_forks};
use codex_usage::session_log::wire::{
    EventPayload, LineEnvelope, LinePayload, LogLine, PayloadForm, RawUsage, SessionMetaPayload,
    TokenInfo, TurnContextPayload, payload_form,
};
use codex_usage::types::{
    CachedManifestDirectory, CachedManifestFile, CachedSessionSummary, SessionSummary, Usage,
    UsageEvent,
};
use serde_json::Value;
use std::collections::HashMap;

fn day(year: i32, month: u32, day: u32) -> CivilDate {
    CivilDate::from_ymd_opt(year, month, day).expect("day")
}

fn file(path: &str, size: u64, modified: i64, entry: usize) -> FileCandidate {
    FileCandidate {
        relative_path: path.to_string(),
        file_size: size,
        modified_unix_ms: modified,
        entry,
    }
}

fn summary(path: &str) -> SessionSummary {
    SessionSummary {
        session_id: path.trim_end_matches(".jsonl").to_string(),
        session_path: path.to_string(),
        directory: None,
        events: Vec::new(),
    }
}

fn cached(path: &str, size: u64, modified: i64) -> CachedSessionSummary {
    CachedSessionSummary {
        file_size: size,
        modified_unix_ms: modified,
        session: summary(path),
    }
}

fn full_scan(refresh_cache: bool) -> ScanOptions {
    ScanOptions {
        since: None,
        until: None,
        refresh_cache,
    }
}

fn paths_to_parse(plan: &ScanPlan) -> Vec<String> {
    plan.files_to_parse()
        .iter()
        .map(|file| file.relative_path.clone())
        .collect()
}

fn saved_paths(
    options: &ScanOptions,
    entries: &[CachedSessionSummary],
    plan: &ScanPlan,
) -> Vec<String> {
    cache_entries(options, entries, &plan.leftover)
        .iter()
        .map(|saved| saved.entry.session.session_path.clone())
        .collect()
}

fn text(value: &Value, name: &str) -> Option<String> {
    value.get(name).and_then(Value::as_str).map(str::to_string)
}

fn counts(value: Option<&Value>) -> Option<RawUsage> {
    let value = value.filter(|value| value.is_object())?;
    let count = |name: &str| value.get(name).and_then(Value::as_u64);
    Some(RawUsage {
        input_tokens: count("input_tokens"),
        cached_input_tokens: count("cached_input_tokens"),
        cache_read_input_tokens: count("cache_read_input_tokens"),
        output_tokens: count("output_tokens"),
        reasoning_output_tokens: count("reasoning_output_tokens"),
        total_tokens: count("total_tokens"),
    })
}

fn payload(form: PayloadForm, value: &Value) -> Option<LinePayload> {
    Some(match form {
        PayloadForm::SessionMeta => LinePayload::SessionMeta(SessionMetaPayload {
            id: text(value, "id"),
            forked_from_id: text(value, "forked_from_id"),
            cwd: text(value, "cwd"),
        }),
        PayloadForm::TurnContext => LinePayload::TurnContext(TurnContextPayload {
            cwd: text(value, "cwd"),
            model: text(value, "model"),
            model_name: text(value, "model_name"),
        }),
        PayloadForm::Event => LinePayload::Event(EventPayload {
            kind: text(value, "type")?,
            info: value
                .get("info")
                .filter(|info| info.is_object())
                .map(|info| TokenInfo {
                    last_token_usage: counts(info.get("last_token_usage")),
                    total_token_usage: counts(info.get("total_token_usage")),
                    model: text(info, "model"),
                    model_name: text(info, "model_name"),
                }),
            model: text(value, "model"),
            model_name: text(value, "model_name"),
        }),
    })
}

fn line(json: &str) -> LogLine {
    let envelope = serde_json::from_str::<Value>(json.trim())
        .ok()
        .and_then(|value| {
            let kind = text(&value, "type")?;
            let payload = payload_form(&kind)
                .and_then(|form| value.get("payload").and_then(|inner| payload(form, inner)));
            Some(LineEnvelope {
                timestamp: text(&value, "timestamp"),
                kind,
                payload,
            })
        });
    LogLine {
        bytes: json.as_bytes().to_vec(),
        envelope,
    }
}

fn lines(texts: &[&str]) -> Vec<LogLine> {
    texts.iter().map(|text| line(text)).collect()
}

/// Logs by their paths, in place of files.
type Logs = Vec<(String, Vec<LogLine>)>;

/// What a scan returned, what it saved, and whether it found the cache changed.
struct Scan {
    sessions: Vec<SessionSummary>,
    saved: Vec<CachedSessionSummary>,
    changed: bool,
}

fn filters_for(files: &[FileCandidate], logs: &Logs) -> HashMap<String, DuplicateLineFilter> {
    let identities = files
        .iter()
        .map(|file| read_session_file_identity(&logs[file.entry].1))
        .collect::<Vec<_>>();
    let plan = plan_forks(files, &identities);
    let mut search = ParentSearch::new(plan.missing);
    if !search.is_idle() {
        for (entry, (path, lines)) in logs.iter().enumerate() {
            let name = path.rsplit('/').next().expect("file name");
            if let Some(id) = search.wanted_by(name) {
                if search.observe(id, &read_session_file_identity(lines), entry) {
                    break;
                }
            }
        }
    }
    plan.children
        .iter()
        .filter_map(|child| {
            let entry = parent_entry(child, &plan.parents, &search.found)?;
            let filter =
                DuplicateLineFilter::from_file(&logs[entry].1, child.child_started_at_unix_ms);
            Some((child.child_relative_path.clone(), filter))
        })
        .collect()
}

fn scan(logs: &Logs, options: &ScanOptions, cache: CacheFile<CachedSessionSummary>) -> Scan {
    let found = logs
        .iter()
        .enumerate()
        .filter_map(|(entry, (path, lines))| {
            let path = log_path(true, Some("jsonl"), path, options.since, options.until)?;
            let size = lines.iter().map(|line| line.bytes.len() as u64 + 1).sum();
            Some(file(&path, size, 1, entry))
        })
        .collect();
    let files = sort_candidates(found);
    let cache_existed = !matches!(cache, CacheFile::Missing);
    let load = load_for_scan(options, cache);
    let plan = plan_scan(&files, load.entries);
    let to_parse = plan.files_to_parse();
    let filters = filters_for(&to_parse, logs);
    let parsed = to_parse
        .iter()
        .map(|file| {
            parse_session_file_with_duplicate_filter(
                &file.relative_path,
                &logs[file.entry].1,
                filters.get(&file.relative_path).cloned(),
            )
        })
        .collect();
    let changed = cache_changed(options, cache_existed, load.needs_rewrite, &to_parse, &plan);
    let entries = assemble_entries(plan.plans, parsed);
    let saved = cache_entries(options, &entries, &plan.leftover)
        .iter()
        .map(|saved| saved.entry.clone())
        .collect();
    Scan {
        sessions: into_sessions(entries),
        saved,
        changed,
    }
}

fn saved_bytes(entries: &[CachedSessionSummary]) -> Vec<u8> {
    let saved = entries
        .iter()
        .map(|entry| SavedEntry { entry })
        .collect::<Vec<_>>();
    save_cache(&saved)
}

/// Scans with a cache of bytes, and writes it as far as the scan changes it; tells whether it does.
fn scan_with_bytes(logs: &Logs, options: &ScanOptions, cache: &mut Option<Vec<u8>>) -> bool {
    let found = scan(logs, options, session_file(cache.as_deref()));
    if found.changed {
        *cache = Some(saved_bytes(&found.saved));
    }
    found.changed
}

fn parent_and_child(parent_id: &str, child_id: &str) -> Logs {
    let parent = lines(&[
        &format!(
            r#"{{"timestamp":"2026-02-01T00:00:00Z","type":"session_meta","payload":{{"id":"{parent_id}","cwd":"/Users/jaewon/sources"}}}}"#
        ),
        r#"{"timestamp":"2026-02-01T00:00:01Z","type":"turn_context","payload":{"model":"gpt-5.2-codex"}}"#,
        r#"{"timestamp":"2026-02-01T00:00:02Z","type":"event_msg","payload":{"type":"token_count","info":{"total_token_usage":{"input_tokens":1000,"cached_input_tokens":100,"output_tokens":200,"reasoning_output_tokens":20,"total_tokens":1200}}}}"#,
    ]);
    let child = lines(&[
        &format!(
            r#"{{"timestamp":"2026-03-06T00:00:00Z","type":"session_meta","payload":{{"id":"{child_id}","forked_from_id":"{parent_id}","cwd":"/Users/jaewon/sources"}}}}"#
        ),
        r#"{"timestamp":"2026-03-06T00:00:01Z","type":"turn_context","payload":{"model":"gpt-5.2-codex"}}"#,
        r#"{"timestamp":"2026-03-06T00:00:02Z","type":"event_msg","payload":{"type":"token_count","info":{"total_token_usage":{"input_tokens":1000,"cached_input_tokens":100,"output_tokens":200,"reasoning_output_tokens":20,"total_tokens":1200}}}}"#,
        r#"{"timestamp":"2026-03-06T00:00:03Z","type":"event_msg","payload":{"type":"token_count","info":{"total_token_usage":{"input_tokens":1500,"cached_input_tokens":150,"output_tokens":250,"reasoning_output_tokens":20,"total_tokens":1750}}}}"#,
    ]);
    vec![
        (
            format!("2026/02/01/rollout-2026-02-01T00-00-00-{parent_id}.jsonl"),
            parent,
        ),
        (
            format!("2026/03/06/rollout-2026-03-06T00-00-00-{child_id}.jsonl"),
            child,
        ),
    ]
}

#[test]
fn a_path_starts_with_its_day() {
    assert_eq!(
        parse_date_from_relative_path("2026/03/06/rollout-1.jsonl"),
        Some(day(2026, 3, 6))
    );
    assert_eq!(parse_date_from_relative_path("2026/3/6"), Some(day(2026, 3, 6)));
    assert_eq!(
        parse_date_from_relative_path("+2026/+03/+06/x"),
        Some(day(2026, 3, 6))
    );
    assert_eq!(parse_date_from_relative_path("-5/1/1"), Some(day(-5, 1, 1)));
    assert_eq!(parse_date_from_relative_path("2026/03"), None);
    assert_eq!(parse_date_from_relative_path("2026/-3/06"), None);
    assert_eq!(parse_date_from_relative_path("2026/02/30/x"), None);
    assert_eq!(parse_date_from_relative_path("2024/02/29/x"), Some(day(2024, 2, 29)));
    assert_eq!(parse_date_from_relative_path("year/03/06"), None);
    assert_eq!(parse_date_from_relative_path("2026/03/4294967296"), None);
    assert_eq!(parse_date_from_relative_path("99999999999999999999/1/1"), None);
    assert_eq!(parse_date_from_relative_path(""), None);
}

#[test]
fn a_window_reaches_a_day_beyond_each_end() {
    let (since, until) = (Some(day(2026, 3, 1)), Some(day(2026, 3, 2)));

    assert!(!file_matches_date_window("2026/02/27/x", since, until));
    assert!(file_matches_date_window("2026/02/28/x", since, until));
    assert!(file_matches_date_window("2026/03/03/x", since, until));
    assert!(!file_matches_date_window("2026/03/04/x", since, until));
    assert!(file_matches_date_window("notes/x", since, until));
    assert!(file_matches_date_window("1999/01/01/x", None, until));
    assert!(file_matches_date_window("2999/01/01/x", since, None));
    assert!(file_matches_date_window("2999/01/01/x", None, None));
}

#[test]
fn session_logs_are_files_that_end_in_jsonl() {
    assert!(is_session_log(true, Some("jsonl")));
    assert!(!is_session_log(false, Some("jsonl")));
    assert!(!is_session_log(true, Some("JSONL")));
    assert!(!is_session_log(true, None));

    let (since, until) = (Some(day(2026, 3, 6)), None);
    assert_eq!(
        log_path(true, Some("jsonl"), "2026\\03\\06\\a.jsonl", since, until),
        Some("2026/03/06/a.jsonl".to_string())
    );
    assert_eq!(
        log_path(true, Some("jsonl"), "2026\\03\\01\\a.jsonl", since, until),
        None
    );
    assert_eq!(log_path(true, Some("txt"), "2026/03/06/a", since, until), None);
}

#[test]
fn logs_are_taken_in_the_order_of_their_paths() {
    let sorted = sort_candidates(vec![
        file("b", 1, 1, 0),
        file("a/z", 2, 2, 1),
        file("B", 3, 3, 2),
        file("a", 4, 4, 3),
        file("b", 5, 5, 4),
    ]);
    let entries: Vec<usize> = sorted.iter().map(|file| file.entry).collect();

    assert_eq!(entries, vec![2, 3, 1, 0, 4]);
}

#[test]
fn a_log_is_cached_while_its_size_and_time_stay_the_same() {
    assert!(is_cache_hit(&file("a", 1, 2, 0), &cached("a", 1, 2)));
    assert!(!is_cache_hit(&file("a", 2, 2, 0), &cached("a", 1, 2)));
    assert!(!is_cache_hit(&file("a", 1, 3, 0), &cached("a", 1, 2)));
}

#[test]
fn only_changed_logs_are_read() {
    let files = [file("a", 1, 1, 0), file("b", 2, 2, 1), file("c", 3, 3, 2)];
    let plan = plan_scan(
        &files,
        vec![cached("a", 1, 1), cached("b", 9, 2), cached("gone", 4, 4)],
    );

    assert_eq!(plan.plans.len(), 3);
    assert!(matches!(&plan.plans[0], SessionEntryPlan::Cached(entry) if *entry == cached("a", 1, 1)));
    assert_eq!(paths_to_parse(&plan), vec!["b", "c"]);
    assert_eq!(plan.leftover.len(), 1);
    assert!(plan.leftover.get("gone").is_some());

    let entries = assemble_entries(plan.plans, vec![summary("b"), summary("c")]);
    assert_eq!(
        entries,
        vec![cached("a", 1, 1), cached("b", 2, 2), cached("c", 3, 3)]
    );
    assert_eq!(
        into_sessions(entries),
        vec![summary("a"), summary("b"), summary("c")]
    );
}

#[test]
fn of_two_cached_sessions_with_one_path_the_later_counts() {
    let plan = plan_scan(
        &[file("a", 2, 2, 0)],
        vec![cached("a", 1, 1), cached("a", 2, 2)],
    );

    assert!(plan.files_to_parse().is_empty());
    assert!(plan.leftover.is_empty());
}

#[test]
fn leftover_entries_are_saved_only_under_a_window() {
    let all = vec![
        cached("2026/01/01/rollout-1.jsonl", 1, 1),
        cached("2026/03/01/rollout-2.jsonl", 2, 2),
    ];
    let options = ScanOptions {
        since: Some(day(2026, 3, 1)),
        until: Some(day(2026, 3, 1)),
        refresh_cache: false,
    };
    let files = [file("2026/03/01/rollout-2.jsonl", 3, 2, 0)];
    let plan = plan_scan(&files, all);
    let to_parse = plan.files_to_parse();

    assert!(cache_changed(&options, true, false, &to_parse, &plan));
    let entries = vec![cached("2026/03/01/rollout-2.jsonl", 3, 2)];
    assert_eq!(
        saved_paths(&options, &entries, &plan),
        vec!["2026/01/01/rollout-1.jsonl", "2026/03/01/rollout-2.jsonl"]
    );
    assert_eq!(
        saved_paths(&full_scan(false), &entries, &plan),
        vec!["2026/03/01/rollout-2.jsonl"]
    );
}

#[test]
fn a_plan_from_its_own_entries_reads_no_log() {
    let files = [file("2026/03/01/rollout-1.jsonl", 7, 8, 0)];
    let first = plan_scan(&files, Vec::new());
    let to_parse = first.files_to_parse();
    assert!(cache_changed(&full_scan(false), false, true, &to_parse, &first));
    let entries = assemble_entries(first.plans, vec![summary("2026/03/01/rollout-1.jsonl")]);

    let warm = plan_scan(&files, entries);
    let to_parse = warm.files_to_parse();

    assert!(to_parse.is_empty());
    assert!(!cache_changed(&full_scan(false), true, false, &to_parse, &warm));
}

#[test]
fn the_cache_is_written_when_it_is_not_whole_or_a_log_is_gone() {
    let plan = plan_scan(&[], vec![cached("gone", 1, 1)]);
    let windowed = ScanOptions {
        until: Some(day(2026, 3, 1)),
        ..full_scan(false)
    };

    assert!(cache_changed(&full_scan(false), true, false, &[], &plan));
    assert!(!cache_changed(&windowed, true, false, &[], &plan));
    assert!(cache_changed(&windowed, true, true, &[], &plan));
    assert!(cache_changed(&windowed, false, false, &[], &plan));
    let refresh = ScanOptions {
        refresh_cache: true,
        ..windowed
    };
    assert!(cache_changed(&refresh, true, false, &[], &plan));
}

#[test]
fn date_filtered_scan_preserves_cached_sessions_outside_the_window() {
    let mut logs = Logs::new();
    for (date, id) in [
        ("2026/01/01", "019eeee0-0000-7000-8000-000000000011"),
        ("2026/03/01", "019eeee0-0000-7000-8000-000000000012"),
    ] {
        let day = date.replace('/', "-");
        logs.push((
            format!("{date}/rollout-{id}.jsonl"),
            lines(&[
                &format!(
                    r#"{{"timestamp":"{day}T00:00:00Z","type":"session_meta","payload":{{"id":"{id}"}}}}"#
                ),
                &format!(
                    r#"{{"timestamp":"{day}T00:00:01Z","type":"event_msg","payload":{{"type":"token_count","model":"gpt-5.4","info":{{"last_token_usage":{{"input_tokens":100,"output_tokens":20,"total_tokens":120}}}}}}}}"#
                ),
            ]),
        ));
    }
    let mut cache = None;
    assert!(scan_with_bytes(&logs, &full_scan(true), &mut cache));

    let windowed = ScanOptions {
        since: Some(day(2026, 3, 1)),
        until: Some(day(2026, 3, 1)),
        refresh_cache: false,
    };
    scan_with_bytes(&logs, &windowed, &mut cache);
    assert_eq!(load_cache(session_file(cache.as_deref())).len(), 2);

    logs[1].1.push(line("{}"));
    assert!(scan_with_bytes(&logs, &windowed, &mut cache));
    let kept = load_cache(session_file(cache.as_deref()));
    assert_eq!(kept.len(), 2);
    assert!(kept.iter().all(|entry| entry.session.events.len() == 1));
}

#[test]
fn unchanged_warm_scan_does_not_replace_the_session_cache() {
    let logs = vec![(
        "2026/03/01/rollout-1.jsonl".to_string(),
        lines(&[
            r#"{"timestamp":"2026-03-01T00:00:01Z","type":"event_msg","payload":{"type":"token_count","model":"gpt-5.4","info":{"last_token_usage":{"input_tokens":100,"output_tokens":20,"total_tokens":120}}}}"#,
        ]),
    )];
    let mut cache = None;
    assert!(scan_with_bytes(&logs, &full_scan(false), &mut cache));
    let first = cache.clone();

    assert!(!scan_with_bytes(&logs, &full_scan(false), &mut cache));
    assert_eq!(cache, first);
}

#[test]
fn roundtrips_cached_session_summaries() {
    let entry = CachedSessionSummary {
        file_size: 4096,
        modified_unix_ms: 1_772_723_600_000,
        session: SessionSummary {
            session_id: "2026/03/06/rollout-1".to_string(),
            session_path: "2026/03/06/rollout-1.jsonl".to_string(),
            directory: Some("/Users/jaewon/sources/front-web-www".to_string()),
            events: vec![UsageEvent {
                timestamp_unix_ms: 1_772_723_600_000,
                model: "gpt-5.2-codex".to_string(),
                is_fallback_model: false,
                usage: Usage {
                    input_tokens: 1200,
                    cached_input_tokens: 100,
                    output_tokens: 300,
                    reasoning_output_tokens: 40,
                    total_tokens: 1500,
                },
            }],
        },
    };

    let bytes = saved_bytes(std::slice::from_ref(&entry));
    let restored = load_cache(session_file(Some(&bytes)));

    assert_eq!(restored, vec![entry]);
}

#[test]
fn caches_come_back_in_their_order() {
    let mut odd = cached("\u{1f}é", u64::MAX, i64::MIN);
    odd.session.events.push(UsageEvent {
        timestamp_unix_ms: -1,
        model: String::new(),
        is_fallback_model: true,
        usage: Usage {
            input_tokens: u64::MAX,
            ..Usage::default()
        },
    });
    let entries = vec![cached("b", 251, 65_536), odd, cached("a", 0, -4)];
    assert_eq!(
        load_cache(session_file(Some(&saved_bytes(&entries)))),
        entries
    );
    assert!(load_cache(session_file(Some(&saved_bytes(&[])))).is_empty());
    assert!(!load_cache_state(session_file(Some(&saved_bytes(&[])))).needs_rewrite);

    let directories = vec![
        CachedManifestDirectory {
            relative_dir: "2026/03/06".to_string(),
            modified_unix_ms: 7,
            files: vec![CachedManifestFile {
                relative_path: "2026/03/06/a.jsonl".to_string(),
                file_size: 300,
                modified_unix_ms: -7,
            }],
        },
        CachedManifestDirectory {
            relative_dir: "2026/03/05".to_string(),
            modified_unix_ms: 8,
            files: Vec::new(),
        },
    ];
    assert_eq!(
        load_manifest(manifest_file(Some(&save_manifest(&directories)))),
        directories
    );
    assert!(load_manifest(manifest_file(Some(&[]))).is_empty());
    assert!(load_manifest(manifest_file(None)).is_empty());
}

#[test]
fn cache_bytes_are_read_field_by_field() {
    let mut entry = cached("p", 2, 3);
    entry.session.session_id = "i".to_string();
    entry.session.directory = Some("d".to_string());
    assert_eq!(
        saved_bytes(&[entry]),
        vec![1, 2, 6, 1, b'i', 1, b'p', 1, 1, b'd', 0]
    );
}

#[test]
fn bytes_that_break_off_hold_no_entries() {
    let bytes = saved_bytes(&[cached("a", 1, 1), cached("b", 2, 2)]);
    for end in 0..bytes.len() {
        assert!(matches!(
            session_file(Some(&bytes[..end])),
            CacheFile::Corrupt
        ));
    }
    let endless = [1, 0, 0, 253, 255, 255, 255, 255, 255, 255, 255, 255];
    assert!(matches!(session_file(Some(&endless)), CacheFile::Corrupt));
}

#[test]
fn treats_corrupt_session_cache_as_empty() {
    assert!(load_cache(session_file(Some(&[]))).is_empty());
    assert!(load_cache_state(session_file(Some(&[]))).needs_rewrite);
}

#[test]
fn a_cache_gives_back_its_entries() {
    let entries = vec![cached("a", 1, 1)];

    assert!(load_cache(session_file(None)).is_empty());
    assert!(load_cache_state(session_file(None)).needs_rewrite);
    assert_eq!(load_cache(CacheFile::Entries(entries.clone())), entries);
    let state = load_cache_state(CacheFile::Entries(entries.clone()));
    assert_eq!(state.entries, entries);
    assert!(!state.needs_rewrite);
    assert!(load_manifest(CacheFile::Corrupt).is_empty());
}

fn identity(id: Option<&str>, parent: Option<&str>, started: Option<i64>) -> SessionFileIdentity {
    SessionFileIdentity {
        session_id: id.map(str::to_string),
        forked_from_id: parent.map(str::to_string),
        started_at_unix_ms: started,
    }
}

#[test]
fn filters_parent_history_when_parent_file_is_outside_date_window() {
    let logs = parent_and_child(
        "019eeee0-0000-7000-8000-000000000001",
        "019eeee0-0000-7000-8000-000000000002",
    );
    let windowed = ScanOptions {
        since: Some(day(2026, 3, 6)),
        until: Some(day(2026, 3, 6)),
        refresh_cache: true,
    };
    let sessions = scan(&logs, &windowed, CacheFile::Missing).sessions;

    assert_eq!(sessions.len(), 1);
    assert_eq!(sessions[0].events.len(), 1);
    assert_eq!(sessions[0].events[0].usage.total_tokens, 550);

    let full_sessions = scan(&logs, &full_scan(true), CacheFile::Missing).sessions;
    let total_tokens = full_sessions
        .iter()
        .flat_map(|session| &session.events)
        .map(|event| event.usage.total_tokens)
        .sum::<u64>();
    assert_eq!(total_tokens, 1750);
}

#[test]
fn a_refresh_starts_from_nothing() {
    let entries = vec![cached("a", 1, 1)];
    for file in [
        CacheFile::Missing,
        CacheFile::Corrupt,
        CacheFile::Entries(entries.clone()),
    ] {
        let load = load_for_scan(&full_scan(true), file);
        assert!(load.entries.is_empty());
        assert!(load.needs_rewrite);
    }

    let load = load_for_scan(&full_scan(false), CacheFile::Entries(entries.clone()));
    assert_eq!(load.entries, entries);
    assert!(!load.needs_rewrite);
    let load = load_for_scan(&full_scan(false), CacheFile::Corrupt);
    assert!(load.entries.is_empty());
    assert!(load.needs_rewrite);
}

#[test]
fn a_refresh_returns_and_saves_the_same_whatever_the_cache_held() {
    let logs = parent_and_child("p", "c");
    for options in [
        full_scan(true),
        ScanOptions {
            since: Some(day(2026, 3, 6)),
            until: None,
            refresh_cache: true,
        },
    ] {
        let fresh = scan(&logs, &options, CacheFile::Missing);
        let mut stale = fresh.saved.clone();
        for entry in &mut stale {
            entry.session.events.clear();
        }
        stale.push(cached("2026/01/01/gone.jsonl", 1, 1));

        for cache in [
            CacheFile::Corrupt,
            CacheFile::Entries(fresh.saved.clone()),
            CacheFile::Entries(stale),
        ] {
            let other = scan(&logs, &options, cache);
            assert!(other.changed);
            assert_eq!(other.sessions, fresh.sessions);
            assert_eq!(other.saved, fresh.saved);
        }
        let saved = fresh.saved.iter().map(|entry| entry.session.clone());
        assert_eq!(saved.collect::<Vec<_>>(), fresh.sessions);
        assert!(fresh.sessions.is_sorted_by_key(|session| session.session_path.clone()));
    }

    let saved = scan(&logs, &full_scan(true), CacheFile::Missing).saved;
    let mut kept = saved.clone();
    kept[0].session.events.clear();
    let warm = scan(&logs, &full_scan(false), CacheFile::Entries(kept));
    assert!(!warm.changed);
    assert!(warm.sessions[0].events.is_empty());
}

#[test]
fn a_parent_beyond_the_window_is_searched_for() {
    let parent_id = "019eeee0-0000-7000-8000-000000000001";
    let child_id = "019eeee0-0000-7000-8000-000000000002";
    let child = "2026/03/06/rollout-2026-03-06T00-00-00-child.jsonl";
    let parent_name = format!("rollout-2026-02-01T00-00-00-{parent_id}.jsonl");
    let since = Some(day(2026, 3, 6));
    assert!(file_matches_date_window(child, since, since));
    assert!(!file_matches_date_window(
        &format!("2026/02/01/{parent_name}"),
        since,
        since
    ));

    let plan = plan_forks(
        &[file(child, 1, 1, 0)],
        &[identity(Some(child_id), Some(parent_id), Some(5))],
    );
    assert_eq!(plan.children.len(), 1);
    assert_eq!(plan.children[0].parent_id, parent_id);
    assert_eq!(plan.children[0].child_relative_path, child);
    assert_eq!(plan.children[0].child_started_at_unix_ms, Some(5));
    let mut search = ParentSearch::new(plan.missing);
    assert!(!search.is_idle());
    assert_eq!(search.wanted_by("rollout-other.jsonl"), None);
    assert_eq!(search.wanted_by(&parent_name), Some(parent_id.to_string()));
    assert!(!search.observe(
        parent_id.to_string(),
        &identity(Some("another"), None, None),
        7
    ));
    assert_eq!(parent_entry(&plan.children[0], &plan.parents, &search.found), None);
    assert!(search.observe(
        parent_id.to_string(),
        &identity(Some(parent_id), None, None),
        8
    ));
    assert_eq!(
        parent_entry(&plan.children[0], &plan.parents, &search.found),
        Some(8)
    );
}

#[test]
fn parents_are_looked_for_among_the_logs_first() {
    let files = [
        file("a", 1, 1, 10),
        file("b", 1, 1, 11),
        file("c", 1, 1, 12),
        file("d", 1, 1, 13),
    ];
    let identities = [
        identity(Some("p"), None, None),
        identity(Some("c1"), Some("p"), None),
        identity(Some("p"), None, None),
        identity(None, Some("q"), Some(3)),
    ];
    let plan = plan_forks(&files, &identities);

    assert_eq!(plan.children.len(), 2);
    assert_eq!(plan.missing.len(), 1);
    assert!(plan.missing.get("q").is_some());
    let search = ParentSearch::new(plan.missing);
    assert_eq!(
        parent_entry(&plan.children[0], &plan.parents, &search.found),
        Some(12)
    );
    assert_eq!(
        parent_entry(&plan.children[1], &plan.parents, &search.found),
        None
    );
}

#[test]
fn without_missing_parents_nothing_is_searched_for() {
    let plan = plan_forks(&[file("a", 1, 1, 0)], &[identity(Some("a"), None, None)]);

    assert!(plan.children.is_empty());
    assert!(ParentSearch::new(plan.missing).is_idle());
}

#[test]
fn a_manifest_lists_the_logs_of_days() {
    assert_eq!(
        day_directory(true, "2026\\03\\06"),
        Some("2026/03/06".to_string())
    );
    assert_eq!(day_directory(false, "2026/03/06"), None);
    assert_eq!(day_directory(true, "2026/03/notes"), None);
    assert_eq!(manifest_name(Some("cache")), "cache-manifest.bin");
    assert_eq!(manifest_name(None), "session-cache-manifest.bin");

    let directory = |path: &str, entry: usize| DirectoryCandidate {
        relative_dir: path.to_string(),
        modified_unix_ms: 9,
        entry,
    };
    let sorted = sort_directories(vec![
        directory("2026/03/06", 0),
        directory("2026/03/05", 1),
    ]);
    assert_eq!(sorted[0].entry, 1);

    let log = |path: &str| CachedManifestFile {
        relative_path: path.to_string(),
        file_size: 1,
        modified_unix_ms: 2,
    };
    let entry = manifest_entry(
        &sorted[1],
        vec![log("2026/03/06/b.jsonl"), log("2026/03/06/a.jsonl")],
    );
    assert_eq!(
        entry,
        CachedManifestDirectory {
            relative_dir: "2026/03/06".to_string(),
            modified_unix_ms: 9,
            files: vec![log("2026/03/06/a.jsonl"), log("2026/03/06/b.jsonl")],
        }
    );

    let earlier = manifest_entry(&sorted[0], vec![log("2026/03/01/c.jsonl")]);
    let listed = manifest_files(vec![entry, earlier], Some(day(2026, 3, 6)), None);
    assert_eq!(
        listed,
        vec![log("2026/03/06/a.jsonl"), log("2026/03/06/b.jsonl")]
    );
}
