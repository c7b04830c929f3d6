//! What a whole log tells of its session.

use crate::calendar::{CivilDate, Timezone};
use crate::report;
use crate::report::merge;
use crate::report::part_laws;
use crate::report::GroupBy;
use crate::session_log::fork::DuplicateLineFilter;
use crate::session_log::line_laws;
use crate::session_log::parser;
use crate::session_log::parser::{SessionFileIdentity, SessionScan};
use crate::session_log::wire;
use crate::session_log::wire::{LineKindHint, LinePayload, LogLine, RawUsage, SessionMetaPayload};
use crate::session_log::wire_laws;
use crate::text;
use crate::types;
use crate::types::{ReportRow, SessionSummary};
use vstd::prelude::*;

verus! {

/// Whether a name is the one that was given, where that one can be seen, and else none.
pub open spec fn is_name(name: Option<String>, given: Option<String>) -> bool {
    &&& name is Some <==> wire_laws::can_be_seen(given)
    &&& name matches Some(name) ==> (given matches Some(given) && name@ == given@)
}

/// A description names the session and the one that it was forked from, and dates its start.
pub proof fn lemma_description_names_the_session(
    meta: &SessionMetaPayload,
    at: Option<i64>,
    identity: SessionFileIdentity,
)
    requires
        call_ensures(parser::described_session, (meta, at), identity),
    ensures
        is_name(identity.session_id, meta.id),
        is_name(identity.forked_from_id, meta.forked_from_id),
        identity.started_at_unix_ms == at,
{
}

/// A line tells who the session is where its bytes and its envelope say that it describes one; it
/// tells what the description says.
pub proof fn lemma_lines_that_name_the_session(
    line: &LogLine,
    trimmed: &[u8],
    hint: LineKindHint,
    told: Option<SessionFileIdentity>,
)
    requires
        call_ensures(parser::line_identity, (line,), told),
        trimmed@ == wire::trimmed_line(line.bytes@),
        call_ensures(wire::line_kind_hint, (trimmed,), hint),
    ensures
        trimmed@.len() == 0 || hint != LineKindHint::SessionMeta || line.envelope is None
            ==> told is None,
        line.envelope matches Some(envelope) ==> (envelope.kind@ != "session_meta"@ || !(
        envelope.payload matches Some(LinePayload::SessionMeta(_))) ==> told is None),
        line.envelope matches Some(envelope) ==> (envelope.payload matches Some(
            LinePayload::SessionMeta(meta),
        ) ==> (trimmed@.len() > 0 && hint == LineKindHint::SessionMeta && envelope.kind@
            == "session_meta"@ ==> (told matches Some(identity) && is_name(
            identity.session_id,
            meta.id,
        ) && is_name(identity.forked_from_id, meta.forked_from_id) && identity.started_at_unix_ms
            == wire::instant(envelope.timestamp)))),
{
}

/// A log tells who its session is by its first line that does; one without such a line does not
/// tell.
pub proof fn lemma_first_line_that_names_the_session(
    lines: &[LogLine],
    rest: &[LogLine],
    line: LogLine,
    told: Option<SessionFileIdentity>,
    identity: SessionFileIdentity,
    identity_of_rest: SessionFileIdentity,
)
    requires
        call_ensures(parser::read_session_file_identity, (lines,), identity),
        call_ensures(parser::read_session_file_identity, (rest,), identity_of_rest),
        call_ensures(parser::line_identity, (&line,), told),
    ensures
        lines@.len() == 0 ==> identity.session_id is None && identity.forked_from_id is None
            && identity.started_at_unix_ms is None,
        lines@ == seq![line] + rest@ ==> (told matches Some(told) ==> identity@ == told@),
        lines@ == seq![line] + rest@ ==> (told is None ==> identity@ == identity_of_rest@),
{
    if lines@ == seq![line] + rest@ {
        assert(lines@[0] == line);
        assert(lines@.drop_first() =~= rest@);
    }
}

/// Whether a session has the path of its log, goes by that path without its ending, and has the
/// directory and the events that were found.
pub open spec fn is_session_of(
    summary: SessionSummary,
    path: Seq<char>,
    found: parser::ScanModel,
) -> bool {
    &&& summary.session_path@ == path
    &&& summary.session_id@ == text::without_suffixes(path, ".jsonl"@)
    &&& summary.directory is Some <==> found.directory is Some
    &&& summary.directory matches Some(directory) ==> found.directory == Some(directory@)
    &&& summary.events@.len() == found.events.len()
    &&& forall|i: int|
        0 <= i < found.events.len() ==> {
            let event = #[trigger] summary.events@[i];
            &&& event.timestamp_unix_ms == found.events[i].timestamp_unix_ms
            &&& event.model@ == found.events[i].model
            &&& event.is_fallback_model == found.events[i].is_fallback_model
            &&& event.usage == found.events[i].usage
        }
}

proof fn lemma_session_of(summary: SessionSummary, path: Seq<char>, found: parser::ScanModel)
    requires
        summary@ == parser::summary_of(path, found),
    ensures
        is_session_of(summary, path, found),
{
    let events = types::event_models(summary.events@);
    assert(events.len() == summary.events@.len());
    assert forall|i: int| 0 <= i < found.events.len() implies {
        let event = #[trigger] summary.events@[i];
        &&& event.timestamp_unix_ms == found.events[i].timestamp_unix_ms
        &&& event.model@ == found.events[i].model
        &&& event.is_fallback_model == found.events[i].is_fallback_model
        &&& event.usage == found.events[i].usage
    } by {
        assert(events[i] == summary.events@[i]@);
    }
}

/// What was found in the lines is what the session has.
pub proof fn lemma_session_has_what_was_found(
    scan: SessionScan,
    path: String,
    summary: SessionSummary,
)
    requires
        call_ensures(SessionScan::into_summary, (scan, path), summary),
    ensures
        is_session_of(summary, path@, scan@),
{
    lemma_session_of(summary, path@, scan@);
}

/// A session that was read has the path of its log with slashes, and what the lines of the log tell
/// from the first to the last.
pub proof fn lemma_session_that_was_read(
    path: &str,
    lines: &[LogLine],
    filter: Option<DuplicateLineFilter>,
    start: SessionScan,
    slashed: String,
    summary: SessionSummary,
)
    requires
        call_ensures(
            parser::parse_session_file_with_duplicate_filter,
            (path, lines, filter),
            summary,
        ) || filter is None && call_ensures(parser::parse_session_file, (path, lines), summary)
            || call_ensures(parser::try_parse_session_file, (path, lines, filter), Some(summary)),
        call_ensures(SessionScan::new, (filter,), start),
        call_ensures(text::slash_separated, (path,), slashed),
    ensures
        is_session_of(summary, slashed@, parser::after_lines(start@, lines@)),
{
    lemma_session_of(summary, slashed@, parser::after_lines(start@, lines@));
}

/// Whether a total can be told: it is given, or the input and the output that are given add up to a
/// number of 64 bits.
pub open spec fn can_be_told(raw: RawUsage) -> bool {
    raw.total_tokens is Some || raw.input_tokens is None || raw.output_tokens is None || (
    raw.input_tokens matches Some(input) && (raw.output_tokens matches Some(output) && input
        + output <= u64::MAX))
}

/// Whether a line is a count that is read.
pub open spec fn is_read_count(line: LogLine) -> bool {
    &&& line_laws::is_read(line)
    &&& line.envelope matches Some(envelope)
    &&& envelope.kind@ == "event_msg"@
    &&& wire::instant(envelope.timestamp) is Some
    &&& envelope.payload matches Some(LinePayload::Event(event)) && event.kind@ == "token_count"@
}

/// The counts of a line can be taken in exactly where the totals of a count that is read can be
/// told.
pub proof fn lemma_counts_that_can_be_taken(line: &LogLine, fit: bool)
    requires
        call_ensures(parser::line_counts_fit, (line,), fit),
    ensures
        !is_read_count(*line) ==> fit,
        is_read_count(*line) ==> (line.envelope matches Some(envelope) && (
        envelope.payload matches Some(LinePayload::Event(event)) && {
            &&& event.info is None ==> fit
            &&& event.info matches Some(info) ==> (fit <==> (
            info.last_token_usage matches Some(raw) ==> can_be_told(raw)) && (
            info.total_token_usage matches Some(raw) ==> can_be_told(raw)))
        })),
{
    line_laws::lemma_is_read(*line);
}

/// A log can be read exactly where the counts of each of its lines can be taken in: one more line
/// has to be one of these.
pub proof fn lemma_logs_that_can_be_read(
    path: &str,
    lines: &[LogLine],
    more: &[LogLine],
    line: LogLine,
    filter: Option<DuplicateLineFilter>,
    fit: bool,
    before: Option<SessionSummary>,
    after: Option<SessionSummary>,
)
    requires
        more@ == lines@.push(line),
        call_ensures(parser::line_counts_fit, (&line,), fit),
        call_ensures(parser::try_parse_session_file, (path, lines, filter), before),
        call_ensures(parser::try_parse_session_file, (path, more, filter), after),
    ensures
        lines@.len() == 0 ==> before is Some,
        after is Some <==> before is Some && fit,
{
    if after is Some {
        assert forall|i: int| 0 <= i < lines@.len() implies parser::counts_fit(
            #[trigger] lines@[i],
        ) by {
            assert(more@[i] == lines@[i]);
        }
        assert(parser::counts_fit(more@[lines@.len() as int]));
    }
}

/// The usage in a log by period is the report of its session alone.
pub proof fn lemma_report_of_one_log(
    path: &str,
    lines: &[LogLine],
    timezone: &Timezone,
    group_by: GroupBy,
    since: Option<CivilDate>,
    until: Option<CivilDate>,
    filter: Option<DuplicateLineFilter>,
    summary: SessionSummary,
    sessions: &[SessionSummary],
    by_session: Vec<ReportRow>,
    rows: Vec<ReportRow>,
)
    requires
        call_ensures(
            parser::parse_session_file_with_duplicate_filter,
            (path, lines, filter),
            summary,
        ),
        sessions@ == seq![summary],
        call_ensures(
            report::aggregate_usage,
            (sessions, timezone, group_by, since, until, false),
            by_session,
        ),
        call_ensures(
            parser::aggregate_session_file_with_duplicate_filter,
            (path, lines, timezone, group_by, since, until, filter),
            rows,
        ) || filter is None && call_ensures(
            parser::aggregate_session_file,
            (path, lines, timezone, group_by, since, until),
            rows,
        ) || call_ensures(
            parser::try_aggregate_session_file,
            (path, lines, timezone, group_by, since, until, filter),
            Some(rows),
        ),
    ensures
        merge::row_list(rows@) == merge::row_list(by_session@),
{
    lemma_events_of_one(sessions@, summary);
    let events = summary@.events;
    let table = report::report_of(
        events,
        timezone@,
        report::grouping(group_by, since, until, false),
    );
    part_laws::lemma_one_listing(rows@, by_session@, table);
}

proof fn lemma_events_of_one(sessions: Seq<SessionSummary>, summary: SessionSummary)
    requires
        sessions == seq![summary],
    ensures
        report::all_events(report::session_models(sessions)) == summary@.events,
{
    let models = report::session_models(sessions);
    assert(models.len() == 1);
    assert(models.last() == summary@);
    reveal_with_fuel(report::all_events, 2);
    assert(report::all_events(models) =~= summary@.events);
}

/// There is such a report exactly where the log can be read and the report of its session made.
pub proof fn lemma_report_of_one_log_that_can_be_made(
    path: &str,
    lines: &[LogLine],
    timezone: &Timezone,
    group_by: GroupBy,
    since: Option<CivilDate>,
    until: Option<CivilDate>,
    filter: Option<DuplicateLineFilter>,
    summary: Option<SessionSummary>,
    sessions: &[SessionSummary],
    by_session: Option<Vec<ReportRow>>,
    rows: Option<Vec<ReportRow>>,
)
    requires
        call_ensures(parser::try_parse_session_file, (path, lines, filter), summary),
        summary matches Some(summary) ==> sessions@ == seq![summary],
        call_ensures(
            report::try_aggregate_usage,
            (sessions, timezone, group_by, since, until, false),
            by_session,
        ),
        call_ensures(
            parser::try_aggregate_session_file,
            (path, lines, timezone, group_by, since, until, filter),
            rows,
        ),
    ensures
        summary is None ==> rows is None,
        summary is Some ==> (rows is Some <==> by_session is Some),
{
    if let Some(summary) = summary {
        lemma_events_of_one(sessions@, summary);
    }
}

} // verus!
