//! What the tables show of a report.

use crate::calendar;
use crate::calendar::{LocalTime, Timezone};
use crate::cli::payload;
use crate::cli::payload::TotalsPayload;
use crate::cli::tables;
use crate::cli::tables::{ReportKind, TextTable};
use crate::report::sessions::SessionRow;
use crate::text;
use crate::text_map::TextMap;
use crate::types::{ModelTotals, ReportRow, Usage};
use vstd::prelude::*;

verus! {

/// Whether a cell shows a number, in groups of digits.
pub open spec fn shows_number(cell: String, n: int) -> bool {
    n >= 0 && cell@ == text::grouped(text::digits(n as nat))
}

/// Whether cells from a place on show a usage: its input without what was cached, and then its other
/// counts.
pub open spec fn show_usage(cells: Seq<String>, at: int, usage: Usage) -> bool {
    &&& shows_number(
        cells[at],
        if usage.cached_input_tokens <= usage.input_tokens {
            usage.input_tokens - usage.cached_input_tokens
        } else {
            0
        },
    )
    &&& shows_number(cells[at + 1], usage.cached_input_tokens as int)
    &&& shows_number(cells[at + 2], usage.output_tokens as int)
    &&& shows_number(cells[at + 3], usage.reasoning_output_tokens as int)
    &&& shows_number(cells[at + 4], usage.total_tokens as int)
}

/// Whether cells from a place on show the totals of a report.
pub open spec fn show_totals(cells: Seq<String>, at: int, totals: TotalsPayload) -> bool {
    &&& shows_number(cells[at], totals.input_tokens as int)
    &&& shows_number(cells[at + 1], totals.cached_input_tokens as int)
    &&& shows_number(cells[at + 2], totals.output_tokens as int)
    &&& shows_number(cells[at + 3], totals.reasoning_output_tokens as int)
    &&& shows_number(cells[at + 4], totals.total_tokens as int)
}

/// The models of a row are shown by their names in order, with commas between them; one that was
/// assumed has a mark.
pub proof fn lemma_models_are_shown(
    models: &TextMap<ModelTotals>,
    labels: Seq<Seq<char>>,
    summary: String,
)
    requires
        call_ensures(tables::models_summary, (models,), summary),
        labels.len() == models.entries().len(),
        forall|i: int|
            0 <= i < labels.len() ==> #[trigger] labels[i] == if models.entries()[i].1.is_fallback {
                models.entries()[i].0 + "*"@
            } else {
                models.entries()[i].0
            },
    ensures
        summary@ == text::joined(labels, ", "@),
        labels.len() == 0 ==> summary@ == ""@,
        labels.len() == 1 ==> summary@ == labels[0],
{
    reveal_strlit("*");
    reveal_strlit("");
    let entries = models.entries();
    assert forall|i: int| 0 <= i < labels.len() implies labels[i] == tables::model_labels(
        entries,
    )[i] by {
        assert(entries[i].0 + "*"@ =~= entries[i].0.push('*'));
    }
    assert(labels =~= tables::model_labels(entries));
    reveal_with_fuel(text::joined, 2);
    if labels.len() == 1 {
        assert(text::joined(labels, ", "@) =~= labels[0]);
    }
}

/// The last activity of a session is shown as a clock in the zone shows it, or else as unknown.
pub proof fn lemma_activity_is_shown(
    unix_ms: i64,
    timezone: &Timezone,
    shown: String,
    time: &Option<LocalTime>,
    of_time: String,
)
    requires
        call_ensures(tables::format_activity, (unix_ms, timezone), shown),
        call_ensures(tables::activity, (time,), of_time),
    ensures
        calendar::zone_clock(unix_ms, timezone@) == *time ==> shown@ == of_time@,
        time is None ==> of_time@ == "-"@,
        time matches Some(time) ==> of_time@ == calendar::time_text(*time),
{
}

/// The columns of a table of a report by period.
pub proof fn lemma_columns_of_periods(
    kind: ReportKind,
    rows: &[ReportRow],
    costs: &[String],
    total_cost: &str,
    split_by_model: bool,
    table: TextTable,
)
    requires
        call_ensures(
            tables::usage_table,
            (kind, rows, costs, total_cost, split_by_model),
            Some(table),
        ),
    ensures
        table.header@.len() == 8,
        kind is Daily ==> table.header@[0]@ == "Date"@,
        kind is Monthly ==> table.header@[0]@ == "Month"@,
        split_by_model ==> table.header@[1]@ == "Model"@,
        !split_by_model ==> table.header@[1]@ == "Models"@,
        table.header@[2]@ == "Input"@,
        table.header@[3]@ == "Cache"@,
        table.header@[4]@ == "Output"@,
        table.header@[5]@ == "Reasoning"@,
        table.header@[6]@ == "Total"@,
        table.header@[7]@ == "Cost (USD)"@,
{
    let header = text::texts(table.header@);
    assert(header.len() == 8);
    assert forall|i: int| 0 <= i < 8 implies table.header@[i]@ == #[trigger] header[i] by {}
    assert(table.header@[0]@ == header[0]);
    assert(table.header@[1]@ == header[1]);
    assert(table.header@[2]@ == header[2]);
    assert(table.header@[3]@ == header[3]);
    assert(table.header@[4]@ == header[4]);
    assert(table.header@[5]@ == header[5]);
    assert(table.header@[6]@ == header[6]);
    assert(table.header@[7]@ == header[7]);
}

/// A report without rows has no table. Each row has a line, in the same order: its period, its
/// models, its usage and its cost; and the totals come last.
pub proof fn lemma_lines_of_periods(
    kind: ReportKind,
    rows: &[ReportRow],
    costs: &[String],
    total_cost: &str,
    split_by_model: bool,
    table: Option<TextTable>,
    totals: TotalsPayload,
    i: int,
    summary: String,
)
    requires
        call_ensures(tables::usage_table, (kind, rows, costs, total_cost, split_by_model), table),
        call_ensures(payload::totals_from_report_rows, (rows,), totals),
        0 <= i < rows@.len() ==> call_ensures(
            tables::models_summary,
            (&rows@[i].models,),
            summary,
        ),
    ensures
        table is None <==> rows@.len() == 0,
        table matches Some(table) ==> table.rows@.len() == rows@.len() + 1,
        table matches Some(table) ==> (0 <= i < rows@.len() ==> {
            let line = table.rows@[i]@;
            &&& line.len() == 8
            &&& line[0]@ == rows@[i].key@
            &&& line[1]@ == summary@
            &&& show_usage(line, 2, rows@[i].usage)
            &&& line[7]@ == costs@[i]@
        }),
        table matches Some(table) ==> {
            let line = table.rows@[rows@.len() as int]@;
            &&& line.len() == 8
            &&& line[0]@ == "Total"@
            &&& line[1]@ == ""@
            &&& show_totals(line, 2, totals)
            &&& line[7]@ == total_cost@
        },
{
    if let Some(table) = table {
        let shown = tables::cells(table.rows@);
        assert(shown.len() == table.rows@.len());
        if 0 <= i < rows@.len() {
            let line = table.rows@[i]@;
            assert(shown[i] == text::texts(line));
            lemma_cells(line);
            assert(shown[i].len() == 8);
        }
        let last = table.rows@[rows@.len() as int]@;
        assert(shown[rows@.len() as int] == text::texts(last));
        lemma_cells(last);
        assert(shown.last().len() == 8);
    }
}

proof fn lemma_cells(line: Seq<String>)
    ensures
        text::texts(line).len() == line.len(),
        forall|k: int| 0 <= k < line.len() ==> (#[trigger] line[k])@ == text::texts(line)[k],
{
}

/// The columns of a table of a report by session.
pub proof fn lemma_columns_of_sessions(
    rows: &[SessionRow],
    costs: &[String],
    total_cost: &str,
    timezone: &Timezone,
    table: TextTable,
)
    requires
        call_ensures(tables::session_table, (rows, costs, total_cost, timezone), Some(table)),
    ensures
        table.header@.len() == 11,
        table.header@[0]@ == "Date"@,
        table.header@[1]@ == "Directory"@,
        table.header@[2]@ == "Session"@,
        table.header@[3]@ == "Models"@,
        table.header@[4]@ == "Input"@,
        table.header@[5]@ == "Cache"@,
        table.header@[6]@ == "Output"@,
        table.header@[7]@ == "Reasoning"@,
        table.header@[8]@ == "Total"@,
        table.header@[9]@ == "Cost (USD)"@,
        table.header@[10]@ == "Last Activity"@,
{
    lemma_cells(table.header@);
    assert(text::texts(table.header@).len() == 11);
}

/// A report without sessions has no table. Each session has a line, in the same order: its day, its
/// directory, its file, its models, its usage, its cost and its last activity; and the totals come
/// last.
pub proof fn lemma_lines_of_sessions(
    rows: &[SessionRow],
    costs: &[String],
    total_cost: &str,
    timezone: &Timezone,
    table: Option<TextTable>,
    totals: TotalsPayload,
    i: int,
    summary: String,
    activity: String,
)
    requires
        call_ensures(tables::session_table, (rows, costs, total_cost, timezone), table),
        call_ensures(payload::totals_from_session_rows, (rows,), totals),
        0 <= i < rows@.len() ==> call_ensures(
            tables::models_summary,
            (&rows@[i].models,),
            summary,
        ) && call_ensures(
            tables::format_activity,
            (rows@[i].last_activity_unix_ms, timezone),
            activity,
        ),
    ensures
        table is None <==> rows@.len() == 0,
        table matches Some(table) ==> table.rows@.len() == rows@.len() + 1,
        table matches Some(table) ==> (0 <= i < rows@.len() ==> {
            let line = table.rows@[i]@;
            &&& line.len() == 11
            &&& line[0]@ == rows@[i].date_key@
            &&& line[1]@ == rows@[i].directory@
            &&& line[2]@ == rows@[i].session_file@
            &&& line[3]@ == summary@
            &&& show_usage(line, 4, rows@[i].usage)
            &&& line[9]@ == costs@[i]@
            &&& line[10]@ == activity@
        }),
        table matches Some(table) ==> {
            let line = table.rows@[rows@.len() as int]@;
            &&& line.len() == 11
            &&& line[0]@ == ""@
            &&& line[1]@ == ""@
            &&& line[2]@ == "Total"@
            &&& line[3]@ == ""@
            &&& show_totals(line, 4, totals)
            &&& line[9]@ == total_cost@
            &&& line[10]@ == ""@
        },
{
    if let Some(table) = table {
        let shown = tables::cells(table.rows@);
        assert(shown.len() == table.rows@.len());
        if 0 <= i < rows@.len() {
            let line = table.rows@[i]@;
            assert(shown[i] == text::texts(line));
            lemma_cells(line);
            assert(shown[i].len() == 11);
        }
        let last = table.rows@[rows@.len() as int]@;
        assert(shown[rows@.len() as int] == text::texts(last));
        lemma_cells(last);
        assert(shown.last().len() == 11);
    }
}

} // verus!
