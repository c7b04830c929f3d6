//! Reports as tables of text.

use crate::calendar;
use crate::calendar::Timezone;
use crate::cli::payload;
use crate::cli::payload::TotalsPayload;
use crate::report::sessions::SessionRow;
use crate::text;
use crate::text_map::TextMap;
use crate::types::{ModelTotals, ReportRow, Usage};
use vstd::prelude::*;

verus! {

/// What is shown in place of an empty report.
pub const NO_DATA: &'static str = "No Codex usage data found.";

/// The length of the periods of a report.
#[derive(Debug, Clone, Copy, PartialEq, Eq, Structural)]
pub enum ReportKind {
    Daily,
    Monthly,
}

/// A table: its header, and its rows of as many cells.
#[derive(Debug, Clone, PartialEq, Eq)]
pub struct TextTable {
    pub header: Vec<String>,
    pub rows: Vec<Vec<String>>,
}

/// The cells of rows.
pub open spec fn cells(rows: Seq<Vec<String>>) -> Seq<Seq<Seq<char>>> {
    rows.map_values(|row: Vec<String>| text::texts(row@))
}

/// The name of a model, with a star where the model was assumed.
pub open spec fn model_label(model: Seq<char>, totals: ModelTotals) -> Seq<char> {
    if totals.is_fallback {
        model.push('*')
    } else {
        model
    }
}

/// The names of the models of a row, in their order.
pub open spec fn model_labels(entries: Seq<(Seq<char>, ModelTotals)>) -> Seq<Seq<char>> {
    entries.map_values(|entry: (Seq<char>, ModelTotals)| model_label(entry.0, entry.1))
}

/// The names of the models of a row, with commas between them.
pub open spec fn summary_of(models: TextMap<ModelTotals>) -> Seq<char> {
    text::joined(model_labels(models.entries()), ", "@)
}

/// The names of the models of a row, with commas between them and a star behind each that was
/// assumed.
pub fn models_summary(models: &TextMap<ModelTotals>) -> (summary: String)
    ensures
        summary@ == summary_of(*models),
{
    let n = models.len();
    let ghost entries = models.entries();
    let mut labels: Vec<String> = Vec::new();
    let mut i: usize = 0;
    while i < n
        invariant
            i <= n == entries.len(),
            entries == models.entries(),
            labels@.len() == i,
            forall|j: int|
                0 <= j < i ==> (#[trigger] labels@[j])@ == model_label(entries[j].0, entries[j].1),
        decreases n - i,
    {
        let mut label = models.key_at(i).clone();
        if models.value_at(i).is_fallback {
            label.push('*');
        }
        labels.push(label);
        i = i + 1;
    }
    proof {
        assert(text::texts(labels@) =~= model_labels(entries));
    }
    text::join(&labels, ", ")
}

/// When a session was last active, on the clock of a zone; `-` where no clock shows it.
pub fn format_activity(timestamp_unix_ms: i64, timezone: &Timezone) -> (text: String)
    ensures
        text@ == activity_text(calendar::zone_clock(timestamp_unix_ms, timezone@)),
{
    let time = timezone.local_time(timestamp_unix_ms);
    activity(&time)
}

/// A local time, or `-` where there is none.
pub open spec fn activity_text(time: Option<calendar::LocalTime>) -> Seq<char> {
    match time {
        Some(time) => calendar::time_text(time),
        None => "-"@,
    }
}

/// A local time, or `-` where there is none.
pub fn activity(time: &Option<calendar::LocalTime>) -> (text: String)
    requires
        time matches Some(time) ==> time.wf(),
    ensures
        text@ == activity_text(*time),
{
    match time {
        Some(time) => calendar::format_time(time),
        None => "-".to_owned(),
    }
}

/// A number in groups of three digits.
pub open spec fn number_cell(n: nat) -> Seq<char> {
    text::grouped(text::digits(n))
}

/// The cells of a usage: input that was not cached, cached input, output, reasoning and total.
pub open spec fn usage_cells(usage: Usage) -> Seq<Seq<char>> {
    seq![
        number_cell(usage.billable_input()),
        number_cell(usage.cached_input_tokens as nat),
        number_cell(usage.output_tokens as nat),
        number_cell(usage.reasoning_output_tokens as nat),
        number_cell(usage.total_tokens as nat),
    ]
}

/// The cells of a sum of usages.
pub open spec fn total_cells(totals: payload::PayloadCounts) -> Seq<Seq<char>> {
    seq![
        number_cell(totals.input),
        number_cell(totals.cached_input),
        number_cell(totals.output),
        number_cell(totals.reasoning_output),
        number_cell(totals.total),
    ]
}

fn push_usage_cells(row: &mut Vec<String>, usage: &Usage)
    ensures
        text::texts(final(row)@) == text::texts(old(row)@) + usage_cells(*usage),
{
    let ghost before = text::texts(row@);
    row.push(text::format_number(usage.billable_input_tokens()));
    row.push(text::format_number(usage.cached_input_tokens));
    row.push(text::format_number(usage.output_tokens));
    row.push(text::format_number(usage.reasoning_output_tokens));
    row.push(text::format_number(usage.total_tokens));
    proof {
        assert(text::texts(row@) =~= before + usage_cells(*usage));
    }
}

fn push_total_cells(row: &mut Vec<String>, totals: &TotalsPayload)
    ensures
        text::texts(final(row)@) == text::texts(old(row)@) + total_cells(totals@),
{
    let ghost before = text::texts(row@);
    row.push(text::format_number(totals.input_tokens));
    row.push(text::format_number(totals.cached_input_tokens));
    row.push(text::format_number(totals.output_tokens));
    row.push(text::format_number(totals.reasoning_output_tokens));
    row.push(text::format_number(totals.total_tokens));
    proof {
        assert(text::texts(row@) =~= before + total_cells(totals@));
    }
}

/// The header of a report by period.
pub open spec fn usage_header(kind: ReportKind, split_by_model: bool) -> Seq<Seq<char>> {
    seq![
        match kind {
            ReportKind::Monthly => "Month"@,
            ReportKind::Daily => "Date"@,
        },
        if split_by_model {
            "Model"@
        } else {
            "Models"@
        },
        "Input"@,
        "Cache"@,
        "Output"@,
        "Reasoning"@,
        "Total"@,
        "Cost (USD)"@,
    ]
}

/// A row of a report by period.
pub open spec fn report_cells(row: ReportRow, cost: Seq<char>) -> Seq<Seq<char>> {
    (seq![row.key@, summary_of(row.models)] + usage_cells(row.usage)).push(cost)
}

/// The last row of a report by period.
pub open spec fn report_total_cells(
    totals: payload::PayloadCounts,
    cost: Seq<char>,
) -> Seq<Seq<char>> {
    (seq!["Total"@, ""@] + total_cells(totals)).push(cost)
}

/// Whether this is the table of a report by period: a row for each of the report's with its cost,
/// and one for their sum.
pub open spec fn shows_report(
    table: TextTable,
    kind: ReportKind,
    rows: Seq<ReportRow>,
    costs: Seq<String>,
    total_cost: Seq<char>,
    split_by_model: bool,
) -> bool {
    let shown = cells(table.rows@);
    &&& text::texts(table.header@) == usage_header(kind, split_by_model)
    &&& shown.len() == rows.len() + 1
    &&& forall|i: int|
        0 <= i < rows.len() ==> #[trigger] shown[i] == report_cells(rows[i], costs[i]@)
    &&& shown.last() == report_total_cells(
        payload::total_of(payload::report_usages(rows)),
        total_cost,
    )
}

/// The table of a report by period, given the costs of its rows and of all of them; none for a
/// report without rows.
pub fn usage_table(
    kind: ReportKind,
    rows: &[ReportRow],
    costs: &[String],
    total_cost: &str,
    split_by_model: bool,
) -> (table: Option<TextTable>)
    requires
        costs@.len() == rows@.len(),
        payload::total_of(payload::report_usages(rows@)).fits(),
    ensures
        table is None <==> rows@.len() == 0,
        table matches Some(table) ==> shows_report(
            table,
            kind,
            rows@,
            costs@,
            total_cost@,
            split_by_model,
        ),
{
    if rows.len() == 0 {
        return None;
    }
    let mut header: Vec<String> = Vec::new();
    header.push(
        match kind {
            ReportKind::Monthly => "Month".to_owned(),
            ReportKind::Daily => "Date".to_owned(),
        },
    );
    header.push(
        if split_by_model {
            "Model".to_owned()
        } else {
            "Models".to_owned()
        },
    );
    header.push("Input".to_owned());
    header.push("Cache".to_owned());
    header.push("Output".to_owned());
    header.push("Reasoning".to_owned());
    header.push("Total".to_owned());
    header.push("Cost (USD)".to_owned());
    proof {
        assert(text::texts(header@) =~= usage_header(kind, split_by_model));
    }
    let mut shown: Vec<Vec<String>> = Vec::new();
    let mut i: usize = 0;
    while i < rows.len()
        invariant
            i <= rows@.len() == costs@.len(),
            shown@.len() == i,
            forall|j: int|
                0 <= j < i ==> text::texts((#[trigger] shown@[j])@) == report_cells(
                    rows@[j],
                    costs@[j]@,
                ),
        decreases rows@.len() - i,
    {
        let mut row: Vec<String> = Vec::new();
        row.push(rows[i].key.clone());
        row.push(models_summary(&rows[i].models));
        proof {
            assert(text::texts(row@) =~= seq![rows@[i as int].key@, summary_of(
                rows@[i as int].models,
            )]);
        }
        push_usage_cells(&mut row, &rows[i].usage);
        let ghost before = text::texts(row@);
        row.push(costs[i].clone());
        proof {
            assert(text::texts(row@) =~= before.push(costs@[i as int]@));
        }
        shown.push(row);
        i = i + 1;
    }
    let totals = payload::totals_from_report_rows(rows);
    let mut row: Vec<String> = Vec::new();
    row.push("Total".to_owned());
    row.push("".to_owned());
    proof {
        assert(text::texts(row@) =~= seq!["Total"@, ""@]);
    }
    push_total_cells(&mut row, &totals);
    let ghost before = text::texts(row@);
    row.push(total_cost.to_owned());
    proof {
        assert(text::texts(row@) =~= before.push(total_cost@));
    }
    shown.push(row);
    Some(TextTable { header, rows: shown })
}

/// The header of a report by session.
pub open spec fn session_header() -> Seq<Seq<char>> {
    seq![
        "Date"@,
        "Directory"@,
        "Session"@,
        "Models"@,
        "Input"@,
        "Cache"@,
        "Output"@,
        "Reasoning"@,
        "Total"@,
        "Cost (USD)"@,
        "Last Activity"@,
    ]
}

/// A row of a report by session.
pub open spec fn session_cells(row: SessionRow, cost: Seq<char>, zone: Seq<char>) -> Seq<
    Seq<char>,
> {
    (seq![row.date_key@, row.directory@, row.session_file@, summary_of(row.models)] + usage_cells(
        row.usage,
    )).push(cost).push(activity_text(calendar::zone_clock(row.last_activity_unix_ms, zone)))
}

/// The last row of a report by session.
pub open spec fn session_total_cells(
    totals: payload::PayloadCounts,
    cost: Seq<char>,
) -> Seq<Seq<char>> {
    (seq![""@, ""@, "Total"@, ""@] + total_cells(totals)).push(cost).push(""@)
}

/// Whether this is the table of a report by session: a row for each of the report's with its cost,
/// and one for their sum.
pub open spec fn shows_sessions(
    table: TextTable,
    rows: Seq<SessionRow>,
    costs: Seq<String>,
    total_cost: Seq<char>,
    zone: Seq<char>,
) -> bool {
    let shown = cells(table.rows@);
    &&& text::texts(table.header@) == session_header()
    &&& shown.len() == rows.len() + 1
    &&& forall|i: int|
        0 <= i < rows.len() ==> #[trigger] shown[i] == session_cells(rows[i], costs[i]@, zone)
    &&& shown.last() == session_total_cells(
        payload::total_of(payload::session_usages(rows)),
        total_cost,
    )
}

/// The table of a report by session, given the costs of its rows and of all of them; none for a
/// report without rows.
pub fn session_table(
    rows: &[SessionRow],
    costs: &[String],
    total_cost: &str,
    timezone: &Timezone,
) -> (table: Option<TextTable>)
    requires
        costs@.len() == rows@.len(),
        payload::total_of(payload::session_usages(rows@)).fits(),
    ensures
        table is None <==> rows@.len() == 0,
        table matches Some(table) ==> shows_sessions(table, rows@, costs@, total_cost@, timezone@),
{
    if rows.len() == 0 {
        return None;
    }
    let mut header: Vec<String> = Vec::new();
    header.push("Date".to_owned());
    header.push("Directory".to_owned());
    header.push("Session".to_owned());
    header.push("Models".to_owned());
    header.push("Input".to_owned());
    header.push("Cache".to_owned());
    header.push("Output".to_owned());
    header.push("Reasoning".to_owned());
    header.push("Total".to_owned());
    header.push("Cost (USD)".to_owned());
    header.push("Last Activity".to_owned());
    proof {
        assert(text::texts(header@) =~= session_header());
    }
    let mut shown: Vec<Vec<String>> = Vec::new();
    let mut i: usize = 0;
    while i < rows.len()
        invariant
            i <= rows@.len() == costs@.len(),
            shown@.len() == i,
            forall|j: int|
                0 <= j < i ==> text::texts((#[trigger] shown@[j])@) == session_cells(
                    rows@[j],
                    costs@[j]@,
                    timezone@,
                ),
        decreases rows@.len() - i,
    {
        let mut row: Vec<String> = Vec::new();
        row.push(rows[i].date_key.clone());
        row.push(rows[i].directory.clone());
        row.push(rows[i].session_file.clone());
        row.push(models_summary(&rows[i].models));
        proof {
            let shown_row = rows@[i as int];
            assert(text::texts(row@) =~= seq![
                shown_row.date_key@,
                shown_row.directory@,
                shown_row.session_file@,
                summary_of(shown_row.models),
            ]);
        }
        push_usage_cells(&mut row, &rows[i].usage);
        let ghost before = text::texts(row@);
        row.push(costs[i].clone());
        let active = format_activity(rows[i].last_activity_unix_ms, timezone);
        let ghost active_text = active@;
        row.push(active);
        proof {
            assert(text::texts(row@) =~= before.push(costs@[i as int]@).push(active_text));
        }
        shown.push(row);
        i = i + 1;
    }
    let totals = payload::totals_from_session_rows(rows);
    let mut row: Vec<String> = Vec::new();
    row.push("".to_owned());
    row.push("".to_owned());
    row.push("Total".to_owned());
    row.push("".to_owned());
    proof {
        assert(text::texts(row@) =~= seq![""@, ""@, "Total"@, ""@]);
    }
    push_total_cells(&mut row, &totals);
    let ghost before = text::texts(row@);
    row.push(total_cost.to_owned());
    row.push("".to_owned());
    proof {
        assert(text::texts(row@) =~= before.push(total_cost@).push(""@));
    }
    shown.push(row);
    Some(TextTable { header, rows: shown })
}

} // verus!
