//! What is handed to other programs of a report.

use crate::cli::payload;
use crate::cli::payload::{
    ModelTotalsPayload, ReportRowPayload, SessionRowPayload, TotalsPayload, UsagePayload,
};
use crate::report::sessions::SessionRow;
use crate::text_map::TextMap;
use crate::types::{ModelTotals, ReportRow, Usage};
use vstd::prelude::*;

verus! {

/// Whether a payload tells of the same tokens as a usage: its input in full and without what was
/// cached, and every other count as it is.
pub open spec fn tells_of(payload: UsagePayload, usage: Usage) -> bool {
    &&& payload.raw_input_tokens == usage.input_tokens
    &&& payload.cached_input_tokens == usage.cached_input_tokens
    &&& payload.output_tokens == usage.output_tokens
    &&& payload.reasoning_output_tokens == usage.reasoning_output_tokens
    &&& payload.total_tokens == usage.total_tokens
    &&& usage.cached_input_tokens <= usage.input_tokens ==> payload.input_tokens
        + payload.cached_input_tokens == payload.raw_input_tokens
    &&& usage.cached_input_tokens > usage.input_tokens ==> payload.input_tokens == 0
}

/// A payload tells of the same tokens as the usage that it was made of.
pub proof fn lemma_payload_tells_of_the_usage(usage: &Usage, payload: UsagePayload)
    requires
        call_ensures(UsagePayload::from, (usage,), payload),
    ensures
        tells_of(payload, *usage),
{
}

/// Whether payloads of models tell of the totals of the same models.
pub open spec fn tell_of_models(
    payloads: TextMap<ModelTotalsPayload>,
    models: TextMap<ModelTotals>,
) -> bool {
    &&& payloads@.dom() == models@.dom()
    &&& forall|model: Seq<char>| #[trigger]
        models@.dom().contains(model) ==> tells_of(payloads@[model].usage, models@[model].usage)
            && payloads@[model].is_fallback == models@[model].is_fallback
}

proof fn lemma_tell_of_models(
    payloads: TextMap<ModelTotalsPayload>,
    models: TextMap<ModelTotals>,
)
    requires
        payloads@ == payload::models_payload(models@),
    ensures
        tell_of_models(payloads, models),
{
    assert(payloads@.dom() =~= models@.dom());
}

/// Every model that has totals has a payload, and no other has; it tells of the same tokens as the
/// model's totals, and whether the model was assumed.
pub proof fn lemma_models_are_told_of(
    models: &TextMap<ModelTotals>,
    payloads: TextMap<ModelTotalsPayload>,
)
    requires
        call_ensures(payload::model_totals_payloads, (models,), payloads),
    ensures
        tell_of_models(payloads, *models),
{
    lemma_tell_of_models(payloads, *models);
}

/// The sum of numbers.
pub open spec fn sum(numbers: Seq<int>) -> int
    decreases numbers.len(),
{
    if numbers.len() == 0 {
        0
    } else {
        sum(numbers.drop_last()) + numbers.last()
    }
}

/// Where the models of a row add up to the row, their payloads add up to the row's payload.
pub proof fn lemma_payloads_add_up(
    usage: &Usage,
    models: &TextMap<ModelTotals>,
    names: Seq<Seq<char>>,
    payload: UsagePayload,
    payloads: TextMap<ModelTotalsPayload>,
)
    requires
        call_ensures(UsagePayload::from, (usage,), payload),
        call_ensures(payload::model_totals_payloads, (models,), payloads),
        forall|i: int| 0 <= i < names.len() ==> models@.dom().contains(#[trigger] names[i]),
        usage.input_tokens == sum(
            names.map_values(|name: Seq<char>| models@[name].usage.input_tokens as int),
        ),
        usage.cached_input_tokens == sum(
            names.map_values(|name: Seq<char>| models@[name].usage.cached_input_tokens as int),
        ),
        usage.output_tokens == sum(
            names.map_values(|name: Seq<char>| models@[name].usage.output_tokens as int),
        ),
        usage.reasoning_output_tokens == sum(
            names.map_values(|name: Seq<char>| models@[name].usage.reasoning_output_tokens as int),
        ),
        usage.total_tokens == sum(
            names.map_values(|name: Seq<char>| models@[name].usage.total_tokens as int),
        ),
    ensures
        payload.raw_input_tokens == sum(
            names.map_values(|name: Seq<char>| payloads@[name].usage.raw_input_tokens as int),
        ),
        payload.cached_input_tokens == sum(
            names.map_values(|name: Seq<char>| payloads@[name].usage.cached_input_tokens as int),
        ),
        payload.output_tokens == sum(
            names.map_values(|name: Seq<char>| payloads@[name].usage.output_tokens as int),
        ),
        payload.reasoning_output_tokens == sum(
            names.map_values(
                |name: Seq<char>| payloads@[name].usage.reasoning_output_tokens as int,
            ),
        ),
        payload.total_tokens == sum(
            names.map_values(|name: Seq<char>| payloads@[name].usage.total_tokens as int),
        ),
{
    lemma_models_are_told_of(models, payloads);
    assert(names.map_values(|name: Seq<char>| models@[name].usage.input_tokens as int)
        =~= names.map_values(|name: Seq<char>| payloads@[name].usage.raw_input_tokens as int));
    assert(names.map_values(|name: Seq<char>| models@[name].usage.cached_input_tokens as int)
        =~= names.map_values(|name: Seq<char>| payloads@[name].usage.cached_input_tokens as int));
    assert(names.map_values(|name: Seq<char>| models@[name].usage.output_tokens as int)
        =~= names.map_values(|name: Seq<char>| payloads@[name].usage.output_tokens as int));
    assert(names.map_values(|name: Seq<char>| models@[name].usage.reasoning_output_tokens as int)
        =~= names.map_values(
        |name: Seq<char>| payloads@[name].usage.reasoning_output_tokens as int,
    ));
    assert(names.map_values(|name: Seq<char>| models@[name].usage.total_tokens as int)
        =~= names.map_values(|name: Seq<char>| payloads@[name].usage.total_tokens as int));
}

/// Each row of a report by period has a payload, in the same order, under its own key, of its own
/// tokens and models.
pub proof fn lemma_rows_are_told_of(rows: &[ReportRow], payloads: Vec<ReportRowPayload>)
    requires
        call_ensures(payload::report_row_payloads, (rows,), payloads),
    ensures
        payloads@.len() == rows@.len(),
        forall|i: int|
            0 <= i < rows@.len() ==> (#[trigger] payloads@[i]).key@ == rows@[i].key@ && tells_of(
                payloads@[i].usage,
                rows@[i].usage,
            ) && tell_of_models(payloads@[i].models, rows@[i].models),
{
    assert forall|i: int| 0 <= i < rows@.len() implies (#[trigger] payloads@[i]).key@
        == rows@[i].key@ && tells_of(payloads@[i].usage, rows@[i].usage) && tell_of_models(
        payloads@[i].models,
        rows@[i].models,
    ) by {
        assert(payload::reports_row(payloads@[i], rows@[i]));
        lemma_tell_of_models(payloads@[i].models, rows@[i].models);
    }
}

/// Each row of a report by session has a payload, in the same order, of its own session, tokens and
/// models.
pub proof fn lemma_sessions_are_told_of(rows: &[SessionRow], payloads: Vec<SessionRowPayload>)
    requires
        call_ensures(payload::session_row_payloads, (rows,), payloads),
    ensures
        payloads@.len() == rows@.len(),
        forall|i: int|
            0 <= i < rows@.len() ==> (#[trigger] payloads@[i]).date_key@ == rows@[i].date_key@
                && payloads@[i].session_id@ == rows@[i].session_id@ && payloads@[i].session_file@
                == rows@[i].session_file@ && payloads@[i].directory@ == rows@[i].directory@
                && payloads@[i].last_activity_unix_ms == rows@[i].last_activity_unix_ms
                && tells_of(payloads@[i].usage, rows@[i].usage) && tell_of_models(
                payloads@[i].models,
                rows@[i].models,
            ),
{
    assert forall|i: int| 0 <= i < rows@.len() implies (#[trigger] payloads@[i]).date_key@
        == rows@[i].date_key@ && payloads@[i].session_id@ == rows@[i].session_id@
        && payloads@[i].session_file@ == rows@[i].session_file@ && payloads@[i].directory@
        == rows@[i].directory@ && payloads@[i].last_activity_unix_ms
        == rows@[i].last_activity_unix_ms && tells_of(payloads@[i].usage, rows@[i].usage)
        && tell_of_models(payloads@[i].models, rows@[i].models) by {
        assert(payload::reports_session(payloads@[i], rows@[i]));
        lemma_tell_of_models(payloads@[i].models, rows@[i].models);
    }
}

/// Whether totals are those of no tokens.
pub open spec fn are_zero(totals: TotalsPayload) -> bool {
    totals.input_tokens == 0 && totals.cached_input_tokens == 0 && totals.raw_input_tokens == 0
        && totals.output_tokens == 0 && totals.reasoning_output_tokens == 0 && totals.total_tokens
        == 0
}

/// Whether totals are those before and a payload more.
pub open spec fn are_more_by(
    totals: TotalsPayload,
    before: TotalsPayload,
    payload: UsagePayload,
) -> bool {
    &&& totals.input_tokens == before.input_tokens + payload.input_tokens
    &&& totals.cached_input_tokens == before.cached_input_tokens + payload.cached_input_tokens
    &&& totals.raw_input_tokens == before.raw_input_tokens + payload.raw_input_tokens
    &&& totals.output_tokens == before.output_tokens + payload.output_tokens
    &&& totals.reasoning_output_tokens == before.reasoning_output_tokens
        + payload.reasoning_output_tokens
    &&& totals.total_tokens == before.total_tokens + payload.total_tokens
}

/// Whether every one of the totals can take in a payload.
pub open spec fn can_take(before: TotalsPayload, payload: UsagePayload) -> bool {
    &&& before.input_tokens + payload.input_tokens <= u64::MAX
    &&& before.cached_input_tokens + payload.cached_input_tokens <= u64::MAX
    &&& before.raw_input_tokens + payload.raw_input_tokens <= u64::MAX
    &&& before.output_tokens + payload.output_tokens <= u64::MAX
    &&& before.reasoning_output_tokens + payload.reasoning_output_tokens <= u64::MAX
    &&& before.total_tokens + payload.total_tokens <= u64::MAX
}

/// A usage that is added to totals adds to each what its payload tells.
pub proof fn lemma_usage_is_added_to_totals(
    totals: &mut TotalsPayload,
    usage: &Usage,
    payload: UsagePayload,
)
    requires
        call_ensures(TotalsPayload::add_usage, (totals, usage), ()),
        call_ensures(UsagePayload::from, (usage,), payload),
    ensures
        are_more_by(*final(totals), *old(totals), payload),
{
}

/// A usage can be added to totals exactly where every sum is a number of 64 bits.
pub proof fn lemma_totals_can_take(
    totals: &TotalsPayload,
    usage: &Usage,
    payload: UsagePayload,
    fits: bool,
)
    requires
        call_ensures(TotalsPayload::can_add, (totals, usage), fits),
        call_ensures(UsagePayload::from, (usage,), payload),
    ensures
        fits <==> can_take(*totals, payload),
{
}

/// The totals of no rows are zero; one more row adds what its payload tells.
pub proof fn lemma_totals_of_one_more_row(
    rows: &[ReportRow],
    more: &[ReportRow],
    row: ReportRow,
    payload: UsagePayload,
    before: TotalsPayload,
    totals: TotalsPayload,
)
    requires
        more@ == rows@.push(row),
        call_ensures(payload::totals_from_report_rows, (rows,), before),
        call_ensures(payload::totals_from_report_rows, (more,), totals),
        call_ensures(UsagePayload::from, (&row.usage,), payload),
    ensures
        rows@.len() == 0 ==> are_zero(before),
        are_more_by(totals, before, payload),
{
    assert(payload::report_usages(more@).drop_last() =~= payload::report_usages(rows@));
}

/// Rows have totals exactly where every sum is a number of 64 bits.
pub proof fn lemma_rows_that_have_totals(
    rows: &[ReportRow],
    more: &[ReportRow],
    row: ReportRow,
    payload: UsagePayload,
    before: Option<TotalsPayload>,
    totals: Option<TotalsPayload>,
)
    requires
        more@ == rows@.push(row),
        call_ensures(payload::try_totals_from_report_rows, (rows,), before),
        call_ensures(payload::try_totals_from_report_rows, (more,), totals),
        call_ensures(UsagePayload::from, (&row.usage,), payload),
    ensures
        rows@.len() == 0 ==> (before matches Some(before) && are_zero(before)),
        totals is Some <==> (before matches Some(before) && can_take(before, payload)),
        before matches Some(before) ==> (totals matches Some(totals) ==> are_more_by(
            totals,
            before,
            payload,
        )),
{
    assert(payload::report_usages(more@).drop_last() =~= payload::report_usages(rows@));
}

/// The totals of no sessions are zero; one more session adds what its payload tells.
pub proof fn lemma_totals_of_one_more_session(
    rows: &[SessionRow],
    more: &[SessionRow],
    row: SessionRow,
    payload: UsagePayload,
    before: TotalsPayload,
    totals: TotalsPayload,
)
    requires
        more@ == rows@.push(row),
        call_ensures(payload::totals_from_session_rows, (rows,), before),
        call_ensures(payload::totals_from_session_rows, (more,), totals),
        call_ensures(UsagePayload::from, (&row.usage,), payload),
    ensures
        rows@.len() == 0 ==> are_zero(before),
        are_more_by(totals, before, payload),
{
    assert(payload::session_usages(more@).drop_last() =~= payload::session_usages(rows@));
}

/// Sessions have totals exactly where every sum is a number of 64 bits.
pub proof fn lemma_sessions_that_have_totals(
    rows: &[SessionRow],
    more: &[SessionRow],
    row: SessionRow,
    payload: UsagePayload,
    before: Option<TotalsPayload>,
    totals: Option<TotalsPayload>,
)
    requires
        more@ == rows@.push(row),
        call_ensures(payload::try_totals_from_session_rows, (rows,), before),
        call_ensures(payload::try_totals_from_session_rows, (more,), totals),
        call_ensures(UsagePayload::from, (&row.usage,), payload),
    ensures
        rows@.len() == 0 ==> (before matches Some(before) && are_zero(before)),
        totals is Some <==> (before matches Some(before) && can_take(before, payload)),
        before matches Some(before) ==> (totals matches Some(totals) ==> are_more_by(
            totals,
            before,
            payload,
        )),
{
    assert(payload::session_usages(more@).drop_last() =~= payload::session_usages(rows@));
}

} // verus!
