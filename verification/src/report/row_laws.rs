//! What each row of a report by period tells.

use crate::calendar;
use crate::calendar::{CivilDate, Timezone};
use crate::report;
use crate::report::laws;
use crate::report::sums;
use crate::report::{GroupBy, Grouping};
use crate::text;
use crate::text_map::TextMap;
use crate::types;
use crate::types::{EventModel, ReportRow, SessionSummary, Usage, UsageEvent};
use vstd::prelude::*;

verus! {

/// Whether a day comes before another.
pub open spec fn comes_before(a: CivilDate, b: CivilDate) -> bool {
    a.year < b.year || a.year == b.year && (a.month < b.month || a.month == b.month && a.day
        < b.day)
}

/// A window has a start only where one is given, and an end only where one is given. The start and
/// the end are days of the window.
pub proof fn lemma_window_is_from_start_to_end(
    date: &CivilDate,
    since: &Option<CivilDate>,
    until: &Option<CivilDate>,
    inside: bool,
)
    requires
        call_ensures(report::date_in_window, (date, since, until), inside),
    ensures
        since is None && until is None ==> inside,
        since matches Some(start) ==> (until is None ==> (inside <==> !comes_before(
            *date,
            *start,
        ))),
        until matches Some(end) ==> (since is None ==> (inside <==> !comes_before(*end, *date))),
        since matches Some(start) ==> (until matches Some(end) ==> (inside <==> !comes_before(
            *date,
            *start,
        ) && !comes_before(*end, *date))),
{
}

/// A window without an end holds every day after one that it holds, and a window without a start
/// every day before.
pub proof fn lemma_open_windows(
    date: &CivilDate,
    other: &CivilDate,
    bound: &Option<CivilDate>,
    from: bool,
    other_from: bool,
    to: bool,
    other_to: bool,
)
    requires
        call_ensures(report::date_in_window, (date, bound, &None), from),
        call_ensures(report::date_in_window, (other, bound, &None), other_from),
        call_ensures(report::date_in_window, (date, &None, bound), to),
        call_ensures(report::date_in_window, (other, &None, bound), other_to),
        !comes_before(*other, *date),
    ensures
        from ==> other_from,
        other_to ==> to,
        *bound == Some(*date) ==> from && to,
        bound is None ==> from && to,
{
}

/// The day of an event is the one that a clock in the zone shows at its instant.
pub proof fn lemma_day_of_an_event(
    unix_ms: i64,
    timezone: &Timezone,
    group_by: &GroupBy,
    date: Option<CivilDate>,
    key: Option<String>,
)
    requires
        call_ensures(report::event_date, (unix_ms, timezone), date),
        call_ensures(report::event_key, (unix_ms, timezone, group_by), key),
    ensures
        date is Some <==> calendar::zone_clock(unix_ms, timezone@) is Some,
        date matches Some(date) ==> (calendar::zone_clock(unix_ms, timezone@) matches Some(time)
            && date == time.date),
        key is Some <==> date is Some,
        date matches Some(date) ==> (key matches Some(key) && key@ == text_of_period(
            date,
            *group_by,
        )),
{
}

/// The text of the period of a day: of the day itself, or of its month.
pub open spec fn text_of_period(date: CivilDate, group_by: GroupBy) -> Seq<char> {
    match group_by {
        GroupBy::Day => calendar::date_text(date),
        GroupBy::Month => calendar::month_text(date),
    }
}

/// Two days have one period exactly where they are one day, or by month where they are of one
/// month of one year.
pub proof fn lemma_periods(
    a: &CivilDate,
    b: &CivilDate,
    day_a: String,
    day_b: String,
    month_a: String,
    month_b: String,
)
    requires
        report::printable(*a),
        report::printable(*b),
        call_ensures(report::period_key, (a, &GroupBy::Day), day_a),
        call_ensures(report::period_key, (b, &GroupBy::Day), day_b),
        call_ensures(report::period_key, (a, &GroupBy::Month), month_a),
        call_ensures(report::period_key, (b, &GroupBy::Month), month_b),
    ensures
        day_a@ == calendar::date_text(*a),
        month_a@ == calendar::month_text(*a),
        day_a@ == day_b@ <==> a == b,
        month_a@ == month_b@ <==> a.year == b.year && a.month == b.month,
        day_a@.len() == month_a@.len() + 3,
        day_a@.take(month_a@.len() as int) == month_a@,
        day_a@[month_a@.len() as int] == '-',
{
    crate::calendar_laws::lemma_written_periods(*a, *b);
    assert(day_a@.take(month_a@.len() as int) =~= month_a@);
}

/// A row is kept by its period, and by its model where rows are split.
pub proof fn lemma_keys_of_rows(
    key: &str,
    event: &UsageEvent,
    whole: String,
    part: String,
)
    requires
        call_ensures(report::row_storage_key, (key, event, false), whole),
        call_ensures(report::row_storage_key, (key, event, true), part),
    ensures
        whole@ == key@,
        part@ == key@ + seq!['\u{1f}'] + event.model@,
{
    assert(key@.push('\u{1f}') =~= key@ + seq!['\u{1f}']);
}

/// Whether an event is counted in the period of a key: a clock in the zone shows a day of the window
/// and of the period.
pub open spec fn is_counted_in(
    event: EventModel,
    key: Seq<char>,
    zone: Seq<char>,
    group_by: GroupBy,
    since: Option<CivilDate>,
    until: Option<CivilDate>,
) -> bool {
    &&& calendar::zone_clock(event.timestamp_unix_ms, zone) matches Some(time)
    &&& since matches Some(start) ==> !comes_before(time.date, start)
    &&& until matches Some(end) ==> !comes_before(end, time.date)
    &&& key == text_of_period(time.date, group_by)
}

/// A number of tokens of a usage.
pub type Part = spec_fn(Usage) -> int;

/// The sum of a number of tokens over the events that are meant.
pub open spec fn tokens(events: Seq<EventModel>, keep: sums::EventTest, part: Part) -> int
    decreases events.len(),
{
    if events.len() == 0 {
        0
    } else if keep(events.last()) {
        tokens(events.drop_last(), keep, part) + part(events.last().usage)
    } else {
        tokens(events.drop_last(), keep, part)
    }
}

/// Whether a usage is the sum of the usage of the events that are meant, count by count.
pub open spec fn is_sum(usage: Usage, events: Seq<EventModel>, keep: sums::EventTest) -> bool {
    &&& usage.input_tokens == tokens(events, keep, |u: Usage| u.input_tokens as int)
    &&& usage.cached_input_tokens == tokens(events, keep, |u: Usage| u.cached_input_tokens as int)
    &&& usage.output_tokens == tokens(events, keep, |u: Usage| u.output_tokens as int)
    &&& usage.reasoning_output_tokens == tokens(
        events,
        keep,
        |u: Usage| u.reasoning_output_tokens as int,
    )
    &&& usage.total_tokens == tokens(events, keep, |u: Usage| u.total_tokens as int)
}

pub(crate) proof fn lemma_is_sum(events: Seq<EventModel>, keep: sums::EventTest)
    ensures
        ({
            let counts = sums::usage_where(events, keep);
            &&& counts.input == tokens(events, keep, |u: Usage| u.input_tokens as int)
            &&& counts.cached_input == tokens(
                events,
                keep,
                |u: Usage| u.cached_input_tokens as int,
            )
            &&& counts.output == tokens(events, keep, |u: Usage| u.output_tokens as int)
            &&& counts.reasoning_output == tokens(
                events,
                keep,
                |u: Usage| u.reasoning_output_tokens as int,
            )
            &&& counts.total == tokens(events, keep, |u: Usage| u.total_tokens as int)
        }),
    decreases events.len(),
{
    if events.len() > 0 {
        lemma_is_sum(events.drop_last(), keep);
    }
}

/// Whether the totals of models are those of the events that are meant: each model has totals that
/// any of them is of, and was assumed where it was assumed for any of them.
pub open spec fn are_totals(
    models: TextMap<types::ModelTotals>,
    events: Seq<EventModel>,
    keep: sums::EventTest,
) -> bool {
    forall|model: Seq<char>| #![trigger models@.dom().contains(model)]
        {
            &&& models@.dom().contains(model) <==> exists|i: int|
                0 <= i < events.len() && keep(#[trigger] events[i]) && events[i].model == model
            &&& models@.dom().contains(model) ==> is_sum(
                models@[model].usage,
                events,
                |event: EventModel| keep(event) && event.model == model,
            )
            &&& models@.dom().contains(model) ==> (models@[model].is_fallback <==> exists|i: int|
                0 <= i < events.len() && keep(#[trigger] events[i]) && events[i].model == model
                    && events[i].is_fallback_model)
        }
}

pub(crate) proof fn lemma_are_totals(
    models: TextMap<types::ModelTotals>,
    events: Seq<EventModel>,
    keep: sums::EventTest,
)
    requires
        types::totals_by_model(models@) == sums::models_where(events, keep),
    ensures
        are_totals(models, events, keep),
{
    let table = sums::models_where(events, keep);
    assert forall|model: Seq<char>| #![trigger models@.dom().contains(model)]
        {
            &&& models@.dom().contains(model) <==> exists|i: int|
                0 <= i < events.len() && keep(#[trigger] events[i]) && events[i].model == model
            &&& models@.dom().contains(model) ==> is_sum(
                models@[model].usage,
                events,
                |event: EventModel| keep(event) && event.model == model,
            )
            &&& models@.dom().contains(model) ==> (models@[model].is_fallback <==> exists|i: int|
                0 <= i < events.len() && keep(#[trigger] events[i]) && events[i].model == model
                    && events[i].is_fallback_model)
        } by {
        let its = sums::of_model(keep, model);
        let test = |event: EventModel| keep(event) && event.model == model;
        assert(models@.dom().contains(model) == types::totals_by_model(models@).dom().contains(
            model,
        ));
        assert(models@.dom().contains(model) == sums::any_where(events, its));
        if sums::any_where(events, its) {
            let i = choose|i: int| 0 <= i < events.len() && its(#[trigger] events[i]);
            assert(keep(events[i]) && events[i].model == model);
            assert(models@[model]@ == table[model]);
            laws::lemma_same_events_same_usage(events, its, test);
            lemma_is_sum(events, test);
            if sums::fallback_where(events, its) {
                let k = choose|k: int|
                    0 <= k < events.len() && its(#[trigger] events[k])
                        && events[k].is_fallback_model;
                assert(keep(events[k]) && events[k].model == model);
            }
            if exists|k: int|
                0 <= k < events.len() && keep(#[trigger] events[k]) && events[k].model == model
                    && events[k].is_fallback_model {
                let k = choose|k: int|
                    0 <= k < events.len() && keep(#[trigger] events[k]) && events[k].model == model
                        && events[k].is_fallback_model;
                assert(its(events[k]));
            }
        }
        if exists|i: int|
            0 <= i < events.len() && keep(#[trigger] events[i]) && events[i].model == model {
            let i = choose|i: int|
                0 <= i < events.len() && keep(#[trigger] events[i]) && events[i].model == model;
            assert(its(events[i]));
        }
    }
}

/// The events of sessions, one session after the other, each in its own order.
pub proof fn lemma_events_of_sessions(sessions: Seq<SessionSummary>, session: SessionSummary)
    ensures
        report::all_events(report::session_models(Seq::empty())).len() == 0,
        report::all_events(report::session_models(sessions.push(session))).len()
            == report::all_events(report::session_models(sessions)).len() + session.events@.len(),
        forall|i: int|
            0 <= i < report::all_events(report::session_models(sessions)).len()
                ==> report::all_events(report::session_models(sessions.push(session)))[i]
                == #[trigger] report::all_events(report::session_models(sessions))[i],
        forall|i: int|
            0 <= i < session.events@.len() ==> {
                let event = report::all_events(
                    report::session_models(sessions.push(session)),
                )[report::all_events(report::session_models(sessions)).len() + i];
                let raw = #[trigger] session.events@[i];
                &&& event.timestamp_unix_ms == raw.timestamp_unix_ms
                &&& event.model == raw.model@
                &&& event.is_fallback_model == raw.is_fallback_model
                &&& event.usage == raw.usage
            },
{
    let more = report::session_models(sessions.push(session));
    assert(more.drop_last() =~= report::session_models(sessions));
    assert(more.last() == session@);
}

/// Whether rows are the report by period that was asked for.
pub open spec fn is_report(
    rows: Vec<ReportRow>,
    sessions: &[SessionSummary],
    timezone: &Timezone,
    group_by: GroupBy,
    since: Option<CivilDate>,
    until: Option<CivilDate>,
    split_by_model: bool,
) -> bool {
    ||| call_ensures(
        report::aggregate_usage,
        (sessions, timezone, group_by, since, until, split_by_model),
        rows,
    )
    ||| call_ensures(
        report::try_aggregate_usage,
        (sessions, timezone, group_by, since, until, split_by_model),
        Some(rows),
    )
}

proof fn lemma_of_row(
    event: EventModel,
    zone: Seq<char>,
    grouping: Grouping,
    key: Seq<char>,
    model: Seq<char>,
)
    requires
        report::clock_shows_at(event.timestamp_unix_ms, zone),
        laws::is_plain(key),
    ensures
        report::of_row(zone, grouping, report::storage_key(key, model, grouping.split_by_model))(
            event,
        ) <==> is_counted_in(event, key, zone, grouping.group_by, grouping.since, grouping.until)
            && (grouping.split_by_model ==> event.model == model),
{
    if let Some(date) = report::local_date(event.timestamp_unix_ms, zone) {
        let period = report::period_text(date, grouping.group_by);
        laws::lemma_period_is_plain(date, grouping.group_by);
        if grouping.split_by_model && report::storage_key(period, event.model, true)
            == report::storage_key(key, model, true) {
            laws::lemma_parted(period, event.model, key, model);
        }
    }
}

/// Rows that are not split come in the order of their keys. There is one for each period that an
/// event is counted in; it tells of all events of the period that are within the window, in all and
/// by model, and of no others.
pub proof fn lemma_rows_tell_of_their_periods(
    sessions: &[SessionSummary],
    timezone: &Timezone,
    group_by: GroupBy,
    since: Option<CivilDate>,
    until: Option<CivilDate>,
    rows: Vec<ReportRow>,
)
    requires
        is_report(rows, sessions, timezone, group_by, since, until, false),
    ensures
        ({
            let events = report::all_events(report::session_models(sessions@));
            &&& forall|i: int, j: int|
                0 <= i < j < rows@.len() ==> text::precedes(
                    (#[trigger] rows@[i]).key@,
                    (#[trigger] rows@[j]).key@,
                )
            &&& forall|n: int, key: Seq<char>|
                0 <= n < events.len() && #[trigger] is_counted_in(
                    events[n],
                    key,
                    timezone@,
                    group_by,
                    since,
                    until,
                ) ==> exists|i: int| 0 <= i < rows@.len() && (#[trigger] rows@[i]).key@ == key
            &&& forall|i: int|
                0 <= i < rows@.len() ==> {
                    let row = #[trigger] rows@[i];
                    let keep = |event: EventModel|
                        is_counted_in(event, row.key@, timezone@, group_by, since, until);
                    &&& exists|n: int| 0 <= n < events.len() && keep(#[trigger] events[n])
                    &&& is_sum(row.usage, events, keep)
                    &&& are_totals(row.models, events, keep)
                }
        }),
{
    let events = report::all_events(report::session_models(sessions@));
    let zone = timezone@;
    let grouping = report::grouping(group_by, since, until, false);
    let table = report::report_of(events, zone, grouping);
    let keys = choose|keys: Seq<Seq<char>>| report::lists(rows@, table, keys);
    assert forall|i: int| 0 <= i < rows@.len() implies (#[trigger] rows@[i]).key@ == keys[i] by {
        assert(rows@[i]@ == table[keys[i]]);
        assert(keys.contains(keys[i]));
        assert(table.dom().contains(keys[i]));
        laws::lemma_first_is_meant(events, report::of_row(zone, grouping, keys[i]));
    }
    assert forall|i: int, j: int| 0 <= i < j < rows@.len() implies text::precedes(
        (#[trigger] rows@[i]).key@,
        (#[trigger] rows@[j]).key@,
    ) by {
        assert(text::precedes(keys[i], keys[j]));
    }
    assert forall|n: int, key: Seq<char>|
        0 <= n < events.len() && #[trigger] is_counted_in(
            events[n],
            key,
            timezone@,
            group_by,
            since,
            until,
        ) implies exists|i: int| 0 <= i < rows@.len() && (#[trigger] rows@[i]).key@ == key by {
        assert(report::clock_shows_at(events[n].timestamp_unix_ms, zone));
        let date = report::local_date(events[n].timestamp_unix_ms, zone)->0;
        laws::lemma_period_is_plain(date, group_by);
        lemma_of_row(events[n], zone, grouping, key, key);
        assert(report::of_row(zone, grouping, key)(events[n]));
        assert(table.dom().contains(key));
        assert(keys.contains(key));
        let i = choose|i: int| 0 <= i < keys.len() && keys[i] == key;
        assert(rows@[i].key@ == key);
    }
    assert forall|i: int| 0 <= i < rows@.len() implies {
        let row = #[trigger] rows@[i];
        let keep = |event: EventModel|
            is_counted_in(event, row.key@, timezone@, group_by, since, until);
        &&& exists|n: int| 0 <= n < events.len() && keep(#[trigger] events[n])
        &&& is_sum(row.usage, events, keep)
        &&& are_totals(row.models, events, keep)
    } by {
        let row = rows@[i];
        let keep = |event: EventModel|
            is_counted_in(event, row.key@, timezone@, group_by, since, until);
        let its = report::of_row(zone, grouping, keys[i]);
        assert(keys.contains(keys[i]));
        assert(table.dom().contains(keys[i]));
        assert(row@ == table[keys[i]]);
        let first = choose|n: int| 0 <= n < events.len() && its(#[trigger] events[n]);
        assert(report::clock_shows_at(events[first].timestamp_unix_ms, zone));
        let date = report::local_date(events[first].timestamp_unix_ms, zone)->0;
        laws::lemma_period_is_plain(date, group_by);
        assert forall|n: int| 0 <= n < events.len() implies its(#[trigger] events[n]) == keep(
            events[n],
        ) by {
            assert(report::clock_shows_at(events[n].timestamp_unix_ms, zone));
            lemma_of_row(events[n], zone, grouping, keys[i], keys[i]);
        }
        assert(keep(events[first]));
        laws::lemma_same_events_same_usage(events, its, keep);
        lemma_is_sum(events, keep);
        crate::report::part_laws::lemma_same_models(events, its, keep);
        lemma_are_totals(row.models, events, keep);
    }
}

/// Whether a row tells of any model.
pub open spec fn has_a_model(row: ReportRow) -> bool {
    exists|model: Seq<char>| #[trigger] row.models@.dom().contains(model)
}

/// Rows that are split by model tell of one model each: there is one for each period and model that
/// an event is counted in. It tells of all events of the period and the model that are within the
/// window. They come in the order of their periods, and in a period in that of their models.
pub proof fn lemma_split_rows_tell_of_their_models(
    sessions: &[SessionSummary],
    timezone: &Timezone,
    group_by: GroupBy,
    since: Option<CivilDate>,
    until: Option<CivilDate>,
    rows: Vec<ReportRow>,
)
    requires
        is_report(rows, sessions, timezone, group_by, since, until, true),
    ensures
        ({
            let events = report::all_events(report::session_models(sessions@));
            &&& forall|i: int, j: int, a: Seq<char>, b: Seq<char>|
                0 <= i < j < rows@.len() && #[trigger] rows@[i].models@.dom().contains(a)
                    && #[trigger] rows@[j].models@.dom().contains(b) ==> text::precedes(
                    rows@[i].key@ + seq!['\u{1f}'] + a,
                    rows@[j].key@ + seq!['\u{1f}'] + b,
                )
            &&& forall|n: int, key: Seq<char>|
                0 <= n < events.len() && #[trigger] is_counted_in(
                    events[n],
                    key,
                    timezone@,
                    group_by,
                    since,
                    until,
                ) ==> exists|i: int|
                    0 <= i < rows@.len() && (#[trigger] rows@[i]).key@ == key
                        && rows@[i].models@.dom().contains(events[n].model)
            &&& forall|i: int, model: Seq<char>|
                0 <= i < rows@.len() && #[trigger] rows@[i].models@.dom().contains(model) ==> {
                    let row = rows@[i];
                    let keep = |event: EventModel|
                        is_counted_in(event, row.key@, timezone@, group_by, since, until)
                            && event.model == model;
                    &&& exists|n: int| 0 <= n < events.len() && keep(#[trigger] events[n])
                    &&& is_sum(row.usage, events, keep)
                    &&& are_totals(row.models, events, keep)
                }
            &&& forall|i: int|
                0 <= i < rows@.len() ==> has_a_model(#[trigger] rows@[i])
        }),
{
    let events = report::all_events(report::session_models(sessions@));
    let zone = timezone@;
    let grouping = report::grouping(group_by, since, until, true);
    let table = report::report_of(events, zone, grouping);
    let keys = choose|keys: Seq<Seq<char>>| report::lists(rows@, table, keys);
    assert forall|i: int, model: Seq<char>|
        0 <= i < rows@.len() && #[trigger] rows@[i].models@.dom().contains(model) implies keys[i]
        == rows@[i].key@ + seq!['\u{1f}'] + model && laws::is_plain(rows@[i].key@) by {
        assert(keys.contains(keys[i]));
        assert(table.dom().contains(keys[i]));
        assert(rows@[i]@ == table[keys[i]]);
        let its = report::of_row(zone, grouping, keys[i]);
        laws::lemma_first_is_meant(events, its);
        let first = sums::first_where(events, its);
        let f = choose|f: int| 0 <= f < events.len() && events[f] == first;
        assert(report::clock_shows_at(events[f].timestamp_unix_ms, zone));
        let day = report::local_date(first.timestamp_unix_ms, zone)->0;
        laws::lemma_period_is_plain(day, group_by);
        assert(types::totals_by_model(rows@[i].models@).dom().contains(model));
        assert(sums::any_where(events, sums::of_model(its, model)));
        let n = choose|n: int|
            0 <= n < events.len() && sums::of_model(its, model)(#[trigger] events[n]);
        assert(its(events[n]));
        assert(report::clock_shows_at(events[n].timestamp_unix_ms, zone));
        let other = report::local_date(events[n].timestamp_unix_ms, zone)->0;
        laws::lemma_period_is_plain(other, group_by);
        laws::lemma_parted(
            report::period_text(day, group_by),
            first.model,
            report::period_text(other, group_by),
            model,
        );
        assert(rows@[i].key@.push('\u{1f}') =~= rows@[i].key@ + seq!['\u{1f}']);
    }
    assert forall|i: int, j: int, a: Seq<char>, b: Seq<char>|
        0 <= i < j < rows@.len() && #[trigger] rows@[i].models@.dom().contains(a)
            && #[trigger] rows@[j].models@.dom().contains(b) implies text::precedes(
        rows@[i].key@ + seq!['\u{1f}'] + a,
        rows@[j].key@ + seq!['\u{1f}'] + b,
    ) by {
        assert(text::precedes(keys[i], keys[j]));
    }
    assert forall|n: int, key: Seq<char>|
        0 <= n < events.len() && #[trigger] is_counted_in(
            events[n],
            key,
            timezone@,
            group_by,
            since,
            until,
        ) implies exists|i: int|
        0 <= i < rows@.len() && (#[trigger] rows@[i]).key@ == key
            && rows@[i].models@.dom().contains(events[n].model) by {
        assert(report::clock_shows_at(events[n].timestamp_unix_ms, zone));
        let date = report::local_date(events[n].timestamp_unix_ms, zone)->0;
        laws::lemma_period_is_plain(date, group_by);
        let model = events[n].model;
        let stored = report::storage_key(key, model, true);
        lemma_of_row(events[n], zone, grouping, key, model);
        let its = report::of_row(zone, grouping, stored);
        assert(its(events[n]));
        assert(table.dom().contains(stored));
        assert(keys.contains(stored));
        let i = choose|i: int| 0 <= i < keys.len() && keys[i] == stored;
        assert(rows@[i]@ == table[keys[i]]);
        assert(sums::of_model(its, model)(events[n]));
        assert(types::totals_by_model(rows@[i].models@).dom().contains(model));
        assert(rows@[i].models@.dom().contains(model));
        assert(key.push('\u{1f}') =~= key + seq!['\u{1f}']);
        assert(rows@[i].key@.push('\u{1f}') =~= rows@[i].key@ + seq!['\u{1f}']);
        laws::lemma_parted(rows@[i].key@, model, key, model);
    }
    assert forall|i: int, model: Seq<char>|
        0 <= i < rows@.len() && #[trigger] rows@[i].models@.dom().contains(model) implies {
        let row = rows@[i];
        let keep = |event: EventModel|
            is_counted_in(event, row.key@, timezone@, group_by, since, until) && event.model
                == model;
        &&& exists|n: int| 0 <= n < events.len() && keep(#[trigger] events[n])
        &&& is_sum(row.usage, events, keep)
        &&& are_totals(row.models, events, keep)
    } by {
        let row = rows@[i];
        let keep = |event: EventModel|
            is_counted_in(event, row.key@, timezone@, group_by, since, until) && event.model
                == model;
        assert(keys.contains(keys[i]));
        assert(table.dom().contains(keys[i]));
        assert(row@ == table[keys[i]]);
        assert(row.key@.push('\u{1f}') =~= row.key@ + seq!['\u{1f}']);
        assert(keys[i] == report::storage_key(row.key@, model, true));
        let its = report::of_row(zone, grouping, keys[i]);
        assert forall|n: int| 0 <= n < events.len() implies its(#[trigger] events[n]) == keep(
            events[n],
        ) by {
            assert(report::clock_shows_at(events[n].timestamp_unix_ms, zone));
            lemma_of_row(events[n], zone, grouping, row.key@, model);
        }
        let first = choose|n: int| 0 <= n < events.len() && its(#[trigger] events[n]);
        assert(keep(events[first]));
        laws::lemma_same_events_same_usage(events, its, keep);
        lemma_is_sum(events, keep);
        crate::report::part_laws::lemma_same_models(events, its, keep);
        lemma_are_totals(row.models, events, keep);
    }
    assert forall|i: int| 0 <= i < rows@.len() implies has_a_model(#[trigger] rows@[i]) by {
        assert(keys.contains(keys[i]));
        assert(table.dom().contains(keys[i]));
        assert(rows@[i]@ == table[keys[i]]);
        let its = report::of_row(zone, grouping, keys[i]);
        let n = choose|n: int| 0 <= n < events.len() && its(#[trigger] events[n]);
        assert(sums::of_model(its, events[n].model)(events[n]));
        assert(types::totals_by_model(rows@[i].models@).dom().contains(events[n].model));
        assert(rows@[i].models@.dom().contains(events[n].model));
    }
}

/// Whether every sum over the events that are meant is a number of 64 bits.
pub open spec fn sums_fit(events: Seq<EventModel>, keep: sums::EventTest) -> bool {
    &&& tokens(events, keep, |u: Usage| u.input_tokens as int) <= u64::MAX
    &&& tokens(events, keep, |u: Usage| u.cached_input_tokens as int) <= u64::MAX
    &&& tokens(events, keep, |u: Usage| u.output_tokens as int) <= u64::MAX
    &&& tokens(events, keep, |u: Usage| u.reasoning_output_tokens as int) <= u64::MAX
    &&& tokens(events, keep, |u: Usage| u.total_tokens as int) <= u64::MAX
}

/// Whether the row that is kept by a key counts an event: one whose period has that key, and with
/// its model where rows are split.
pub open spec fn is_kept_by(
    event: EventModel,
    stored: Seq<char>,
    zone: Seq<char>,
    group_by: GroupBy,
    since: Option<CivilDate>,
    until: Option<CivilDate>,
    split_by_model: bool,
) -> bool {
    &&& calendar::zone_clock(event.timestamp_unix_ms, zone) matches Some(time)
    &&& since matches Some(start) ==> !comes_before(time.date, start)
    &&& until matches Some(end) ==> !comes_before(end, time.date)
    &&& stored == if split_by_model {
        text_of_period(time.date, group_by) + seq!['\u{1f}'] + event.model
    } else {
        text_of_period(time.date, group_by)
    }
}

/// There is a report exactly where every sum of every row is a number of 64 bits.
pub proof fn lemma_reports_that_can_be_made(
    sessions: &[SessionSummary],
    timezone: &Timezone,
    group_by: GroupBy,
    since: Option<CivilDate>,
    until: Option<CivilDate>,
    split_by_model: bool,
    rows: Option<Vec<ReportRow>>,
)
    requires
        call_ensures(
            report::try_aggregate_usage,
            (sessions, timezone, group_by, since, until, split_by_model),
            rows,
        ),
    ensures
        rows is Some <==> forall|stored: Seq<char>| #[trigger]
            row_fits(
                report::all_events(report::session_models(sessions@)),
                stored,
                timezone@,
                group_by,
                since,
                until,
                split_by_model,
            ),
{
    let events = report::all_events(report::session_models(sessions@));
    let grouping = report::grouping(group_by, since, until, split_by_model);
    assert forall|stored: Seq<char>|
        row_fits(
            events,
            stored,
            timezone@,
            group_by,
            since,
            until,
            split_by_model,
        ) == (#[trigger] sums::usage_where(
            events,
            report::of_row(timezone@, grouping, stored),
        )).fits() by {
        lemma_row_fits(events, stored, timezone@, grouping);
    }
    if rows is Some {
        assert forall|stored: Seq<char>| #[trigger]
            row_fits(events, stored, timezone@, group_by, since, until, split_by_model) by {
            assert(sums::usage_where(events, report::of_row(timezone@, grouping, stored)).fits());
        }
    }
    if forall|stored: Seq<char>| #[trigger]
        row_fits(events, stored, timezone@, group_by, since, until, split_by_model) {
        assert forall|stored: Seq<char>|
            (#[trigger] sums::usage_where(
                events,
                report::of_row(timezone@, grouping, stored),
            )).fits() by {
            assert(row_fits(events, stored, timezone@, group_by, since, until, split_by_model));
        }
    }
}

/// Whether every sum of the row that is kept by a key is a number of 64 bits.
pub open spec fn row_fits(
    events: Seq<EventModel>,
    stored: Seq<char>,
    zone: Seq<char>,
    group_by: GroupBy,
    since: Option<CivilDate>,
    until: Option<CivilDate>,
    split_by_model: bool,
) -> bool {
    sums_fit(
        events,
        |event: EventModel|
            is_kept_by(event, stored, zone, group_by, since, until, split_by_model),
    )
}

proof fn lemma_row_fits(
    events: Seq<EventModel>,
    stored: Seq<char>,
    zone: Seq<char>,
    grouping: Grouping,
)
    ensures
        row_fits(
            events,
            stored,
            zone,
            grouping.group_by,
            grouping.since,
            grouping.until,
            grouping.split_by_model,
        ) == sums::usage_where(events, report::of_row(zone, grouping, stored)).fits(),
{
    let its = report::of_row(zone, grouping, stored);
    let keep = |event: EventModel|
        is_kept_by(
            event,
            stored,
            zone,
            grouping.group_by,
            grouping.since,
            grouping.until,
            grouping.split_by_model,
        );
    assert forall|n: int| 0 <= n < events.len() implies its(#[trigger] events[n]) == keep(
        events[n],
    ) by {
        if let Some(time) = calendar::zone_clock(events[n].timestamp_unix_ms, zone) {
            let period = report::period_text(time.date, grouping.group_by);
            assert(period.push('\u{1f}') =~= period + seq!['\u{1f}']);
        }
    }
    laws::lemma_same_events_same_usage(events, its, keep);
    lemma_is_sum(events, keep);
}

} // verus!
